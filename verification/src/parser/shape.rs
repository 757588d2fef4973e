//! What the parser returns can be read again: the trees that it builds have
//! the shape, and nest no deeper, than the tokens of a tree ask for.

use vstd::prelude::*;
use crate::lexer::{SpecToken, lexer_made, all_lexer_made};
use crate::parser::ast::{SpecLiteral, SpecSelector, SpecFunction, SpecNode};
use crate::parser::spec_parse_tokens;
use crate::parser::validate::{spec_validate, fresh_state};
use crate::parser::grammar::{
    ParseState, Parsed, MAX_NESTING_LEVEL, current_token, advance, enter, leave, number_as_i64,
    negated, spec_parse_literal, spec_parse_literals, spec_parse_element, spec_parse_text,
    spec_parse_range_end, spec_parse_range, spec_parse_index, spec_parse_function,
    spec_parse_basic, spec_parse_pipeline, spec_parse_pipeline_rest, spec_parse_set,
    spec_parse_set_rest, spec_parse_expression, spec_recover, set_operator_of, starts_element,
    starts_text,
};
use crate::parser::render::{
    literal_can_be_read, literals_can_be_read, literal_depth, literals_depth, larger,
    optional_literal_depth, optional_literal_can_be_read, element_can_be_read, index_can_be_read,
    index_depth, is_text_chain, can_be_read, basic_depth, pipeline_depth, set_depth,
    literal_is_plain, literals_are_plain, optional_literal_is_plain, index_is_plain, is_plain,
};

verus! {

/// Whether a parse that succeeded went forward, stayed within the tokens,
/// and ended no higher than it started, within the depth allowed.
pub open spec fn went_on<T>(tokens: Seq<(SpecToken, nat, nat)>, st: ParseState, parsed: Parsed<T>)
    -> bool {
    st.pos < parsed.state.pos <= tokens.len() && st.depth <= parsed.state.depth
        <= MAX_NESTING_LEVEL
}

/// Whether a parse, successful or not, stayed within the tokens and within
/// the depth allowed, and went back in neither.
pub open spec fn stayed<T>(tokens: Seq<(SpecToken, nat, nat)>, st: ParseState, parsed: Parsed<T>)
    -> bool {
    st.pos <= parsed.state.pos <= tokens.len() && st.depth <= parsed.state.depth
        <= MAX_NESTING_LEVEL
}

/// Whether the parser stands within the tokens and within the depth allowed.
pub open spec fn within(tokens: Seq<(SpecToken, nat, nat)>, st: ParseState) -> bool {
    st.pos <= tokens.len() && st.depth <= MAX_NESTING_LEVEL
}

/// The literals from `from` on can be read again, and nest no deeper than
/// `depth`, where those from `from + 1` on and the one at `from` do.
pub proof fn lemma_literals_from(items: Seq<SpecLiteral>, from: int)
    requires
        0 <= from < items.len(),
    ensures
        literals_can_be_read(items, from) == (literal_can_be_read(items[from])
            && literals_can_be_read(items, from + 1)),
        literals_depth(items, from) == larger(
            literal_depth(items[from]),
            literals_depth(items, from + 1),
        ),
        literals_are_plain(items, from) == (literal_is_plain(items[from]) && literals_are_plain(
            items,
            from + 1,
        )),
{
}

/// The current token of a stream of tokens that the lexer makes is one that
/// the lexer makes.
pub proof fn lemma_current_is_made(tokens: Seq<(SpecToken, nat, nat)>, st: ParseState)
    requires
        all_lexer_made(tokens),
    ensures
        current_token(tokens, st) matches Some(token) ==> lexer_made(token),
{
    if st.pos < tokens.len() {
        assert(lexer_made(tokens[st.pos as int].0));
    }
}

/// Whether two lists agree up to `upto`.
pub open spec fn same_front<A>(a: Seq<A>, b: Seq<A>, upto: int) -> bool {
    a.len() >= upto && b.len() >= upto && forall|i: int| 0 <= i < upto ==> a[i] == b[i]
}

/// A literal that the parser returns can be read again.
#[verifier::rlimit(60)]
pub proof fn lemma_parsed_literal(tokens: Seq<(SpecToken, nat, nat)>, st: ParseState)
    requires
        within(tokens, st),
    ensures
        spec_parse_literal(tokens, st).result matches Ok(l) ==> literal_can_be_read(l) && st.depth
            + literal_depth(l) <= MAX_NESTING_LEVEL && went_on(
            tokens,
            st,
            spec_parse_literal(tokens, st),
        ) && (all_lexer_made(tokens) ==> literal_is_plain(l)),
        stayed(tokens, st, spec_parse_literal(tokens, st)),
    decreases tokens.len() - st.pos, 1nat,
{
    let next = advance(tokens, st);
    if all_lexer_made(tokens) {
        lemma_current_is_made(tokens, st);
        lemma_current_is_made(tokens, next);
    }
    match current_token(tokens, st) {
        Some(SpecToken::Number(n)) => {
            assert(-(usize::MAX as int) <= number_as_i64(n) <= usize::MAX);
        },
        Some(SpecToken::Minus) => {
            match current_token(tokens, next) {
                Some(SpecToken::Number(n)) => {
                    assert(-(usize::MAX as int) <= negated(number_as_i64(n)) <= usize::MAX);
                },
                _ => {},
            }
        },
        Some(SpecToken::LeftBracket) => {
            let entered = enter(tokens, next);
            if entered.result is Ok {
                let first = spec_parse_literal(tokens, entered.state);
                lemma_parsed_literal(tokens, entered.state);
                match first.result {
                    Ok(item) => {
                        let rest = spec_parse_literals(tokens, first.state, seq![item]);
                        lemma_parsed_literals(tokens, first.state, seq![item]);
                        match rest.result {
                            Ok(items) => {
                                assert(items[0] == item);
                                lemma_literals_from(items, 0);
                            },
                            _ => {},
                        }
                    },
                    _ => {},
                }
            }
        },
        _ => {},
    }
}

/// The literals that the parser adds to a list can be read again, and where
/// a comma stands it adds at least one.
#[verifier::rlimit(60)]
pub proof fn lemma_parsed_literals(
    tokens: Seq<(SpecToken, nat, nat)>,
    st: ParseState,
    seen: Seq<SpecLiteral>,
)
    requires
        within(tokens, st),
    ensures
        spec_parse_literals(tokens, st, seen).result matches Ok(items) ==> same_front(
            items,
            seen,
            seen.len() as int,
        ) && literals_can_be_read(items, seen.len() as int) && st.depth + literals_depth(
            items,
            seen.len() as int,
        ) <= MAX_NESTING_LEVEL && (current_token(tokens, st) == Some(SpecToken::Comma)
            ==> items.len() > seen.len()) && (all_lexer_made(tokens) ==> literals_are_plain(
            items,
            seen.len() as int,
        )),
        stayed(tokens, st, spec_parse_literals(tokens, st, seen)),
    decreases tokens.len() - st.pos, 0nat,
{
    if current_token(tokens, st) == Some(SpecToken::Comma) {
        let item = spec_parse_literal(tokens, advance(tokens, st));
        lemma_parsed_literal(tokens, advance(tokens, st));
        match item.result {
            Ok(l) => {
                lemma_parsed_literals(tokens, item.state, seen.push(l));
                let all = spec_parse_literals(tokens, item.state, seen.push(l));
                match all.result {
                    Ok(items) => {
                        assert(items[seen.len() as int] == seen.push(l)[seen.len() as int]);
                        assert forall|i: int| 0 <= i < seen.len() implies items[i] == seen[i] by {
                            assert(seen.push(l)[i] == seen[i]);
                        }
                        lemma_literals_from(items, seen.len() as int);
                    },
                    _ => {},
                }
            },
            _ => {},
        }
    }
}

/// An element selector that the parser returns can be read again.
#[verifier::rlimit(60)]
pub proof fn lemma_parsed_element(tokens: Seq<(SpecToken, nat, nat)>, st: ParseState)
    requires
        within(tokens, st),
    ensures
        spec_parse_element(tokens, st).result matches Ok(s) ==> s matches SpecSelector::Element(e)
            && element_can_be_read(e) && went_on(tokens, st, spec_parse_element(tokens, st)),
{
}

/// A text selector that the parser returns is a text selector.
#[verifier::rlimit(60)]
pub proof fn lemma_parsed_text(tokens: Seq<(SpecToken, nat, nat)>, st: ParseState)
    requires
        within(tokens, st),
    ensures
        spec_parse_text(tokens, st).result matches Ok(s) ==> s is Text && went_on(
            tokens,
            st,
            spec_parse_text(tokens, st),
        ),
{
}

/// A range that the parser returns can be read again.
#[verifier::rlimit(60)]
pub proof fn lemma_parsed_range(
    tokens: Seq<(SpecToken, nat, nat)>,
    st: ParseState,
    start: Option<SpecLiteral>,
    low: nat,
)
    requires
        within(tokens, st),
        low <= st.depth,
        optional_literal_can_be_read(start),
        low + optional_literal_depth(start) <= MAX_NESTING_LEVEL,
    ensures
        spec_parse_range(tokens, st, start).result matches Ok(index) ==> index_can_be_read(index)
            && low + index_depth(index) <= MAX_NESTING_LEVEL + 1 && (all_lexer_made(tokens)
            && optional_literal_is_plain(start) ==> index_is_plain(index)),
        stayed(tokens, st, spec_parse_range(tokens, st, start)),
{
    let end = spec_parse_range_end(tokens, st);
    lemma_parsed_literal(tokens, st);
    lemma_parsed_literal(tokens, end.state);
    lemma_parsed_literal(tokens, advance(tokens, end.state));
}

/// An index that the parser returns can be read again.
#[verifier::rlimit(60)]
pub proof fn lemma_parsed_index(tokens: Seq<(SpecToken, nat, nat)>, st: ParseState, node: SpecNode)
    requires
        within(tokens, st),
    ensures
        spec_parse_index(tokens, st, node).result matches Ok(made) ==> (made == node || (
        made matches SpecNode::IndexSelection(inner, index) && *inner == node && index_can_be_read(
            index,
        ) && st.depth + index_depth(index) <= MAX_NESTING_LEVEL && (all_lexer_made(tokens)
            ==> index_is_plain(index)))),
        stayed(tokens, st, spec_parse_index(tokens, st, node)),
{
    if current_token(tokens, st) == Some(SpecToken::Colon) {
        let entered = enter(tokens, advance(tokens, st));
        if entered.result is Ok {
            let inside = entered.state;
            if current_token(tokens, inside) == Some(SpecToken::Colon) {
                lemma_parsed_range(tokens, advance(tokens, inside), None, inside.depth);
            } else {
                let start = spec_parse_literal(tokens, inside);
                lemma_parsed_literal(tokens, inside);
                match start.result {
                    Ok(first) => {
                        if current_token(tokens, start.state) == Some(SpecToken::Colon) {
                            lemma_parsed_range(
                                tokens,
                                advance(tokens, start.state),
                                Some(first),
                                inside.depth,
                            );
                        } else if current_token(tokens, start.state) == Some(SpecToken::Comma) {
                            lemma_parsed_literals(tokens, start.state, seq![first]);
                            let rest = spec_parse_literals(tokens, start.state, seq![first]);
                            match rest.result {
                                Ok(items) => {
                                    assert(items[0] == first);
                                    lemma_literals_from(items, 0);
                                },
                                _ => {},
                            }
                        }
                    },
                    _ => {},
                }
            }
        }
    }
}

/// The calls of functions that the parser returns on a text selector can be
/// read again.
#[verifier::rlimit(60)]
pub proof fn lemma_parsed_function(
    tokens: Seq<(SpecToken, nat, nat)>,
    st: ParseState,
    node: SpecNode,
    low: nat,
)
    requires
        within(tokens, st),
        low <= st.depth,
        is_text_chain(node),
        can_be_read(node),
        low + basic_depth(node) <= MAX_NESTING_LEVEL,
    ensures
        spec_parse_function(tokens, st, node).result matches Ok(made) ==> is_text_chain(made)
            && can_be_read(made) && low + basic_depth(made) <= MAX_NESTING_LEVEL && (
        all_lexer_made(tokens) && is_plain(node) ==> is_plain(made)),
        stayed(tokens, st, spec_parse_function(tokens, st, node)),
    decreases tokens.len() - st.pos,
{
    if all_lexer_made(tokens) {
        lemma_current_is_made(tokens, st);
    }
    match current_token(tokens, st) {
        Some(SpecToken::Function(name)) => {
            if name.len() > 0 {
                let entered = enter(tokens, advance(tokens, st));
                if entered.result is Ok {
                    let arguments = spec_parse_literals(tokens, entered.state, Seq::empty());
                    lemma_parsed_literals(tokens, entered.state, Seq::empty());
                    match arguments.result {
                        Ok(items) => {
                            let call = SpecNode::FunctionCall(
                                Box::new(node),
                                SpecFunction { name, arguments: items },
                            );
                            assert(is_text_chain(call));
                            assert(can_be_read(call));
                            lemma_parsed_function(tokens, leave(arguments.state), call, low);
                        },
                        _ => {},
                    }
                }
            }
        },
        _ => {},
    }
}

/// How deep the parser goes for a tree by itself, as a pipeline, and as an
/// operand: each no deeper than the next, and the last one level deeper than
/// the first at most.
pub proof fn lemma_depths(node: SpecNode)
    ensures
        set_depth(node) <= pipeline_depth(node) <= basic_depth(node) <= 1 + set_depth(node),
{
    match node {
        SpecNode::Pipeline(left, right) => {
            assert(set_depth(node) == pipeline_depth(node));
            assert(basic_depth(node) == 1 + pipeline_depth(node));
        },
        SpecNode::SetOperation(_, left, right) => {
            assert(pipeline_depth(node) == basic_depth(node));
            assert(basic_depth(node) == 1 + set_depth(node));
        },
        _ => {
            assert(pipeline_depth(node) == basic_depth(node));
            assert(set_depth(node) == pipeline_depth(node));
        },
    }
}

/// A selector with the index that the parser may have put on it can be read again.
#[verifier::rlimit(60)]
pub proof fn lemma_indexed_selector(
    tokens: Seq<(SpecToken, nat, nat)>,
    st: ParseState,
    selector: SpecSelector,
    low: nat,
)
    requires
        within(tokens, st),
        low <= st.depth,
        selector matches SpecSelector::Element(e) ==> element_can_be_read(e),
    ensures
        spec_parse_index(tokens, st, SpecNode::Selector(selector)).result matches Ok(node)
            ==> can_be_read(node) && low + basic_depth(node) <= MAX_NESTING_LEVEL && (
        selector is Text ==> is_text_chain(node)) && (all_lexer_made(tokens) ==> is_plain(node)),
        stayed(tokens, st, spec_parse_index(tokens, st, SpecNode::Selector(selector))),
{
    let plain = SpecNode::Selector(selector);
    lemma_parsed_index(tokens, st, plain);
    assert(can_be_read(plain));
    assert(basic_depth(plain) == 0);
    assert(is_plain(plain));
    match spec_parse_index(tokens, st, plain).result {
        Ok(node) => {
            if node != plain {
                match node {
                    SpecNode::IndexSelection(inner, index) => {
                        assert(*inner == plain);
                        assert(can_be_read(node));
                        assert(basic_depth(node) == larger(0, index_depth(index)));
                        assert(is_plain(node) == (is_plain(plain) && index_is_plain(index)));
                    },
                    _ => {},
                }
            }
        },
        _ => {},
    }
}

/// An element selector with its index, as the parser returns it, can be read again.
#[verifier::rlimit(60)]
pub proof fn lemma_parsed_element_basic(tokens: Seq<(SpecToken, nat, nat)>, st: ParseState, low: nat)
    requires
        within(tokens, st),
        low <= st.depth,
        starts_element(current_token(tokens, st)),
    ensures
        spec_parse_basic(tokens, st).result matches Ok(node) ==> can_be_read(node) && low
            + basic_depth(node) <= MAX_NESTING_LEVEL && st.pos < spec_parse_basic(
            tokens,
            st,
        ).state.pos && (all_lexer_made(tokens) ==> is_plain(node)),
        stayed(tokens, st, spec_parse_basic(tokens, st)),
{
    let selector = spec_parse_element(tokens, st);
    lemma_parsed_element(tokens, st);
    match selector.result {
        Ok(s) => {
            lemma_indexed_selector(tokens, selector.state, s, low);
        },
        _ => {},
    }
}

/// A text selector with its index and its calls, as the parser returns it,
/// can be read again.
#[verifier::rlimit(60)]
pub proof fn lemma_parsed_text_basic(tokens: Seq<(SpecToken, nat, nat)>, st: ParseState, low: nat)
    requires
        within(tokens, st),
        low <= st.depth,
        !starts_element(current_token(tokens, st)),
        starts_text(current_token(tokens, st)),
    ensures
        spec_parse_basic(tokens, st).result matches Ok(node) ==> can_be_read(node) && low
            + basic_depth(node) <= MAX_NESTING_LEVEL && st.pos < spec_parse_basic(
            tokens,
            st,
        ).state.pos && (all_lexer_made(tokens) ==> is_plain(node)),
        stayed(tokens, st, spec_parse_basic(tokens, st)),
{
    let selector = spec_parse_text(tokens, st);
    lemma_parsed_text(tokens, st);
    match selector.result {
        Ok(s) => {
            let indexed = spec_parse_index(tokens, selector.state, SpecNode::Selector(s));
            lemma_indexed_selector(tokens, selector.state, s, low);
            match indexed.result {
                Ok(node) => {
                    lemma_parsed_function(tokens, indexed.state, node, low);
                },
                _ => {},
            }
        },
        _ => {},
    }
}

/// A basic selector that the parser returns can be read again.
#[verifier::rlimit(60)]
pub proof fn lemma_parsed_basic(tokens: Seq<(SpecToken, nat, nat)>, st: ParseState, low: nat)
    requires
        within(tokens, st),
        low <= st.depth,
    ensures
        spec_parse_basic(tokens, st).result matches Ok(node) ==> can_be_read(node) && low
            + basic_depth(node) <= MAX_NESTING_LEVEL && st.pos < spec_parse_basic(
            tokens,
            st,
        ).state.pos && (all_lexer_made(tokens) ==> is_plain(node)),
        stayed(tokens, st, spec_parse_basic(tokens, st)),
    decreases tokens.len() - st.pos, 3nat,
{
    if starts_element(current_token(tokens, st)) {
        lemma_parsed_element_basic(tokens, st, low);
    } else if starts_text(current_token(tokens, st)) {
        lemma_parsed_text_basic(tokens, st, low);
    } else if current_token(tokens, st) == Some(SpecToken::LeftParen) {
        let entered = enter(tokens, advance(tokens, st));
        if entered.result is Ok {
            lemma_parsed_set(tokens, entered.state, low + 1);
            match spec_parse_set(tokens, entered.state).result {
                Ok(node) => {
                    lemma_depths(node);
                },
                _ => {},
            }
        }
    }
}

/// What the parser makes of the rest of a pipeline, with a left side in hand
/// that can be read again, can be read again.
#[verifier::rlimit(60)]
pub proof fn lemma_parsed_pipeline_rest(
    tokens: Seq<(SpecToken, nat, nat)>,
    st: ParseState,
    left: SpecNode,
    low: nat,
)
    requires
        within(tokens, st),
        low <= st.depth,
        can_be_read(left),
        low + pipeline_depth(left) <= MAX_NESTING_LEVEL,
    ensures
        spec_parse_pipeline_rest(tokens, st, left).result matches Ok(node) ==> can_be_read(node)
            && low + pipeline_depth(node) <= MAX_NESTING_LEVEL && (all_lexer_made(tokens)
            && is_plain(left) ==> is_plain(node)),
        stayed(tokens, st, spec_parse_pipeline_rest(tokens, st, left)),
    decreases tokens.len() - st.pos, 0nat,
{
    if current_token(tokens, st) == Some(SpecToken::Pipeline) {
        let entered = enter(tokens, advance(tokens, st));
        if entered.result is Ok {
            let right = spec_parse_basic(tokens, entered.state);
            lemma_parsed_basic(tokens, entered.state, low + 1);
            match right.result {
                Ok(node) => {
                    let both = SpecNode::Pipeline(Box::new(left), Box::new(node));
                    assert(can_be_read(both));
                    assert(pipeline_depth(both) == larger(
                        pipeline_depth(left),
                        1 + basic_depth(node),
                    ));
                    lemma_parsed_pipeline_rest(tokens, leave(right.state), both, low);
                },
                _ => {},
            }
        }
    }
}

/// A pipeline that the parser returns can be read again.
pub proof fn lemma_parsed_pipeline(tokens: Seq<(SpecToken, nat, nat)>, st: ParseState, low: nat)
    requires
        within(tokens, st),
        low <= st.depth,
    ensures
        spec_parse_pipeline(tokens, st).result matches Ok(node) ==> can_be_read(node) && low
            + pipeline_depth(node) <= MAX_NESTING_LEVEL && st.pos < spec_parse_pipeline(
            tokens,
            st,
        ).state.pos && (all_lexer_made(tokens) ==> is_plain(node)),
        stayed(tokens, st, spec_parse_pipeline(tokens, st)),
    decreases tokens.len() - st.pos, 4nat,
{
    let left = spec_parse_basic(tokens, st);
    lemma_parsed_basic(tokens, st, low);
    match left.result {
        Ok(node) => {
            lemma_depths(node);
            lemma_parsed_pipeline_rest(tokens, left.state, node, low);
        },
        _ => {},
    }
}

/// What the parser makes of the rest of a set expression, with a left side
/// in hand that can be read again, can be read again.
#[verifier::rlimit(60)]
pub proof fn lemma_parsed_set_rest(
    tokens: Seq<(SpecToken, nat, nat)>,
    st: ParseState,
    left: SpecNode,
    low: nat,
)
    requires
        within(tokens, st),
        low <= st.depth,
        can_be_read(left),
        low + set_depth(left) <= MAX_NESTING_LEVEL,
    ensures
        spec_parse_set_rest(tokens, st, left).result matches Ok(node) ==> can_be_read(node) && low
            + set_depth(node) <= MAX_NESTING_LEVEL && (all_lexer_made(tokens) && is_plain(left)
            ==> is_plain(node)),
        stayed(tokens, st, spec_parse_set_rest(tokens, st, left)),
    decreases tokens.len() - st.pos, 0nat,
{
    match set_operator_of(current_token(tokens, st)) {
        Some(operator) => {
            let entered = enter(tokens, advance(tokens, st));
            if entered.result is Ok {
                let right = spec_parse_pipeline(tokens, entered.state);
                lemma_parsed_pipeline(tokens, entered.state, low + 1);
                match right.result {
                    Ok(node) => {
                        let both = SpecNode::SetOperation(
                            operator,
                            Box::new(left),
                            Box::new(node),
                        );
                        assert(can_be_read(both));
                        assert(set_depth(both) == larger(
                            set_depth(left),
                            1 + pipeline_depth(node),
                        ));
                        lemma_parsed_set_rest(tokens, leave(right.state), both, low);
                    },
                    _ => {},
                }
            }
        },
        None => {},
    }
}

/// A set expression that the parser returns can be read again.
pub proof fn lemma_parsed_set(tokens: Seq<(SpecToken, nat, nat)>, st: ParseState, low: nat)
    requires
        within(tokens, st),
        low <= st.depth,
    ensures
        spec_parse_set(tokens, st).result matches Ok(node) ==> can_be_read(node) && low
            + set_depth(node) <= MAX_NESTING_LEVEL && (all_lexer_made(tokens) ==> is_plain(node)),
        stayed(tokens, st, spec_parse_set(tokens, st)),
    decreases tokens.len() - st.pos, 5nat,
{
    let left = spec_parse_pipeline(tokens, st);
    lemma_parsed_pipeline(tokens, st, low);
    match left.result {
        Ok(node) => {
            lemma_depths(node);
            lemma_parsed_set_rest(tokens, left.state, node, low);
        },
        _ => {},
    }
}

/// Taking up parsing again after an error leaves the parser within the
/// tokens, and as deep as it was.
pub proof fn lemma_recovered(tokens: Seq<(SpecToken, nat, nat)>, st: ParseState, open: nat)
    requires
        within(tokens, st),
    ensures
        within(tokens, spec_recover(tokens, st, open)),
    decreases tokens.len() - st.pos,
{
    match current_token(tokens, st) {
        None => {},
        Some(SpecToken::LeftParen) => {
            lemma_recovered(tokens, advance(tokens, st), open + 1);
        },
        Some(SpecToken::RightParen) => {
            if open > 0 {
                lemma_recovered(tokens, advance(tokens, st), (open - 1) as nat);
            }
        },
        Some(SpecToken::EOF) => {},
        Some(token) => {
            if !(open == 0 && (token == SpecToken::Pipeline || set_operator_of(Some(token))
                is Some)) {
                lemma_recovered(tokens, advance(tokens, st), open);
            }
        },
    }
}

/// A tree that parsing a token stream gives can be read again, nests no
/// deeper than the parser goes, and passes the validator.
#[verifier::rlimit(60)]
pub proof fn lemma_parsed_tree(tokens: Seq<(SpecToken, nat, nat)>)
    ensures
        spec_parse_tokens(tokens) matches Ok(node) ==> can_be_read(node) && set_depth(node)
            <= MAX_NESTING_LEVEL && spec_validate(node, fresh_state()).result is Ok && (
        all_lexer_made(tokens) ==> is_plain(node)),
{
    let start = ParseState { pos: 0, depth: 0 };
    lemma_parsed_set(tokens, start, 0);
    let first = spec_parse_expression(tokens, start);
    if first.result is Err {
        lemma_recovered(tokens, first.state, 0);
        lemma_parsed_set(tokens, spec_recover(tokens, first.state, 0), 0);
    }
}

} // verus!
