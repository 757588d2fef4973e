//! The tokens of a tree parse to the tree again.

use vstd::prelude::*;
use crate::lexer::SpecToken;
use crate::parser::ast::{
    SpecLiteral, SpecElement, SpecText, SpecSelector, SpecIndex, SpecFunction, SpecNode,
    SetOperator,
};
use crate::parser::error::SpecParseError;
use crate::parser::{spec_parse_tokens, spec_parse};
use crate::parser::shape::lemma_parsed_tree;
use crate::parser::validate::{spec_validate, fresh_state};
use crate::lexer::{spec_tokenize, start_cursor};
use crate::parser::grammar::{
    ParseState, Parsed, MAX_NESTING_LEVEL, current_token, advance, enter, number_as_i64, negated,
    spec_parse_literal, spec_parse_literals, spec_parse_selector_value, spec_parse_element,
    spec_parse_text, spec_parse_range, spec_parse_index_body, spec_parse_index,
    spec_parse_function, spec_parse_basic, spec_parse_pipeline, spec_parse_pipeline_rest,
    spec_parse_set, spec_parse_set_rest, spec_parse_expression, set_operator_of, starts_element,
    starts_text,
};
use crate::parser::render::{
    value_token,
    literal_tokens, more_literal_tokens, magnitude, marker_tokens, element_tokens, text_tokens,
    optional_literal_tokens, range_tail_tokens, index_tokens, function_tokens, operator_token,
    basic_tokens, pipeline_tokens, set_tokens, node_tokens, literal_can_be_read,
    literals_can_be_read, literal_depth, literals_depth, optional_literal_depth,
    optional_literal_can_be_read, element_can_be_read, index_can_be_read, index_depth,
    is_text_chain, can_be_read, basic_depth, pipeline_depth, set_depth,
};

verus! {

/// Whether the tokens from `pos` on are `expected`, whatever their places.
pub open spec fn reads_at(tokens: Seq<(SpecToken, nat, nat)>, pos: nat, expected: Seq<SpecToken>)
    -> bool {
    &&& pos + expected.len() <= tokens.len()
    &&& forall|i: int| 0 <= i < expected.len() ==> #[trigger] expected[i] == tokens[pos + i].0
}

/// The state at `pos` and `depth`.
pub open spec fn at(pos: nat, depth: nat) -> ParseState {
    ParseState { pos, depth }
}

/// A successful parse of `value` that ends at `pos` and `depth`.
pub open spec fn read<T>(value: T, pos: nat, depth: nat) -> Parsed<T> {
    Parsed { result: Ok(value), state: at(pos, depth) }
}

/// What reads as two runs of tokens reads as the first, and then as the second.
pub proof fn lemma_reads_split(
    tokens: Seq<(SpecToken, nat, nat)>,
    pos: nat,
    a: Seq<SpecToken>,
    b: Seq<SpecToken>,
)
    requires
        reads_at(tokens, pos, a + b),
    ensures
        reads_at(tokens, pos, a),
        reads_at(tokens, (pos + a.len()) as nat, b),
{
    let all = a + b;
    assert forall|i: int| 0 <= i < a.len() implies #[trigger] a[i] == tokens[pos + i].0 by {
        assert(all[i] == a[i]);
    }
    assert forall|i: int| 0 <= i < b.len() implies #[trigger] b[i] == tokens[pos + a.len() + i].0 by {
        assert(all[a.len() + i] == b[i]);
    }
}

/// The current token of what reads as a run of tokens is the first of the run.
pub proof fn lemma_reads_first(
    tokens: Seq<(SpecToken, nat, nat)>,
    st: ParseState,
    expected: Seq<SpecToken>,
)
    requires
        reads_at(tokens, st.pos, expected),
        expected.len() > 0,
    ensures
        current_token(tokens, st) == Some(expected[0]),
        advance(tokens, st) == at(st.pos + 1, st.depth),
{
    assert(expected[0] == tokens[st.pos + 0int].0);
}

/// The tokens of a literal that can be read again are at least one.
pub proof fn lemma_literal_has_tokens(literal: SpecLiteral)
    requires
        literal_can_be_read(literal),
    ensures
        literal_tokens(literal).len() > 0,
{
}

/// The tokens of a literal parse to the literal.
#[verifier::rlimit(60)]
pub proof fn lemma_read_literal(tokens: Seq<(SpecToken, nat, nat)>, st: ParseState, l: SpecLiteral)
    requires
        literal_can_be_read(l),
        reads_at(tokens, st.pos, literal_tokens(l)),
        st.depth + literal_depth(l) <= MAX_NESTING_LEVEL,
    ensures
        spec_parse_literal(tokens, st) == read(l, st.pos + literal_tokens(l).len(), st.depth),
    decreases l, 0nat,
{
    let expected = literal_tokens(l);
    lemma_literal_has_tokens(l);
    lemma_reads_first(tokens, st, expected);
    match l {
        SpecLiteral::Int(n) => {
            if n < 0 {
                let next = advance(tokens, st);
                assert(expected[1] == tokens[st.pos + 1int].0);
                assert(magnitude(n) == -n);
                assert(current_token(tokens, next) == Some(SpecToken::Number(magnitude(n))));
                assert(negated(number_as_i64(magnitude(n))) == n);
            } else {
                assert(magnitude(n) == n);
                assert(number_as_i64(magnitude(n)) == n);
            }
        },
        SpecLiteral::List(items) => {
            let first_tokens = literal_tokens(items[0]);
            let more = more_literal_tokens(items, 1);
            let open = seq![SpecToken::LeftBracket];
            let close = seq![SpecToken::RightBracket];
            assert(expected == ((open + first_tokens) + more) + close);
            lemma_reads_split(tokens, st.pos, (open + first_tokens) + more, close);
            lemma_reads_split(tokens, st.pos, open + first_tokens, more);
            lemma_reads_split(tokens, st.pos, open, first_tokens);
            let next = advance(tokens, st);
            let entered = enter(tokens, next);
            assert(entered.result is Ok);
            assert(entered.state == at(st.pos + 1, st.depth + 1));
            lemma_read_literal(tokens, entered.state, items[0]);
            lemma_literal_has_tokens(items[0]);
            let after_first = at(st.pos + 1 + first_tokens.len(), st.depth + 1);
            let end = (st.pos + 1 + first_tokens.len() + more.len()) as nat;
            lemma_reads_first(tokens, at(end, st.depth + 1), close);
            lemma_read_more_literals(tokens, after_first, items, 1, seq![items[0]]);
            assert(seq![items[0]] + items.skip(1) =~= items);
            assert(expected.len() == 1 + first_tokens.len() + more.len() + 1);
        },
        _ => {},
    }
}

/// The tokens of literals with commas in front of them, behind which no
/// comma follows, parse to the literals.
#[verifier::rlimit(60)]
pub proof fn lemma_read_more_literals(
    tokens: Seq<(SpecToken, nat, nat)>,
    st: ParseState,
    items: Seq<SpecLiteral>,
    from: int,
    seen: Seq<SpecLiteral>,
)
    requires
        0 <= from <= items.len(),
        literals_can_be_read(items, from),
        reads_at(tokens, st.pos, more_literal_tokens(items, from)),
        st.depth + literals_depth(items, from) <= MAX_NESTING_LEVEL,
        current_token(tokens, at(st.pos + more_literal_tokens(items, from).len(), st.depth))
            != Some(SpecToken::Comma),
    ensures
        spec_parse_literals(tokens, st, seen) == read(
            seen + items.skip(from),
            st.pos + more_literal_tokens(items, from).len(),
            st.depth,
        ),
    decreases items, items.len() - from,
{
    if from < items.len() {
        let comma = seq![SpecToken::Comma];
        let first_tokens = literal_tokens(items[from]);
        let more = more_literal_tokens(items, from + 1);
        let expected = more_literal_tokens(items, from);
        assert(expected == (comma + first_tokens) + more);
        lemma_reads_split(tokens, st.pos, comma + first_tokens, more);
        lemma_reads_split(tokens, st.pos, comma, first_tokens);
        lemma_reads_first(tokens, st, expected);
        lemma_read_literal(tokens, advance(tokens, st), items[from]);
        lemma_literal_has_tokens(items[from]);
        let after = at(st.pos + 1 + first_tokens.len(), st.depth);
        lemma_read_more_literals(tokens, after, items, from + 1, seen.push(items[from]));
        assert(seen.push(items[from]) + items.skip(from + 1) =~= seen + items.skip(from));
    } else {
        assert(seen + items.skip(from) =~= seen);
    }
}

/// Whether a literal may start with this token.
pub open spec fn starts_literal(token: Option<SpecToken>) -> bool {
    match token {
        Some(SpecToken::Argument(_)) => true,
        Some(SpecToken::QuotedArgument(_)) => true,
        Some(SpecToken::Bool(_)) => true,
        Some(SpecToken::Number(_)) => true,
        Some(SpecToken::Float(_)) => true,
        Some(SpecToken::Minus) => true,
        Some(SpecToken::LeftBracket) => true,
        _ => false,
    }
}

/// Whether this token ends a selector with its index and its calls: it is
/// nothing that the parser would take as more of them.
pub open spec fn ends_part(token: Option<SpecToken>) -> bool {
    token != Some(SpecToken::Colon) && token != Some(SpecToken::Comma) && token != Some(
        SpecToken::Regex,
    ) && !starts_literal(token)
}

/// Whether this token ends an operand of a pipeline: it is `>`, an operator
/// of a set operation, a closing parenthesis, or the end of the input.
pub open spec fn ends_operand(token: Option<SpecToken>) -> bool {
    token == Some(SpecToken::Pipeline) || ends_pipeline(token)
}

/// Whether this token ends a pipeline.
pub open spec fn ends_pipeline(token: Option<SpecToken>) -> bool {
    set_operator_of(token) is Some || ends_expression(token)
}

/// Whether this token ends a set expression.
pub open spec fn ends_expression(token: Option<SpecToken>) -> bool {
    token == Some(SpecToken::RightParen) || token == Some(SpecToken::EOF)
}

/// Where no literal starts, reading a literal fails and takes nothing.
pub proof fn lemma_no_literal(tokens: Seq<(SpecToken, nat, nat)>, st: ParseState)
    requires
        !starts_literal(current_token(tokens, st)),
    ensures
        spec_parse_literal(tokens, st).result is Err,
        spec_parse_literal(tokens, st).state == st,
{
}

/// The first token of a literal is one that a literal may start with.
pub proof fn lemma_literal_starts(literal: SpecLiteral)
    requires
        literal_can_be_read(literal),
    ensures
        literal_tokens(literal).len() > 0,
        starts_literal(Some(literal_tokens(literal)[0])),
{
}

/// The tokens of a pattern, with its marker where it is a regular
/// expression, parse to the pattern.
pub proof fn lemma_read_selector_value(
    tokens: Seq<(SpecToken, nat, nat)>,
    st: ParseState,
    is_regex: bool,
    value: Seq<char>,
)
    requires
        reads_at(
            tokens,
            st.pos,
            marker_tokens(is_regex) + seq![value_token(value)],
        ),
    ensures
        spec_parse_selector_value(tokens, st) == read(
            (is_regex, value),
            st.pos + marker_tokens(is_regex).len() + 1,
            st.depth,
        ),
{
    let expected = marker_tokens(is_regex) + seq![value_token(value)];
    lemma_reads_first(tokens, st, expected);
    if is_regex {
        assert(expected[1] == tokens[st.pos + 1int].0);
    }
}

/// Whether a pattern may start with this token.
pub open spec fn starts_value(token: Option<SpecToken>) -> bool {
    match token {
        Some(SpecToken::Regex) => true,
        Some(SpecToken::Argument(_)) => true,
        Some(SpecToken::QuotedArgument(_)) => true,
        _ => false,
    }
}

/// The tokens of an element selector, behind which no pattern follows, parse
/// to the selector.
#[verifier::rlimit(60)]
pub proof fn lemma_read_element(
    tokens: Seq<(SpecToken, nat, nat)>,
    st: ParseState,
    element: SpecElement,
)
    requires
        element_can_be_read(element),
        reads_at(tokens, st.pos, element_tokens(element)),
        !starts_value(current_token(tokens, at(st.pos + element_tokens(element).len(), st.depth))),
    ensures
        spec_parse_element(tokens, st) == read(
            SpecSelector::Element(element),
            st.pos + element_tokens(element).len(),
            st.depth,
        ),
        starts_element(current_token(tokens, st)),
{
    let expected = element_tokens(element);
    lemma_reads_first(tokens, st, expected);
    let after = advance(tokens, st);
    match element {
        SpecElement::Class(v, r) => {
            let value = marker_tokens(r) + seq![value_token(v)];
            assert(expected =~= seq![SpecToken::Class] + value);
            lemma_reads_split(tokens, st.pos, seq![SpecToken::Class], value);
            lemma_read_selector_value(tokens, after, r, v);
        },
        SpecElement::Id(v, r) => {
            let value = marker_tokens(r) + seq![value_token(v)];
            assert(expected =~= seq![SpecToken::Id] + value);
            lemma_reads_split(tokens, st.pos, seq![SpecToken::Id], value);
            lemma_read_selector_value(tokens, after, r, v);
        },
        SpecElement::Tag(v, r) => {
            let value = marker_tokens(r) + seq![value_token(v)];
            assert(expected =~= seq![SpecToken::Tag] + value);
            lemma_reads_split(tokens, st.pos, seq![SpecToken::Tag], value);
            lemma_read_selector_value(tokens, after, r, v);
        },
        SpecElement::Attr(name, value, r) => {
            let name_tokens = marker_tokens(r) + seq![value_token(name)];
            match value {
                Some(v) => {
                    let value_tokens = marker_tokens(false) + seq![value_token(v)];
                    assert(value_tokens =~= seq![value_token(v)]);
                    assert(expected =~= (seq![SpecToken::Attr] + name_tokens) + value_tokens);
                    lemma_reads_split(
                        tokens,
                        st.pos,
                        seq![SpecToken::Attr] + name_tokens,
                        value_tokens,
                    );
                    lemma_reads_split(tokens, st.pos, seq![SpecToken::Attr], name_tokens);
                    lemma_read_selector_value(tokens, after, r, name);
                    lemma_read_selector_value(
                        tokens,
                        at(st.pos + 1 + name_tokens.len(), st.depth),
                        false,
                        v,
                    );
                },
                None => {
                    assert(expected =~= seq![SpecToken::Attr] + name_tokens);
                    lemma_reads_split(tokens, st.pos, seq![SpecToken::Attr], name_tokens);
                    lemma_read_selector_value(tokens, after, r, name);
                },
            }
        },
    }
}

/// The tokens of a text selector parse to the selector.
#[verifier::rlimit(60)]
pub proof fn lemma_read_text(tokens: Seq<(SpecToken, nat, nat)>, st: ParseState, text: SpecText)
    requires
        reads_at(tokens, st.pos, text_tokens(text)),
    ensures
        spec_parse_text(tokens, st) == read(
            SpecSelector::Text(text),
            st.pos + text_tokens(text).len(),
            st.depth,
        ),
        starts_text(current_token(tokens, st)),
        !starts_element(current_token(tokens, st)),
{
    let expected = text_tokens(text);
    lemma_reads_first(tokens, st, expected);
    match text {
        SpecText::AttrValue(name, r) => {
            let value = marker_tokens(r) + seq![value_token(name)];
            assert(expected =~= seq![SpecToken::Pound] + value);
            lemma_reads_split(tokens, st.pos, seq![SpecToken::Pound], value);
            let after = advance(tokens, st);
            lemma_reads_first(tokens, after, value);
            if r {
                assert(value[1] == tokens[after.pos + 1int].0);
            }
        },
        _ => {},
    }
}

/// The tokens of the end and the step of a range, behind which nothing
/// follows that the parser would take for a step, parse to them.
#[verifier::rlimit(60)]
pub proof fn lemma_read_range(
    tokens: Seq<(SpecToken, nat, nat)>,
    st: ParseState,
    start: Option<SpecLiteral>,
    end: Option<SpecLiteral>,
    step: Option<SpecLiteral>,
)
    requires
        optional_literal_can_be_read(end),
        optional_literal_can_be_read(step),
        reads_at(tokens, st.pos, range_tail_tokens(end, step)),
        st.depth + optional_literal_depth(end) <= MAX_NESTING_LEVEL,
        st.depth + optional_literal_depth(step) <= MAX_NESTING_LEVEL,
        ends_part(current_token(tokens, at(st.pos + range_tail_tokens(end, step).len(), st.depth))),
    ensures
        spec_parse_range(tokens, st, start) == read(
            SpecIndex::Range(start, end, step),
            st.pos + range_tail_tokens(end, step).len(),
            st.depth,
        ),
{
    let expected = range_tail_tokens(end, step);
    match (end, step) {
        (Some(e), Some(s)) => {
            let colon = seq![SpecToken::Colon];
            assert(expected == (literal_tokens(e) + colon) + literal_tokens(s));
            lemma_reads_split(tokens, st.pos, literal_tokens(e) + colon, literal_tokens(s));
            lemma_reads_split(tokens, st.pos, literal_tokens(e), colon);
            lemma_literal_starts(e);
            lemma_reads_first(tokens, st, literal_tokens(e));
            lemma_read_literal(tokens, st, e);
            let mid = at(st.pos + literal_tokens(e).len(), st.depth);
            lemma_reads_first(tokens, mid, colon);
            lemma_read_literal(tokens, advance(tokens, mid), s);
        },
        (Some(e), None) => {
            lemma_literal_starts(e);
            lemma_reads_first(tokens, st, literal_tokens(e));
            lemma_read_literal(tokens, st, e);
            let mid = at(st.pos + literal_tokens(e).len(), st.depth);
            lemma_no_literal(tokens, mid);
        },
        (None, Some(s)) => {
            let colon = seq![SpecToken::Colon];
            lemma_reads_split(tokens, st.pos, colon, literal_tokens(s));
            lemma_reads_first(tokens, st, colon);
            let mid = advance(tokens, st);
            lemma_literal_starts(s);
            lemma_reads_first(tokens, mid, literal_tokens(s));
            lemma_read_literal(tokens, mid, s);
        },
        (None, None) => {
            lemma_reads_first(tokens, st, expected);
            lemma_no_literal(tokens, advance(tokens, st));
        },
    }
}

/// What the parser makes of an index whose inside it reads as `index`.
pub proof fn lemma_index_around(
    tokens: Seq<(SpecToken, nat, nat)>,
    st: ParseState,
    node: SpecNode,
    index: SpecIndex,
    end: nat,
)
    requires
        current_token(tokens, st) == Some(SpecToken::Colon),
        st.depth < MAX_NESTING_LEVEL,
        spec_parse_index_body(tokens, at(st.pos + 1, st.depth + 1)) == read(
            index,
            end,
            st.depth + 1,
        ),
    ensures
        spec_parse_index(tokens, st, node) == read(
            SpecNode::IndexSelection(Box::new(node), index),
            end,
            st.depth,
        ),
{
    assert(enter(tokens, advance(tokens, st)).state == at(st.pos + 1, st.depth + 1));
}

/// The tokens of a single position parse to it.
pub proof fn lemma_read_single(
    tokens: Seq<(SpecToken, nat, nat)>,
    inside: ParseState,
    l: SpecLiteral,
)
    requires
        literal_can_be_read(l),
        reads_at(tokens, inside.pos, literal_tokens(l)),
        inside.depth + literal_depth(l) <= MAX_NESTING_LEVEL,
        ends_part(current_token(tokens, at(inside.pos + literal_tokens(l).len(), inside.depth))),
    ensures
        spec_parse_index_body(tokens, inside) == read(
            SpecIndex::Single(l),
            inside.pos + literal_tokens(l).len(),
            inside.depth,
        ),
{
    lemma_literal_starts(l);
    lemma_reads_first(tokens, inside, literal_tokens(l));
    lemma_read_literal(tokens, inside, l);
}

/// The tokens of several positions parse to them.
#[verifier::rlimit(60)]
pub proof fn lemma_read_multiple(
    tokens: Seq<(SpecToken, nat, nat)>,
    inside: ParseState,
    items: Seq<SpecLiteral>,
)
    requires
        items.len() >= 2,
        literals_can_be_read(items, 0),
        reads_at(tokens, inside.pos, literal_tokens(items[0]) + more_literal_tokens(items, 1)),
        inside.depth + literals_depth(items, 0) <= MAX_NESTING_LEVEL,
        ends_part(
            current_token(
                tokens,
                at(
                    inside.pos + literal_tokens(items[0]).len() + more_literal_tokens(
                        items,
                        1,
                    ).len(),
                    inside.depth,
                ),
            ),
        ),
    ensures
        spec_parse_index_body(tokens, inside) == read(
            SpecIndex::Multiple(items),
            inside.pos + literal_tokens(items[0]).len() + more_literal_tokens(items, 1).len(),
            inside.depth,
        ),
{
    let first = literal_tokens(items[0]);
    let more = more_literal_tokens(items, 1);
    lemma_reads_split(tokens, inside.pos, first, more);
    lemma_literal_starts(items[0]);
    lemma_reads_first(tokens, inside, first);
    lemma_read_literal(tokens, inside, items[0]);
    let mid = at(inside.pos + first.len(), inside.depth);
    lemma_reads_first(tokens, mid, more);
    lemma_read_more_literals(tokens, mid, items, 1, seq![items[0]]);
    assert(seq![items[0]] + items.skip(1) =~= items);
}

/// The tokens of a range parse to it.
#[verifier::rlimit(60)]
pub proof fn lemma_read_whole_range(
    tokens: Seq<(SpecToken, nat, nat)>,
    inside: ParseState,
    start: Option<SpecLiteral>,
    end: Option<SpecLiteral>,
    step: Option<SpecLiteral>,
)
    requires
        optional_literal_can_be_read(start),
        optional_literal_can_be_read(end),
        optional_literal_can_be_read(step),
        reads_at(
            tokens,
            inside.pos,
            (optional_literal_tokens(start) + seq![SpecToken::Colon]) + range_tail_tokens(end, step),
        ),
        inside.depth + optional_literal_depth(start) <= MAX_NESTING_LEVEL,
        inside.depth + optional_literal_depth(end) <= MAX_NESTING_LEVEL,
        inside.depth + optional_literal_depth(step) <= MAX_NESTING_LEVEL,
        ends_part(
            current_token(
                tokens,
                at(
                    inside.pos + optional_literal_tokens(start).len() + 1 + range_tail_tokens(
                        end,
                        step,
                    ).len(),
                    inside.depth,
                ),
            ),
        ),
    ensures
        spec_parse_index_body(tokens, inside) == read(
            SpecIndex::Range(start, end, step),
            inside.pos + optional_literal_tokens(start).len() + 1 + range_tail_tokens(
                end,
                step,
            ).len(),
            inside.depth,
        ),
{
    let colon = seq![SpecToken::Colon];
    let start_tokens = optional_literal_tokens(start);
    let tail = range_tail_tokens(end, step);
    lemma_reads_split(tokens, inside.pos, start_tokens + colon, tail);
    lemma_reads_split(tokens, inside.pos, start_tokens, colon);
    let mid = at(inside.pos + start_tokens.len(), inside.depth);
    lemma_reads_first(tokens, mid, colon);
    lemma_read_range(tokens, advance(tokens, mid), start, end, step);
    match start {
        Some(s) => {
            lemma_literal_starts(s);
            lemma_reads_first(tokens, inside, start_tokens);
            lemma_read_literal(tokens, inside, s);
        },
        None => {},
    }
}

/// The tokens of an index, behind which nothing follows that the parser
/// would take for more of it, parse to the index on the tree in front of it.
#[verifier::rlimit(60)]
pub proof fn lemma_read_index(
    tokens: Seq<(SpecToken, nat, nat)>,
    st: ParseState,
    node: SpecNode,
    index: SpecIndex,
)
    requires
        index_can_be_read(index),
        reads_at(tokens, st.pos, index_tokens(index)),
        st.depth + index_depth(index) <= MAX_NESTING_LEVEL,
        ends_part(current_token(tokens, at(st.pos + index_tokens(index).len(), st.depth))),
    ensures
        spec_parse_index(tokens, st, node) == read(
            SpecNode::IndexSelection(Box::new(node), index),
            st.pos + index_tokens(index).len(),
            st.depth,
        ),
{
    let expected = index_tokens(index);
    let colon = seq![SpecToken::Colon];
    let inside = at(st.pos + 1, st.depth + 1);
    let end = (st.pos + expected.len()) as nat;
    match index {
        SpecIndex::Single(l) => {
            lemma_reads_split(tokens, st.pos, colon, literal_tokens(l));
            lemma_reads_first(tokens, st, colon);
            lemma_read_single(tokens, inside, l);
        },
        SpecIndex::Multiple(items) => {
            let body = literal_tokens(items[0]) + more_literal_tokens(items, 1);
            assert(expected =~= colon + body);
            lemma_reads_split(tokens, st.pos, colon, body);
            lemma_reads_first(tokens, st, colon);
            lemma_read_multiple(tokens, inside, items);
        },
        SpecIndex::Range(start, end_part, step) => {
            let body = (optional_literal_tokens(start) + colon) + range_tail_tokens(
                end_part,
                step,
            );
            assert(expected =~= colon + body);
            lemma_reads_split(tokens, st.pos, colon, body);
            lemma_reads_first(tokens, st, colon);
            lemma_read_whole_range(tokens, inside, start, end_part, step);
        },
    }
    lemma_index_around(tokens, st, node, index, end);
}

/// What the parser makes of calls of functions where it stands on the name
/// of one, with its arguments behind it: it goes on with the call in hand.
pub proof fn lemma_function_step(
    tokens: Seq<(SpecToken, nat, nat)>,
    mid: ParseState,
    inner: SpecNode,
    function: SpecFunction,
    end: nat,
)
    requires
        current_token(tokens, mid) == Some(SpecToken::Function(function.name)),
        function.name.len() > 0,
        mid.depth < MAX_NESTING_LEVEL,
        mid.pos < end <= tokens.len(),
        spec_parse_literals(tokens, at(mid.pos + 1, mid.depth + 1), Seq::empty()) == read(
            function.arguments,
            end,
            mid.depth + 1,
        ),
    ensures
        spec_parse_function(tokens, mid, inner) == spec_parse_function(
            tokens,
            at(end, mid.depth),
            SpecNode::FunctionCall(Box::new(inner), function),
        ),
{
    assert(enter(tokens, advance(tokens, mid)).state == at(mid.pos + 1, mid.depth + 1));
    assert(function == (SpecFunction { name: function.name, arguments: function.arguments }));
}

/// What the parser makes of a text selector with the index behind it.
#[verifier::rlimit(60)]
pub proof fn lemma_text_and_index(
    tokens: Seq<(SpecToken, nat, nat)>,
    st: ParseState,
    text: SpecText,
    index: SpecIndex,
)
    requires
        index_can_be_read(index),
        reads_at(tokens, st.pos, text_tokens(text) + index_tokens(index)),
        st.depth + index_depth(index) <= MAX_NESTING_LEVEL,
        ends_part(
            current_token(
                tokens,
                at(st.pos + text_tokens(text).len() + index_tokens(index).len(), st.depth),
            ),
        ),
    ensures
        spec_parse_basic(tokens, st) == spec_parse_function(
            tokens,
            at(st.pos + text_tokens(text).len() + index_tokens(index).len(), st.depth),
            SpecNode::IndexSelection(
                Box::new(SpecNode::Selector(SpecSelector::Text(text))),
                index,
            ),
        ),
{
    lemma_reads_split(tokens, st.pos, text_tokens(text), index_tokens(index));
    lemma_read_text(tokens, st, text);
    let mid = at(st.pos + text_tokens(text).len(), st.depth);
    lemma_read_index(tokens, mid, SpecNode::Selector(SpecSelector::Text(text)), index);
    lemma_reads_first(tokens, mid, index_tokens(index));
}

/// What the parser makes of an element selector with the index behind it.
#[verifier::rlimit(60)]
pub proof fn lemma_element_and_index(
    tokens: Seq<(SpecToken, nat, nat)>,
    st: ParseState,
    element: SpecElement,
    index: SpecIndex,
)
    requires
        element_can_be_read(element),
        index_can_be_read(index),
        reads_at(tokens, st.pos, element_tokens(element) + index_tokens(index)),
        st.depth + index_depth(index) <= MAX_NESTING_LEVEL,
        ends_part(
            current_token(
                tokens,
                at(st.pos + element_tokens(element).len() + index_tokens(index).len(), st.depth),
            ),
        ),
    ensures
        spec_parse_basic(tokens, st) == read(
            SpecNode::IndexSelection(
                Box::new(SpecNode::Selector(SpecSelector::Element(element))),
                index,
            ),
            st.pos + element_tokens(element).len() + index_tokens(index).len(),
            st.depth,
        ),
{
    lemma_reads_split(tokens, st.pos, element_tokens(element), index_tokens(index));
    let mid = at(st.pos + element_tokens(element).len(), st.depth);
    lemma_reads_first(tokens, mid, index_tokens(index));
    lemma_read_element(tokens, st, element);
    lemma_read_index(tokens, mid, SpecNode::Selector(SpecSelector::Element(element)), index);
}

/// What the parser makes of an element selector without an index.
pub proof fn lemma_element_alone(
    tokens: Seq<(SpecToken, nat, nat)>,
    st: ParseState,
    element: SpecElement,
)
    requires
        element_can_be_read(element),
        reads_at(tokens, st.pos, element_tokens(element)),
        ends_part(current_token(tokens, at(st.pos + element_tokens(element).len(), st.depth))),
    ensures
        spec_parse_basic(tokens, st) == read(
            SpecNode::Selector(SpecSelector::Element(element)),
            st.pos + element_tokens(element).len(),
            st.depth,
        ),
{
    lemma_read_element(tokens, st, element);
}

/// What the parser makes of a text selector without an index.
pub proof fn lemma_text_alone(tokens: Seq<(SpecToken, nat, nat)>, st: ParseState, text: SpecText)
    requires
        reads_at(tokens, st.pos, text_tokens(text)),
        ends_part(current_token(tokens, at(st.pos + text_tokens(text).len(), st.depth))),
    ensures
        spec_parse_basic(tokens, st) == spec_parse_function(
            tokens,
            at(st.pos + text_tokens(text).len(), st.depth),
            SpecNode::Selector(SpecSelector::Text(text)),
        ),
{
    lemma_read_text(tokens, st, text);
}

/// The tokens of a text selector with its index and its calls, behind which
/// nothing follows that the parser would take for more of the last of them,
/// are read up to their end, where the parser stands with the tree in hand
/// and looks for more calls.
#[verifier::rlimit(60)]
pub proof fn lemma_read_text_chain(tokens: Seq<(SpecToken, nat, nat)>, st: ParseState, node: SpecNode)
    requires
        is_text_chain(node),
        can_be_read(node),
        reads_at(tokens, st.pos, basic_tokens(node)),
        st.depth + basic_depth(node) <= MAX_NESTING_LEVEL,
        ends_part(current_token(tokens, at(st.pos + basic_tokens(node).len(), st.depth))),
    ensures
        spec_parse_basic(tokens, st) == spec_parse_function(
            tokens,
            at(st.pos + basic_tokens(node).len(), st.depth),
            node,
        ),
        basic_tokens(node).len() > 0,
    decreases node,
{
    match node {
        SpecNode::Selector(SpecSelector::Text(t)) => {
            lemma_text_alone(tokens, st, t);
        },
        SpecNode::IndexSelection(inner, index) => {
            match *inner {
                SpecNode::Selector(SpecSelector::Text(t)) => {
                    assert(basic_tokens(*inner) == text_tokens(t));
                    assert(basic_depth(*inner) == 0);
                    lemma_text_and_index(tokens, st, t, index);
                },
                _ => {},
            }
        },
        SpecNode::FunctionCall(inner, function) => {
            let before = basic_tokens(*inner);
            let call = function_tokens(function);
            let name = seq![SpecToken::Function(function.name)];
            let arguments = more_literal_tokens(function.arguments, 0);
            lemma_reads_split(tokens, st.pos, before, call);
            let mid = at(st.pos + before.len(), st.depth);
            lemma_reads_first(tokens, mid, call);
            lemma_read_text_chain(tokens, st, *inner);
            lemma_reads_split(tokens, mid.pos, name, arguments);
            let inside = at(mid.pos + 1, st.depth + 1);
            lemma_read_more_literals(tokens, inside, function.arguments, 0, Seq::empty());
            assert(Seq::<SpecLiteral>::empty() + function.arguments.skip(0)
                =~= function.arguments);
            lemma_function_step(
                tokens,
                mid,
                *inner,
                function,
                (mid.pos + 1 + arguments.len()) as nat,
            );
        },
        _ => {},
    }
}

/// What the parser makes of a set expression whose left side it has read,
/// where an operator and the tokens of a right side follow: it goes on with
/// the set operation of the two in hand.
pub proof fn lemma_set_step(
    tokens: Seq<(SpecToken, nat, nat)>,
    mid: ParseState,
    operator: SetOperator,
    left: SpecNode,
    right: SpecNode,
    end: nat,
)
    requires
        current_token(tokens, mid) == Some(operator_token(operator)),
        mid.depth < MAX_NESTING_LEVEL,
        mid.pos < end <= tokens.len(),
        spec_parse_pipeline(tokens, at(mid.pos + 1, mid.depth + 1)) == read(
            right,
            end,
            mid.depth + 1,
        ),
    ensures
        spec_parse_set_rest(tokens, mid, left) == spec_parse_set_rest(
            tokens,
            at(end, mid.depth),
            SpecNode::SetOperation(operator, Box::new(left), Box::new(right)),
        ),
{
    assert(set_operator_of(current_token(tokens, mid)) == Some(operator));
    assert(enter(tokens, advance(tokens, mid)).state == at(mid.pos + 1, mid.depth + 1));
}

/// What the parser makes of a pipeline whose left side it has read, where
/// `>` and the tokens of a right side follow: it goes on with the pipeline
/// of the two in hand.
pub proof fn lemma_pipeline_step(
    tokens: Seq<(SpecToken, nat, nat)>,
    mid: ParseState,
    left: SpecNode,
    right: SpecNode,
    end: nat,
)
    requires
        current_token(tokens, mid) == Some(SpecToken::Pipeline),
        mid.depth < MAX_NESTING_LEVEL,
        mid.pos < end <= tokens.len(),
        spec_parse_basic(tokens, at(mid.pos + 1, mid.depth + 1)) == read(
            right,
            end,
            mid.depth + 1,
        ),
    ensures
        spec_parse_pipeline_rest(tokens, mid, left) == spec_parse_pipeline_rest(
            tokens,
            at(end, mid.depth),
            SpecNode::Pipeline(Box::new(left), Box::new(right)),
        ),
{
    assert(enter(tokens, advance(tokens, mid)).state == at(mid.pos + 1, mid.depth + 1));
}

/// What the parser makes of a set expression in parentheses.
pub proof fn lemma_parentheses(
    tokens: Seq<(SpecToken, nat, nat)>,
    st: ParseState,
    node: SpecNode,
    last: nat,
)
    requires
        current_token(tokens, st) == Some(SpecToken::LeftParen),
        st.depth < MAX_NESTING_LEVEL,
        st.pos < last < tokens.len(),
        spec_parse_set(tokens, at(st.pos + 1, st.depth + 1)) == read(node, last, st.depth + 1),
        tokens[last as int].0 == SpecToken::RightParen,
    ensures
        spec_parse_basic(tokens, st) == read(node, last + 1, st.depth),
{
    assert(enter(tokens, advance(tokens, st)).state == at(st.pos + 1, st.depth + 1));
    assert(current_token(tokens, at(last, st.depth + 1)) == Some(SpecToken::RightParen));
}

/// What reads as an opening parenthesis, a left side, one token, a right
/// side and a closing parenthesis reads as each of them in its place.
pub proof fn lemma_reads_in_parentheses(
    tokens: Seq<(SpecToken, nat, nat)>,
    pos: nat,
    l: Seq<SpecToken>,
    sign: SpecToken,
    r: Seq<SpecToken>,
)
    requires
        reads_at(
            tokens,
            pos,
            (((seq![SpecToken::LeftParen] + l) + seq![sign]) + r) + seq![SpecToken::RightParen],
        ),
    ensures
        pos + 1 + l.len() + 1 + r.len() < tokens.len(),
        tokens[pos as int].0 == SpecToken::LeftParen,
        reads_at(tokens, pos + 1, l),
        tokens[pos + 1 + l.len() as int].0 == sign,
        reads_at(tokens, pos + 1 + l.len() + 1, r),
        tokens[pos + 1 + l.len() + 1 + r.len() as int].0 == SpecToken::RightParen,
{
    let open = seq![SpecToken::LeftParen];
    let close = seq![SpecToken::RightParen];
    let mid = seq![sign];
    lemma_reads_split(tokens, pos, ((open + l) + mid) + r, close);
    lemma_reads_split(tokens, pos, (open + l) + mid, r);
    lemma_reads_split(tokens, pos, open + l, mid);
    lemma_reads_split(tokens, pos, open, l);
    assert(open[0] == tokens[pos + 0int].0);
    assert(mid[0] == tokens[(pos + 1 + l.len()) as nat + 0int].0);
    assert(close[0] == tokens[(pos + 1 + l.len() + 1 + r.len()) as nat + 0int].0);
}

/// The tokens of a pipeline in parentheses parse to the pipeline.
#[verifier::rlimit(50)]
pub proof fn lemma_read_pipeline_in_parentheses(
    tokens: Seq<(SpecToken, nat, nat)>,
    st: ParseState,
    node: SpecNode,
)
    requires
        node is Pipeline,
        can_be_read(node),
        reads_at(tokens, st.pos, basic_tokens(node)),
        st.depth + basic_depth(node) <= MAX_NESTING_LEVEL,
    ensures
        spec_parse_basic(tokens, st) == read(node, st.pos + basic_tokens(node).len(), st.depth),
    decreases node, 0nat,
{
    match node {
        SpecNode::Pipeline(left, right) => {
            let l = pipeline_tokens(*left);
            let r = basic_tokens(*right);
            lemma_reads_in_parentheses(tokens, st.pos, l, SpecToken::Pipeline, r);
            let inside = at(st.pos + 1, st.depth + 1);
            let mid = at(st.pos + 1 + l.len(), st.depth + 1);
            let last = (st.pos + 1 + l.len() + 1 + r.len()) as nat;
            assert(spec_parse_pipeline(tokens, inside) == spec_parse_pipeline_rest(
                tokens,
                mid,
                *left,
            )) by {
                lemma_read_pipeline_chain(tokens, inside, *left);
            }
            assert(spec_parse_basic(tokens, at(mid.pos + 1, st.depth + 2)) == read(
                *right,
                last,
                st.depth + 2,
            )) by {
                lemma_read_basic(tokens, at(mid.pos + 1, st.depth + 2), *right);
            }
            assert(spec_parse_pipeline_rest(tokens, mid, *left) == spec_parse_pipeline_rest(
                tokens,
                at(last, st.depth + 1),
                node,
            )) by {
                lemma_pipeline_step(tokens, mid, *left, *right, last);
            }
            assert(spec_parse_pipeline_rest(tokens, at(last, st.depth + 1), node) == read(
                node,
                last,
                st.depth + 1,
            ));
            assert(spec_parse_set_rest(tokens, at(last, st.depth + 1), node) == read(
                node,
                last,
                st.depth + 1,
            ));
            assert(spec_parse_set(tokens, inside) == read(node, last, st.depth + 1));
            lemma_parentheses(tokens, st, node, last);
        },
        _ => {},
    }
}

/// The tokens of a set operation in parentheses parse to the set operation.
#[verifier::rlimit(50)]
pub proof fn lemma_read_set_in_parentheses(
    tokens: Seq<(SpecToken, nat, nat)>,
    st: ParseState,
    node: SpecNode,
)
    requires
        node is SetOperation,
        can_be_read(node),
        reads_at(tokens, st.pos, basic_tokens(node)),
        st.depth + basic_depth(node) <= MAX_NESTING_LEVEL,
    ensures
        spec_parse_basic(tokens, st) == read(node, st.pos + basic_tokens(node).len(), st.depth),
    decreases node, 0nat,
{
    match node {
        SpecNode::SetOperation(operator, left, right) => {
            let l = set_tokens(*left);
            let r = pipeline_tokens(*right);
            lemma_reads_in_parentheses(tokens, st.pos, l, operator_token(operator), r);
            let inside = at(st.pos + 1, st.depth + 1);
            let mid = at(st.pos + 1 + l.len(), st.depth + 1);
            let last = (st.pos + 1 + l.len() + 1 + r.len()) as nat;
            assert(spec_parse_set(tokens, inside) == spec_parse_set_rest(tokens, mid, *left)) by {
                lemma_read_set_chain(tokens, inside, *left);
            }
            assert(spec_parse_pipeline(tokens, at(mid.pos + 1, st.depth + 2)) == read(
                *right,
                last,
                st.depth + 2,
            )) by {
                lemma_read_pipeline(tokens, at(mid.pos + 1, st.depth + 2), *right);
            }
            assert(spec_parse_set_rest(tokens, mid, *left) == spec_parse_set_rest(
                tokens,
                at(last, st.depth + 1),
                node,
            )) by {
                lemma_set_step(tokens, mid, operator, *left, *right, last);
            }
            assert(spec_parse_set_rest(tokens, at(last, st.depth + 1), node) == read(
                node,
                last,
                st.depth + 1,
            ));
            lemma_parentheses(tokens, st, node, last);
        },
        _ => {},
    }
}

/// The tokens of a text selector with its index and its calls, with what
/// ends an operand behind them, parse to the tree.
pub proof fn lemma_read_text_basic(tokens: Seq<(SpecToken, nat, nat)>, st: ParseState, node: SpecNode)
    requires
        is_text_chain(node),
        can_be_read(node),
        reads_at(tokens, st.pos, basic_tokens(node)),
        st.depth + basic_depth(node) <= MAX_NESTING_LEVEL,
        ends_operand(current_token(tokens, at(st.pos + basic_tokens(node).len(), st.depth))),
    ensures
        spec_parse_basic(tokens, st) == read(node, st.pos + basic_tokens(node).len(), st.depth),
        basic_tokens(node).len() > 0,
{
    lemma_read_text_chain(tokens, st, node);
}

/// The tokens of an element selector with its index, with what ends an
/// operand behind them, parse to the tree.
#[verifier::rlimit(60)]
pub proof fn lemma_read_element_basic(
    tokens: Seq<(SpecToken, nat, nat)>,
    st: ParseState,
    node: SpecNode,
)
    requires
        !is_text_chain(node),
        node is Selector || node is IndexSelection,
        can_be_read(node),
        reads_at(tokens, st.pos, basic_tokens(node)),
        st.depth + basic_depth(node) <= MAX_NESTING_LEVEL,
        ends_operand(current_token(tokens, at(st.pos + basic_tokens(node).len(), st.depth))),
    ensures
        spec_parse_basic(tokens, st) == read(node, st.pos + basic_tokens(node).len(), st.depth),
        basic_tokens(node).len() > 0,
{
    match node {
        SpecNode::Selector(SpecSelector::Element(e)) => {
            lemma_element_alone(tokens, st, e);
        },
        SpecNode::IndexSelection(inner, index) => {
            assert(can_be_read(*inner));
            match *inner {
                SpecNode::Selector(SpecSelector::Element(e)) => {
                    assert(basic_tokens(*inner) == element_tokens(e));
                    assert(basic_depth(*inner) == 0);
                    assert(element_can_be_read(e));
                    lemma_element_and_index(tokens, st, e, index);
                },
                _ => {},
            }
        },
        _ => {},
    }
}

/// The tokens of a tree, as an operand of a pipeline's right side and with
/// what ends an operand behind them, parse to the tree.
#[verifier::rlimit(60)]
pub proof fn lemma_read_basic(tokens: Seq<(SpecToken, nat, nat)>, st: ParseState, node: SpecNode)
    requires
        can_be_read(node),
        reads_at(tokens, st.pos, basic_tokens(node)),
        st.depth + basic_depth(node) <= MAX_NESTING_LEVEL,
        ends_operand(current_token(tokens, at(st.pos + basic_tokens(node).len(), st.depth))),
    ensures
        spec_parse_basic(tokens, st) == read(node, st.pos + basic_tokens(node).len(), st.depth),
        basic_tokens(node).len() > 0,
    decreases node, 1nat,
{
    if node is Pipeline {
        lemma_read_pipeline_in_parentheses(tokens, st, node);
    } else if node is SetOperation {
        lemma_read_set_in_parentheses(tokens, st, node);
    } else if is_text_chain(node) {
        lemma_read_text_basic(tokens, st, node);
    } else {
        lemma_read_element_basic(tokens, st, node);
    }
}

/// The tokens of a tree, as a pipeline and with what ends an operand behind
/// them, are read up to their end, where the parser stands with the tree in
/// hand and looks for more of the pipeline.
#[verifier::rlimit(60)]
pub proof fn lemma_read_pipeline_chain(
    tokens: Seq<(SpecToken, nat, nat)>,
    st: ParseState,
    node: SpecNode,
)
    requires
        can_be_read(node),
        reads_at(tokens, st.pos, pipeline_tokens(node)),
        st.depth + pipeline_depth(node) <= MAX_NESTING_LEVEL,
        ends_operand(current_token(tokens, at(st.pos + pipeline_tokens(node).len(), st.depth))),
    ensures
        spec_parse_pipeline(tokens, st) == spec_parse_pipeline_rest(
            tokens,
            at(st.pos + pipeline_tokens(node).len(), st.depth),
            node,
        ),
        pipeline_tokens(node).len() > 0,
    decreases node, 2nat,
{
    match node {
        SpecNode::Pipeline(left, right) => {
            let arrow = seq![SpecToken::Pipeline];
            let l = pipeline_tokens(*left);
            let r = basic_tokens(*right);
            lemma_reads_split(tokens, st.pos, l + arrow, r);
            lemma_reads_split(tokens, st.pos, l, arrow);
            let mid = at(st.pos + l.len(), st.depth);
            lemma_reads_first(tokens, mid, arrow);
            lemma_read_pipeline_chain(tokens, st, *left);
            lemma_read_basic(tokens, at(mid.pos + 1, st.depth + 1), *right);
            lemma_pipeline_step(tokens, mid, *left, *right, (mid.pos + 1 + r.len()) as nat);
        },
        _ => {
            lemma_read_basic(tokens, st, node);
        },
    }
}

/// The tokens of a tree, as a pipeline and with what ends a pipeline behind
/// them, parse to the tree.
pub proof fn lemma_read_pipeline(tokens: Seq<(SpecToken, nat, nat)>, st: ParseState, node: SpecNode)
    requires
        can_be_read(node),
        reads_at(tokens, st.pos, pipeline_tokens(node)),
        st.depth + pipeline_depth(node) <= MAX_NESTING_LEVEL,
        ends_pipeline(current_token(tokens, at(st.pos + pipeline_tokens(node).len(), st.depth))),
    ensures
        spec_parse_pipeline(tokens, st) == read(
            node,
            st.pos + pipeline_tokens(node).len(),
            st.depth,
        ),
        pipeline_tokens(node).len() > 0,
    decreases node, 3nat,
{
    lemma_read_pipeline_chain(tokens, st, node);
}

/// The tokens of a tree, with what ends a pipeline behind them, are read up
/// to their end, where the parser stands with the tree in hand and looks for
/// more of the set expression.
#[verifier::rlimit(60)]
pub proof fn lemma_read_set_chain(tokens: Seq<(SpecToken, nat, nat)>, st: ParseState, node: SpecNode)
    requires
        can_be_read(node),
        reads_at(tokens, st.pos, set_tokens(node)),
        st.depth + set_depth(node) <= MAX_NESTING_LEVEL,
        ends_pipeline(current_token(tokens, at(st.pos + set_tokens(node).len(), st.depth))),
    ensures
        spec_parse_set(tokens, st) == spec_parse_set_rest(
            tokens,
            at(st.pos + set_tokens(node).len(), st.depth),
            node,
        ),
        set_tokens(node).len() > 0,
    decreases node, 4nat,
{
    match node {
        SpecNode::SetOperation(operator, left, right) => {
            let sign = seq![operator_token(operator)];
            let l = set_tokens(*left);
            let r = pipeline_tokens(*right);
            lemma_reads_split(tokens, st.pos, l + sign, r);
            lemma_reads_split(tokens, st.pos, l, sign);
            let mid = at(st.pos + l.len(), st.depth);
            lemma_reads_first(tokens, mid, sign);
            lemma_read_set_chain(tokens, st, *left);
            lemma_read_pipeline(tokens, at(mid.pos + 1, st.depth + 1), *right);
            lemma_set_step(tokens, mid, operator, *left, *right, (mid.pos + 1 + r.len()) as nat);
        },
        _ => {
            lemma_read_pipeline(tokens, st, node);
        },
    }
}

/// The tokens of a tree, with what ends a set expression behind them, parse
/// to the tree.
pub proof fn lemma_read_set(tokens: Seq<(SpecToken, nat, nat)>, st: ParseState, node: SpecNode)
    requires
        can_be_read(node),
        reads_at(tokens, st.pos, set_tokens(node)),
        st.depth + set_depth(node) <= MAX_NESTING_LEVEL,
        ends_expression(current_token(tokens, at(st.pos + set_tokens(node).len(), st.depth))),
    ensures
        spec_parse_set(tokens, st) == read(node, st.pos + set_tokens(node).len(), st.depth),
{
    lemma_read_set_chain(tokens, st, node);
}

/// What the validator makes of a tree: the tree itself, or the error with
/// which the validator refuses it.
pub open spec fn validated(node: SpecNode) -> Result<SpecNode, SpecParseError> {
    match spec_validate(node, fresh_state()).result {
        Ok(_) => Ok(node),
        Err(e) => Err(e),
    }
}

/// The tokens of a tree, with the end of the input behind them and whatever
/// their places, parse to the tree where it passes the validator, and are
/// refused with the validator's error where it does not.
pub proof fn lemma_tokens_parse_back(node: SpecNode, tokens: Seq<(SpecToken, nat, nat)>)
    requires
        can_be_read(node),
        set_depth(node) <= MAX_NESTING_LEVEL,
        reads_at(tokens, 0, node_tokens(node) + seq![SpecToken::EOF]),
    ensures
        spec_parse_tokens(tokens) == validated(node),
{
    let start = at(0, 0);
    let end = at(node_tokens(node).len(), 0);
    lemma_reads_split(tokens, 0, node_tokens(node), seq![SpecToken::EOF]);
    lemma_reads_first(tokens, end, seq![SpecToken::EOF]);
    lemma_read_set(tokens, start, node);
    assert(spec_parse_expression(tokens, start).result == Ok::<SpecNode, SpecParseError>(node));
}

/// A selector text whose tokens are the tokens of a tree parses to the tree
/// where the tree passes the validator, and is refused with the validator's
/// error where it does not.
pub proof fn lemma_text_parses_back(node: SpecNode, input: Seq<char>)
    requires
        can_be_read(node),
        set_depth(node) <= MAX_NESTING_LEVEL,
        reads_at(
            spec_tokenize(input, start_cursor(input)),
            0,
            node_tokens(node) + seq![SpecToken::EOF],
        ),
    ensures
        spec_parse(input) == validated(node),
{
    lemma_tokens_parse_back(node, spec_tokenize(input, start_cursor(input)));
}

/// Parsing the tokens of the tree that parsing a token stream gave gives the
/// same tree again, whatever the places of the tokens.
pub proof fn lemma_round_trip(
    tokens: Seq<(SpecToken, nat, nat)>,
    again: Seq<(SpecToken, nat, nat)>,
)
    requires
        spec_parse_tokens(tokens) is Ok,
        reads_at(again, 0, node_tokens(spec_parse_tokens(tokens)->Ok_0) + seq![SpecToken::EOF]),
    ensures
        spec_parse_tokens(again) == spec_parse_tokens(tokens),
{
    lemma_parsed_tree(tokens);
    lemma_tokens_parse_back(spec_parse_tokens(tokens)->Ok_0, again);
}

/// A selector text whose tokens are the tokens of the tree that another
/// selector text parses to parses to the same tree.
pub proof fn lemma_round_trip_of_text(input: Seq<char>, written: Seq<char>)
    requires
        spec_parse(input) is Ok,
        reads_at(
            spec_tokenize(written, start_cursor(written)),
            0,
            node_tokens(spec_parse(input)->Ok_0) + seq![SpecToken::EOF],
        ),
    ensures
        spec_parse(written) == spec_parse(input),
{
    lemma_round_trip(
        spec_tokenize(input, start_cursor(input)),
        spec_tokenize(written, start_cursor(written)),
    );
}

} // verus!
