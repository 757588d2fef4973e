//! The grammar of the selector language, as functions from a token stream and
//! a place in it to what the parser makes of the tokens from there.
//!
//! From the loosest binding to the tightest: set expressions (`|`, `&`, `^`),
//! pipelines (`>`), basic selectors. An element selector may carry an index;
//! a text selector may carry an index and then calls of functions.

use vstd::prelude::*;
use crate::lexer::{SpecToken, token_text};
use crate::parser::ast::{
    SpecLiteral, SpecElement, SpecText, SpecSelector, SpecIndex, SpecFunction, SpecNode,
    SetOperator,
};
use crate::parser::error::{
    SpecParseError, unexpected_token_error, syntax_error, invalid_selector_value_error,
    nesting_too_deep_error,
};

verus! {

/// How deep expressions may nest.
pub const MAX_NESTING_LEVEL: usize = 100;

/// Where a parser stands: the index of the current token, and how deep it is
/// in nested constructs.
pub struct ParseState {
    pub pos: nat,
    pub depth: nat,
}

/// What parsing a construct gives: its value or an error, and where the
/// parser stands afterwards.
pub struct Parsed<T> {
    pub result: Result<T, SpecParseError>,
    pub state: ParseState,
}

/// The current token, if the parser has not passed the last one.
pub open spec fn current_token(tokens: Seq<(SpecToken, nat, nat)>, st: ParseState) -> Option<
    SpecToken,
> {
    if st.pos < tokens.len() {
        Some(tokens[st.pos as int].0)
    } else {
        None
    }
}

/// The state after taking the current token: past the last one there is nothing to take.
pub open spec fn advance(tokens: Seq<(SpecToken, nat, nat)>, st: ParseState) -> ParseState {
    if st.pos < tokens.len() {
        ParseState { pos: st.pos + 1, depth: st.depth }
    } else {
        st
    }
}

/// Line and column of the current token; past the last token, those of the
/// last token; line 1, column 0 where there is no token at all.
pub open spec fn position_of(tokens: Seq<(SpecToken, nat, nat)>, st: ParseState) -> (nat, nat) {
    if st.pos < tokens.len() {
        (tokens[st.pos as int].1, tokens[st.pos as int].2)
    } else if tokens.len() > 0 {
        (tokens.last().1, tokens.last().2)
    } else {
        (1, 0)
    }
}

/// The text of the current token; `EOF` past the last one.
pub open spec fn found_text(tokens: Seq<(SpecToken, nat, nat)>, st: ParseState) -> Seq<char> {
    if st.pos < tokens.len() {
        token_text(tokens[st.pos as int].0)
    } else {
        "EOF"@
    }
}

/// The error for finding the current token where `expected` should stand.
pub open spec fn unexpected(tokens: Seq<(SpecToken, nat, nat)>, st: ParseState, expected: Seq<char>)
    -> SpecParseError {
    unexpected_token_error(
        expected,
        found_text(tokens, st),
        position_of(tokens, st).0,
        position_of(tokens, st).1,
    )
}

/// Going one level deeper, which fails at the limit.
pub open spec fn enter(tokens: Seq<(SpecToken, nat, nat)>, st: ParseState) -> Parsed<()> {
    if st.depth >= MAX_NESTING_LEVEL {
        Parsed {
            result: Err(
                nesting_too_deep_error(
                    MAX_NESTING_LEVEL as nat,
                    position_of(tokens, st).0,
                    position_of(tokens, st).1,
                ),
            ),
            state: st,
        }
    } else {
        Parsed { result: Ok(()), state: ParseState { pos: st.pos, depth: st.depth + 1 } }
    }
}

/// Coming back up one level.
pub open spec fn leave(st: ParseState) -> ParseState {
    if st.depth > 0 {
        ParseState { pos: st.pos, depth: (st.depth - 1) as nat }
    } else {
        st
    }
}

/// The integer that a number token stands for: its value, wrapped to 64 bits.
pub open spec fn number_as_i64(n: usize) -> i64 {
    if n <= i64::MAX {
        n as i64
    } else {
        (n - 0x1_0000_0000_0000_0000) as i64
    }
}

/// The negative of `x`, where the least integer is its own negative.
pub open spec fn negated(x: i64) -> i64 {
    if x == i64::MIN {
        x
    } else {
        (-x) as i64
    }
}

/// The text of the negative of the float with text `s`: a leading minus sign is taken off or put on.
pub open spec fn negated_float_text(s: Seq<char>) -> Seq<char> {
    if s.len() > 0 && s[0] == '-' {
        s.drop_first()
    } else {
        seq!['-'] + s
    }
}

/// A literal: a string (quoted or not), a boolean, a number or a float, each
/// of the last two with a minus sign in front if one is wanted, or a list of
/// literals in square brackets.
pub open spec fn spec_parse_literal(tokens: Seq<(SpecToken, nat, nat)>, st: ParseState) -> Parsed<
    SpecLiteral,
>
    decreases tokens.len() - st.pos, 1nat,
{
    let next = advance(tokens, st);
    match current_token(tokens, st) {
        Some(SpecToken::Argument(v)) => Parsed { result: Ok(SpecLiteral::Str(v)), state: next },
        Some(SpecToken::QuotedArgument(v)) => Parsed {
            result: Ok(SpecLiteral::Str(v)),
            state: next,
        },
        Some(SpecToken::Bool(b)) => Parsed { result: Ok(SpecLiteral::Bool(b)), state: next },
        Some(SpecToken::Number(n)) => Parsed {
            result: Ok(SpecLiteral::Int(number_as_i64(n))),
            state: next,
        },
        Some(SpecToken::Float(s)) => Parsed { result: Ok(SpecLiteral::Float(s)), state: next },
        Some(SpecToken::Minus) => {
            match current_token(tokens, next) {
                Some(SpecToken::Number(n)) => Parsed {
                    result: Ok(SpecLiteral::Int(negated(number_as_i64(n)))),
                    state: advance(tokens, next),
                },
                Some(SpecToken::Float(s)) => Parsed {
                    result: Ok(SpecLiteral::Float(negated_float_text(s))),
                    state: advance(tokens, next),
                },
                _ => Parsed { result: Err(unexpected(tokens, next, "int or float"@)), state: next },
            }
        },
        Some(SpecToken::LeftBracket) => {
            let entered = enter(tokens, next);
            match entered.result {
                Err(e) => Parsed { result: Err(e), state: entered.state },
                Ok(_) => {
                    let first = spec_parse_literal(tokens, entered.state);
                    match first.result {
                        Err(e) => Parsed { result: Err(e), state: first.state },
                        Ok(item) => {
                            if st.pos < first.state.pos <= tokens.len() {
                                let rest = spec_parse_literals(tokens, first.state, seq![item]);
                                match rest.result {
                                    Err(e) => Parsed { result: Err(e), state: rest.state },
                                    Ok(items) => {
                                        if current_token(tokens, rest.state) == Some(
                                            SpecToken::RightBracket,
                                        ) {
                                            Parsed {
                                                result: Ok(SpecLiteral::List(items)),
                                                state: leave(advance(tokens, rest.state)),
                                            }
                                        } else {
                                            Parsed {
                                                result: Err(unexpected(tokens, rest.state, "]"@)),
                                                state: rest.state,
                                            }
                                        }
                                    },
                                }
                            } else {
                                Parsed { result: Ok(SpecLiteral::Nil), state: st }
                            }
                        },
                    }
                },
            }
        },
        _ => Parsed { result: Err(unexpected(tokens, st, "str, int, float, and bool"@)), state: st },
    }
}

/// The literals that follow, each after a comma, added to `items`.
pub open spec fn spec_parse_literals(
    tokens: Seq<(SpecToken, nat, nat)>,
    st: ParseState,
    items: Seq<SpecLiteral>,
) -> Parsed<Seq<SpecLiteral>>
    decreases tokens.len() - st.pos, 0nat,
{
    if current_token(tokens, st) == Some(SpecToken::Comma) {
        let item = spec_parse_literal(tokens, advance(tokens, st));
        match item.result {
            Err(e) => Parsed { result: Err(e), state: item.state },
            Ok(l) => {
                if st.pos < item.state.pos <= tokens.len() {
                    spec_parse_literals(tokens, item.state, items.push(l))
                } else {
                    Parsed { result: Ok(items), state: st }
                }
            },
        }
    } else {
        Parsed { result: Ok(items), state: st }
    }
}

/// The value of a selector: a regex marker, if any, then an argument, quoted or not.
pub open spec fn spec_parse_selector_value(tokens: Seq<(SpecToken, nat, nat)>, st: ParseState)
    -> Parsed<(bool, Seq<char>)> {
    let is_regex = current_token(tokens, st) == Some(SpecToken::Regex);
    let at = if is_regex {
        advance(tokens, st)
    } else {
        st
    };
    match current_token(tokens, at) {
        Some(SpecToken::Argument(v)) => Parsed {
            result: Ok((is_regex, v)),
            state: advance(tokens, at),
        },
        Some(SpecToken::QuotedArgument(v)) => Parsed {
            result: Ok((is_regex, v)),
            state: advance(tokens, at),
        },
        _ => Parsed { result: Err(unexpected(tokens, at, "selector argument"@)), state: at },
    }
}

/// The error for a selector value that is empty, at the current token.
pub open spec fn empty_value_error(
    tokens: Seq<(SpecToken, nat, nat)>,
    st: ParseState,
    what: Seq<char>,
) -> SpecParseError {
    invalid_selector_value_error(what, position_of(tokens, st).0, position_of(tokens, st).1)
}

/// A `class`, `id` or `tag` selector after its keyword: a value that is not empty.
pub open spec fn spec_parse_simple_selector(
    tokens: Seq<(SpecToken, nat, nat)>,
    st: ParseState,
    keyword: SpecToken,
) -> Parsed<SpecElement> {
    let value = spec_parse_selector_value(tokens, st);
    match value.result {
        Err(e) => Parsed { result: Err(e), state: value.state },
        Ok((is_regex, v)) => {
            if v.len() == 0 {
                Parsed {
                    result: Err(empty_value_error(tokens, value.state, "empty value"@)),
                    state: value.state,
                }
            } else {
                Parsed {
                    result: Ok(
                        if keyword == SpecToken::Class {
                            SpecElement::Class(v, is_regex)
                        } else if keyword == SpecToken::Id {
                            SpecElement::Id(v, is_regex)
                        } else {
                            SpecElement::Tag(v, is_regex)
                        },
                    ),
                    state: value.state,
                }
            }
        },
    }
}

/// An `attr` selector after its keyword: a name that is not empty, then a
/// value if one follows. The selector holds a regular expression where a
/// regex marker stands in front of the name or in front of the value. What
/// an attempt at a value has taken stays taken.
pub open spec fn spec_parse_attr_selector(tokens: Seq<(SpecToken, nat, nat)>, st: ParseState)
    -> Parsed<SpecElement> {
    let name = spec_parse_selector_value(tokens, st);
    match name.result {
        Err(e) => Parsed { result: Err(e), state: name.state },
        Ok((name_is_regex, n)) => {
            if n.len() == 0 {
                Parsed {
                    result: Err(empty_value_error(tokens, name.state, "empty attribute name"@)),
                    state: name.state,
                }
            } else {
                let value = spec_parse_selector_value(tokens, name.state);
                match value.result {
                    Ok((is_regex, v)) => Parsed {
                        result: Ok(SpecElement::Attr(n, Some(v), name_is_regex || is_regex)),
                        state: value.state,
                    },
                    Err(_) => Parsed {
                        result: Ok(SpecElement::Attr(n, None, name_is_regex)),
                        state: value.state,
                    },
                }
            }
        },
    }
}

/// An element selector: `class`, `id`, `tag` or `attr` with what follows it.
pub open spec fn spec_parse_element(tokens: Seq<(SpecToken, nat, nat)>, st: ParseState) -> Parsed<
    SpecSelector,
> {
    let after = advance(tokens, st);
    let element = match current_token(tokens, st) {
        Some(SpecToken::Class) => spec_parse_simple_selector(tokens, after, SpecToken::Class),
        Some(SpecToken::Id) => spec_parse_simple_selector(tokens, after, SpecToken::Id),
        Some(SpecToken::Tag) => spec_parse_simple_selector(tokens, after, SpecToken::Tag),
        Some(SpecToken::Attr) => spec_parse_attr_selector(tokens, after),
        _ => Parsed {
            result: Err(unexpected(tokens, st, "class, id, tag, or attr"@)),
            state: st,
        },
    };
    match element.result {
        Ok(e) => Parsed { result: Ok(SpecSelector::Element(e)), state: element.state },
        Err(e) => Parsed { result: Err(e), state: element.state },
    }
}

/// The name of an attribute after `#`: a regex marker, if any, then an argument.
pub open spec fn spec_parse_attr_value_selector(tokens: Seq<(SpecToken, nat, nat)>, st: ParseState)
    -> Parsed<SpecText> {
    let is_regex = current_token(tokens, st) == Some(SpecToken::Regex);
    let at = if is_regex {
        advance(tokens, st)
    } else {
        st
    };
    match current_token(tokens, at) {
        Some(SpecToken::Argument(v)) => Parsed {
            result: Ok(SpecText::AttrValue(v, is_regex)),
            state: advance(tokens, at),
        },
        Some(SpecToken::QuotedArgument(v)) => Parsed {
            result: Ok(SpecText::AttrValue(v, is_regex)),
            state: advance(tokens, at),
        },
        _ => Parsed { result: Err(unexpected(tokens, at, "attribute name"@)), state: at },
    }
}

/// A text selector: `text`, `href`, `src`, or `#` with the name of an attribute.
pub open spec fn spec_parse_text(tokens: Seq<(SpecToken, nat, nat)>, st: ParseState) -> Parsed<
    SpecSelector,
> {
    let after = advance(tokens, st);
    match current_token(tokens, st) {
        Some(SpecToken::Text) => Parsed {
            result: Ok(SpecSelector::Text(SpecText::Text)),
            state: after,
        },
        Some(SpecToken::Href) => Parsed {
            result: Ok(SpecSelector::Text(SpecText::Href)),
            state: after,
        },
        Some(SpecToken::Src) => Parsed {
            result: Ok(SpecSelector::Text(SpecText::Src)),
            state: after,
        },
        Some(SpecToken::Pound) => {
            let name = spec_parse_attr_value_selector(tokens, after);
            match name.result {
                Ok(t) => Parsed { result: Ok(SpecSelector::Text(t)), state: name.state },
                Err(e) => Parsed { result: Err(e), state: name.state },
            }
        },
        _ => Parsed { result: Err(unexpected(tokens, st, "text,href,src"@)), state: st },
    }
}

/// What a part of a range is: a literal, or nothing.
pub struct RangePart {
    pub value: Option<SpecLiteral>,
    pub failed: Option<SpecParseError>,
    pub state: ParseState,
}

/// The end of a range: a colon right away leaves it out, else a literal must stand here.
pub open spec fn spec_parse_range_end(tokens: Seq<(SpecToken, nat, nat)>, st: ParseState)
    -> RangePart {
    if current_token(tokens, st) == Some(SpecToken::Colon) {
        RangePart { value: None, failed: None, state: advance(tokens, st) }
    } else {
        let end = spec_parse_literal(tokens, st);
        match end.result {
            Ok(l) => RangePart { value: Some(l), failed: None, state: end.state },
            Err(e) => RangePart { value: None, failed: Some(e), state: end.state },
        }
    }
}

/// The step of a range: after a colon a literal must stand; without a colon a
/// literal may stand, and what an attempt at one has taken stays taken.
pub open spec fn spec_parse_range_step(tokens: Seq<(SpecToken, nat, nat)>, st: ParseState)
    -> RangePart {
    if current_token(tokens, st) == Some(SpecToken::Colon) {
        let step = spec_parse_literal(tokens, advance(tokens, st));
        match step.result {
            Ok(l) => RangePart { value: Some(l), failed: None, state: step.state },
            Err(e) => RangePart { value: None, failed: Some(e), state: step.state },
        }
    } else {
        let step = spec_parse_literal(tokens, st);
        match step.result {
            Ok(l) => RangePart { value: Some(l), failed: None, state: step.state },
            Err(_) => RangePart { value: None, failed: None, state: step.state },
        }
    }
}

/// A range after the colon that follows its start: the end, then the step.
pub open spec fn spec_parse_range(
    tokens: Seq<(SpecToken, nat, nat)>,
    st: ParseState,
    start: Option<SpecLiteral>,
) -> Parsed<SpecIndex> {
    let end = spec_parse_range_end(tokens, st);
    match end.failed {
        Some(e) => Parsed { result: Err(e), state: end.state },
        None => {
            let step = spec_parse_range_step(tokens, end.state);
            match step.failed {
                Some(e) => Parsed { result: Err(e), state: step.state },
                None => Parsed {
                    result: Ok(SpecIndex::Range(start, end.value, step.value)),
                    state: step.state,
                },
            }
        },
    }
}

/// What stands after the colon of an index: a range without start, or a
/// literal that is a single index, the first of several, or the start of a range.
pub open spec fn spec_parse_index_body(tokens: Seq<(SpecToken, nat, nat)>, st: ParseState)
    -> Parsed<SpecIndex> {
    if current_token(tokens, st) == Some(SpecToken::Colon) {
        spec_parse_range(tokens, advance(tokens, st), None)
    } else {
        let start = spec_parse_literal(tokens, st);
        match start.result {
            Err(e) => Parsed { result: Err(e), state: start.state },
            Ok(first) => {
                if current_token(tokens, start.state) == Some(SpecToken::Colon) {
                    spec_parse_range(tokens, advance(tokens, start.state), Some(first))
                } else if current_token(tokens, start.state) == Some(SpecToken::Comma) {
                    let rest = spec_parse_literals(tokens, start.state, seq![first]);
                    match rest.result {
                        Err(e) => Parsed { result: Err(e), state: rest.state },
                        Ok(items) => Parsed {
                            result: Ok(SpecIndex::Multiple(items)),
                            state: rest.state,
                        },
                    }
                } else {
                    Parsed { result: Ok(SpecIndex::Single(first)), state: start.state }
                }
            },
        }
    }
}

/// An index on `node`: a colon, one level down, the index itself, one level up.
pub open spec fn spec_parse_index_selector(
    tokens: Seq<(SpecToken, nat, nat)>,
    st: ParseState,
    node: SpecNode,
) -> Parsed<SpecNode> {
    if current_token(tokens, st) != Some(SpecToken::Colon) {
        Parsed { result: Err(unexpected(tokens, st, ":"@)), state: st }
    } else {
        let entered = enter(tokens, advance(tokens, st));
        match entered.result {
            Err(e) => Parsed { result: Err(e), state: entered.state },
            Ok(_) => {
                let body = spec_parse_index_body(tokens, entered.state);
                match body.result {
                    Err(e) => Parsed { result: Err(e), state: body.state },
                    Ok(index) => Parsed {
                        result: Ok(SpecNode::IndexSelection(Box::new(node), index)),
                        state: leave(body.state),
                    },
                }
            },
        }
    }
}

/// `node` with the index that follows it, if one does.
pub open spec fn spec_parse_index(
    tokens: Seq<(SpecToken, nat, nat)>,
    st: ParseState,
    node: SpecNode,
) -> Parsed<SpecNode> {
    if current_token(tokens, st) == Some(SpecToken::Colon) {
        spec_parse_index_selector(tokens, st, node)
    } else {
        Parsed { result: Ok(node), state: st }
    }
}

/// `node` with the calls of functions that follow it, the first innermost.
/// Each call is a name and then its arguments, each after a comma.
pub open spec fn spec_parse_function(
    tokens: Seq<(SpecToken, nat, nat)>,
    st: ParseState,
    node: SpecNode,
) -> Parsed<SpecNode>
    decreases tokens.len() - st.pos,
{
    match current_token(tokens, st) {
        Some(SpecToken::Function(name)) => {
            if name.len() == 0 {
                Parsed {
                    result: Err(
                        syntax_error(
                            "Function name cannot be empty."@,
                            position_of(tokens, st).0,
                            position_of(tokens, st).1,
                        ),
                    ),
                    state: st,
                }
            } else {
                let entered = enter(tokens, advance(tokens, st));
                match entered.result {
                    Err(e) => Parsed { result: Err(e), state: entered.state },
                    Ok(_) => {
                        let arguments = spec_parse_literals(tokens, entered.state, Seq::empty());
                        match arguments.result {
                            Err(e) => Parsed { result: Err(e), state: arguments.state },
                            Ok(items) => {
                                if st.pos < arguments.state.pos <= tokens.len() {
                                    spec_parse_function(
                                        tokens,
                                        leave(arguments.state),
                                        SpecNode::FunctionCall(
                                            Box::new(node),
                                            SpecFunction { name, arguments: items },
                                        ),
                                    )
                                } else {
                                    Parsed { result: Ok(node), state: st }
                                }
                            },
                        }
                    },
                }
            }
        },
        _ => Parsed { result: Ok(node), state: st },
    }
}

/// The operator of a set operation that a token stands for, if it stands for one.
pub open spec fn set_operator_of(token: Option<SpecToken>) -> Option<SetOperator> {
    match token {
        Some(SpecToken::Union) => Some(SetOperator::Union),
        Some(SpecToken::Intersection) => Some(SetOperator::Intersection),
        Some(SpecToken::Difference) => Some(SetOperator::Difference),
        _ => None,
    }
}

/// A set expression: pipelines joined by `|`, `&` and `^`, all of one
/// precedence, grouped from the left.
pub open spec fn spec_parse_set(tokens: Seq<(SpecToken, nat, nat)>, st: ParseState) -> Parsed<
    SpecNode,
>
    decreases tokens.len() - st.pos, 5nat,
{
    let left = spec_parse_pipeline(tokens, st);
    match left.result {
        Err(e) => Parsed { result: Err(e), state: left.state },
        Ok(node) => {
            if st.pos <= left.state.pos <= tokens.len() {
                spec_parse_set_rest(tokens, left.state, node)
            } else {
                Parsed { result: Ok(node), state: st }
            }
        },
    }
}

/// The rest of a set expression whose left side, `left`, has been read.
pub open spec fn spec_parse_set_rest(
    tokens: Seq<(SpecToken, nat, nat)>,
    st: ParseState,
    left: SpecNode,
) -> Parsed<SpecNode>
    decreases tokens.len() - st.pos, 0nat,
{
    match set_operator_of(current_token(tokens, st)) {
        None => Parsed { result: Ok(left), state: st },
        Some(operator) => {
            let entered = enter(tokens, advance(tokens, st));
            match entered.result {
                Err(e) => Parsed { result: Err(e), state: entered.state },
                Ok(_) => {
                    let right = spec_parse_pipeline(tokens, entered.state);
                    match right.result {
                        Err(e) => Parsed { result: Err(e), state: right.state },
                        Ok(node) => {
                            if st.pos < right.state.pos <= tokens.len() {
                                spec_parse_set_rest(
                                    tokens,
                                    leave(right.state),
                                    SpecNode::SetOperation(
                                        operator,
                                        Box::new(left),
                                        Box::new(node),
                                    ),
                                )
                            } else {
                                Parsed { result: Ok(left), state: st }
                            }
                        },
                    }
                },
            }
        },
    }
}

/// A pipeline: basic selectors joined by `>`, grouped from the left.
pub open spec fn spec_parse_pipeline(tokens: Seq<(SpecToken, nat, nat)>, st: ParseState) -> Parsed<
    SpecNode,
>
    decreases tokens.len() - st.pos, 4nat,
{
    let left = spec_parse_basic(tokens, st);
    match left.result {
        Err(e) => Parsed { result: Err(e), state: left.state },
        Ok(node) => {
            if st.pos <= left.state.pos <= tokens.len() {
                spec_parse_pipeline_rest(tokens, left.state, node)
            } else {
                Parsed { result: Ok(node), state: st }
            }
        },
    }
}

/// The rest of a pipeline whose left side, `left`, has been read.
pub open spec fn spec_parse_pipeline_rest(
    tokens: Seq<(SpecToken, nat, nat)>,
    st: ParseState,
    left: SpecNode,
) -> Parsed<SpecNode>
    decreases tokens.len() - st.pos, 0nat,
{
    if current_token(tokens, st) == Some(SpecToken::Pipeline) {
        let entered = enter(tokens, advance(tokens, st));
        match entered.result {
            Err(e) => Parsed { result: Err(e), state: entered.state },
            Ok(_) => {
                let right = spec_parse_basic(tokens, entered.state);
                match right.result {
                    Err(e) => Parsed { result: Err(e), state: right.state },
                    Ok(node) => {
                        if st.pos < right.state.pos <= tokens.len() {
                            spec_parse_pipeline_rest(
                                tokens,
                                leave(right.state),
                                SpecNode::Pipeline(Box::new(left), Box::new(node)),
                            )
                        } else {
                            Parsed { result: Ok(left), state: st }
                        }
                    },
                }
            },
        }
    } else {
        Parsed { result: Ok(left), state: st }
    }
}

/// Whether an element selector starts with `token`.
pub open spec fn starts_element(token: Option<SpecToken>) -> bool {
    token == Some(SpecToken::Class) || token == Some(SpecToken::Id) || token == Some(
        SpecToken::Tag,
    ) || token == Some(SpecToken::Attr)
}

/// Whether a text selector starts with `token`.
pub open spec fn starts_text(token: Option<SpecToken>) -> bool {
    token == Some(SpecToken::Text) || token == Some(SpecToken::Href) || token == Some(
        SpecToken::Src,
    ) || token == Some(SpecToken::Pound)
}

/// A basic selector: an element selector with its index, a text selector
/// with its index and its function calls, or a set expression in parentheses.
pub open spec fn spec_parse_basic(tokens: Seq<(SpecToken, nat, nat)>, st: ParseState) -> Parsed<
    SpecNode,
>
    decreases tokens.len() - st.pos, 3nat,
{
    if starts_element(current_token(tokens, st)) {
        let selector = spec_parse_element(tokens, st);
        match selector.result {
            Err(e) => Parsed { result: Err(e), state: selector.state },
            Ok(s) => spec_parse_index(tokens, selector.state, SpecNode::Selector(s)),
        }
    } else if starts_text(current_token(tokens, st)) {
        let selector = spec_parse_text(tokens, st);
        match selector.result {
            Err(e) => Parsed { result: Err(e), state: selector.state },
            Ok(s) => {
                let indexed = spec_parse_index(tokens, selector.state, SpecNode::Selector(s));
                match indexed.result {
                    Err(e) => Parsed { result: Err(e), state: indexed.state },
                    Ok(node) => spec_parse_function(tokens, indexed.state, node),
                }
            },
        }
    } else if current_token(tokens, st) == Some(SpecToken::LeftParen) {
        let entered = enter(tokens, advance(tokens, st));
        match entered.result {
            Err(e) => Parsed { result: Err(e), state: entered.state },
            Ok(_) => {
                let inner = spec_parse_set(tokens, entered.state);
                match inner.result {
                    Err(e) => Parsed { result: Err(e), state: inner.state },
                    Ok(node) => {
                        if current_token(tokens, inner.state) == Some(SpecToken::RightParen) {
                            Parsed {
                                result: Ok(node),
                                state: leave(advance(tokens, inner.state)),
                            }
                        } else {
                            Parsed {
                                result: Err(
                                    unexpected(tokens, inner.state, "right parenthesis ')'"@),
                                ),
                                state: inner.state,
                            }
                        }
                    },
                }
            },
        }
    } else {
        Parsed { result: Err(unexpected(tokens, st, "selector"@)), state: st }
    }
}

/// A whole expression: a set expression after which only the end-of-input
/// token may stand, which is taken.
pub open spec fn spec_parse_expression(tokens: Seq<(SpecToken, nat, nat)>, st: ParseState)
    -> Parsed<SpecNode> {
    let tree = spec_parse_set(tokens, st);
    match tree.result {
        Err(e) => tree,
        Ok(node) => {
            match current_token(tokens, tree.state) {
                None => tree,
                Some(SpecToken::EOF) => Parsed {
                    result: Ok(node),
                    state: advance(tokens, tree.state),
                },
                Some(_) => Parsed {
                    result: Err(unexpected(tokens, tree.state, "EOF"@)),
                    state: tree.state,
                },
            }
        },
    }
}

/// Where parsing is taken up again after an error: behind the next closing
/// parenthesis that closes nothing opened since, or at the next `>`, `|`,
/// `&` or `^` outside parentheses, or at the end of the input. `open` counts
/// the parentheses opened since.
pub open spec fn spec_recover(tokens: Seq<(SpecToken, nat, nat)>, st: ParseState, open: nat)
    -> ParseState
    decreases tokens.len() - st.pos,
{
    match current_token(tokens, st) {
        None => st,
        Some(SpecToken::LeftParen) => spec_recover(tokens, advance(tokens, st), open + 1),
        Some(SpecToken::RightParen) => {
            if open > 0 {
                spec_recover(tokens, advance(tokens, st), (open - 1) as nat)
            } else {
                advance(tokens, st)
            }
        },
        Some(SpecToken::EOF) => st,
        Some(token) => {
            if open == 0 && (token == SpecToken::Pipeline || set_operator_of(Some(token))
                is Some) {
                st
            } else {
                spec_recover(tokens, advance(tokens, st), open)
            }
        },
    }
}

} // verus!
