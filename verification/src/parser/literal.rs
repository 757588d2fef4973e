//! Literals: the arguments of functions and the parts of an index.

use vstd::prelude::*;
use crate::lexer::Token;
use crate::parser::{Parser, result_view};
use crate::parser::ast::{Literal, literals_view, lemma_literals_view_push};
use crate::parser::error::ParseError;
use crate::parser::grammar::{
    spec_parse_literal, spec_parse_literals, number_as_i64, negated, negated_float_text,
};
use crate::strings::{chars_of, string_of_range};

verus! {

/// The integer that a number token stands for: its value, wrapped to 64 bits.
pub fn wrap_number(n: usize) -> (r: i64)
    ensures
        r == number_as_i64(n),
{
    let wide: u64 = n as u64;
    if wide <= 0x7FFF_FFFF_FFFF_FFFF {
        wide as i64
    } else {
        ((wide - 0x8000_0000_0000_0000) as i64) + i64::MIN
    }
}

/// The negative of `x`, where the least integer is its own negative.
pub fn negate(x: i64) -> (r: i64)
    ensures
        r == negated(x),
{
    if x == i64::MIN {
        x
    } else {
        -x
    }
}

/// The text of the negative of the float with text `s`.
pub fn negate_float_text(s: &str) -> (r: String)
    ensures
        r@ == negated_float_text(s@),
{
    let chars = chars_of(s);
    if chars.len() > 0 && chars[0] == '-' {
        string_of_range(&chars, 1, chars.len())
    } else {
        let mut r = String::from_str("-");
        r.append(s);
        proof {
            reveal_strlit("-");
            assert("-"@ == seq!['-']);
        }
        r
    }
}

/// Reads a literal: a string, a boolean, a number or a float, each of the
/// last two with a minus sign in front if one is wanted, or a list of
/// literals in square brackets.
#[verifier::rlimit(50)]
pub fn parse_literal(it: &mut Parser) -> (r: Result<Literal, ParseError>)
    requires
        old(it).wf(),
    ensures
        final(it).wf(),
        final(it).tokens() == old(it).tokens(),
        result_view(r) == spec_parse_literal(old(it).tokens(), old(it).state()).result,
        final(it).state() == spec_parse_literal(old(it).tokens(), old(it).state()).state,
        old(it).state().pos <= final(it).state().pos,
        r is Ok ==> old(it).state().pos < final(it).state().pos,
    decreases old(it).tokens().len() - old(it).state().pos, 1nat,
{
    proof {
        it.lemma_state_in_bounds();
    }
    let token = match it.peek() {
        Some(t) => t.clone(),
        None => {
            let (line, column) = it.get_current_position();
            let current = it.get_current_token_str();
            return Err(
                ParseError::unexpected_token(
                    "str, int, float, and bool",
                    current.as_str(),
                    line,
                    column,
                ),
            );
        },
    };
    match token {
        Token::Argument(v) => {
            it.read_token();
            Ok(Literal::Str(v))
        },
        Token::QuotedArgument(v) => {
            it.read_token();
            Ok(Literal::Str(v))
        },
        Token::Bool(b) => {
            it.read_token();
            Ok(Literal::Bool(b))
        },
        Token::Number(n) => {
            it.read_token();
            Ok(Literal::Int(wrap_number(n)))
        },
        Token::Float(s) => {
            it.read_token();
            Ok(Literal::Float(s))
        },
        Token::Minus => {
            it.read_token();
            let signed = match it.peek() {
                Some(t) => t.clone(),
                None => {
                    let (line, column) = it.get_current_position();
                    let current = it.get_current_token_str();
                    return Err(
                        ParseError::unexpected_token(
                            "int or float",
                            current.as_str(),
                            line,
                            column,
                        ),
                    );
                },
            };
            match signed {
                Token::Number(n) => {
                    proof {
                        it.lemma_state_in_bounds();
                    }
                    it.read_token();
                    Ok(Literal::Int(negate(wrap_number(n))))
                },
                Token::Float(s) => {
                    proof {
                        it.lemma_state_in_bounds();
                    }
                    it.read_token();
                    Ok(Literal::Float(negate_float_text(s.as_str())))
                },
                _ => {
                    let (line, column) = it.get_current_position();
                    let current = it.get_current_token_str();
                    Err(
                        ParseError::unexpected_token(
                            "int or float",
                            current.as_str(),
                            line,
                            column,
                        ),
                    )
                },
            }
        },
        Token::LeftBracket => {
            it.read_token();
            match it.check_depth() {
                Err(e) => {
                    return Err(e);
                },
                Ok(_) => {},
            }
            let first = match parse_literal(it) {
                Ok(l) => l,
                Err(e) => {
                    return Err(e);
                },
            };
            proof {
                it.lemma_state_in_bounds();
            }
            let mut list: Vec<Literal> = Vec::new();
            let ghost shown = first@;
            list.push(first);
            proof {
                assert(literals_view(list@) =~= seq![shown]);
            }
            let list = match parse_literals(it, list) {
                Ok(items) => items,
                Err(e) => {
                    return Err(e);
                },
            };
            if it.check_token(&Token::RightBracket) {
                it.read_token();
                it.decrease_depth();
                Ok(Literal::List(list))
            } else {
                let (line, column) = it.get_current_position();
                let current = it.get_current_token_str();
                Err(ParseError::unexpected_token("]", current.as_str(), line, column))
            }
        },
        _ => {
            let (line, column) = it.get_current_position();
            let current = it.get_current_token_str();
            Err(
                ParseError::unexpected_token(
                    "str, int, float, and bool",
                    current.as_str(),
                    line,
                    column,
                ),
            )
        },
    }
}

/// Reads the literals that follow, each after a comma, and adds them to `items`.
pub fn parse_literals(it: &mut Parser, items: Vec<Literal>) -> (r: Result<Vec<Literal>, ParseError>)
    requires
        old(it).wf(),
    ensures
        final(it).wf(),
        final(it).tokens() == old(it).tokens(),
        match r {
            Ok(v) => spec_parse_literals(
                old(it).tokens(),
                old(it).state(),
                literals_view(items@),
            ).result == Ok::<Seq<crate::parser::ast::SpecLiteral>, crate::parser::error::SpecParseError>(
                literals_view(v@),
            ),
            Err(e) => spec_parse_literals(
                old(it).tokens(),
                old(it).state(),
                literals_view(items@),
            ).result == Err::<Seq<crate::parser::ast::SpecLiteral>, crate::parser::error::SpecParseError>(
                e@,
            ),
        },
        final(it).state() == spec_parse_literals(
            old(it).tokens(),
            old(it).state(),
            literals_view(items@),
        ).state,
        old(it).state().pos <= final(it).state().pos,
    decreases old(it).tokens().len() - old(it).state().pos, 0nat,
{
    let mut list = items;
    let ghost tokens = it.tokens();
    let ghost start = it.state();
    let ghost given = literals_view(items@);
    loop
        invariant
            it.wf(),
            it.tokens() == tokens,
            tokens == old(it).tokens(),
            start == old(it).state(),
            start.pos <= it.state().pos,
            given == literals_view(items@),
            spec_parse_literals(tokens, it.state(), literals_view(list@)) == spec_parse_literals(
                tokens,
                start,
                given,
            ),
        decreases tokens.len() - it.state().pos,
    {
        proof {
            it.lemma_state_in_bounds();
        }
        if !it.check_token(&Token::Comma) {
            return Ok(list);
        }
        let ghost before = it.state();
        let ghost had = list@;
        it.read_token();
        let item = match parse_literal(it) {
            Ok(l) => l,
            Err(e) => {
                return Err(e);
            },
        };
        proof {
            it.lemma_state_in_bounds();
            lemma_literals_view_push(had, item);
        }
        list.push(item);
    }
}

} // verus!
