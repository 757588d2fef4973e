//! Basic selectors: an element selector, a text selector, or a set expression in parentheses.

use vstd::prelude::*;
use crate::lexer::Token;
use crate::parser::{Parser, result_view};
use crate::parser::ast::Node;
use crate::parser::error::ParseError;
use crate::parser::element::parse_element;
use crate::parser::text::parse_text;
use crate::parser::index::parse_index;
use crate::parser::function::parse_function;
use crate::parser::set::parse_set;
use crate::parser::grammar::spec_parse_basic;

verus! {

/// Reads a basic selector: an element selector with its index, a text
/// selector with its index and its function calls, or a set expression in
/// parentheses.
pub fn parse_basic(it: &mut Parser) -> (r: Result<Node, ParseError>)
    requires
        old(it).wf(),
    ensures
        final(it).wf(),
        final(it).tokens() == old(it).tokens(),
        result_view(r) == spec_parse_basic(old(it).tokens(), old(it).state()).result,
        final(it).state() == spec_parse_basic(old(it).tokens(), old(it).state()).state,
        old(it).state().pos <= final(it).state().pos,
        r is Ok ==> old(it).state().pos < final(it).state().pos,
    decreases old(it).tokens().len() - old(it).state().pos, 3nat,
{
    proof {
        it.lemma_state_in_bounds();
    }
    if it.check_token(&Token::Class) || it.check_token(&Token::Id) || it.check_token(&Token::Tag)
        || it.check_token(&Token::Attr) {
        let selector = match parse_element(it) {
            Ok(s) => s,
            Err(e) => {
                return Err(e);
            },
        };
        let node = Node::Selector(Box::new(selector));
        parse_index(it, node)
    } else if it.check_token(&Token::Text) || it.check_token(&Token::Href) || it.check_token(
        &Token::Src,
    ) || it.check_token(&Token::Pound) {
        let selector = match parse_text(it) {
            Ok(s) => s,
            Err(e) => {
                return Err(e);
            },
        };
        let node = Node::Selector(Box::new(selector));
        let node = match parse_index(it, node) {
            Ok(n) => n,
            Err(e) => {
                return Err(e);
            },
        };
        parse_function(it, node)
    } else if it.check_token(&Token::LeftParen) {
        it.read_token();
        match it.check_depth() {
            Err(e) => {
                return Err(e);
            },
            Ok(_) => {},
        }
        let expr = match parse_set(it) {
            Ok(n) => n,
            Err(e) => {
                return Err(e);
            },
        };
        if it.check_token(&Token::RightParen) {
            it.read_token();
            it.decrease_depth();
            Ok(expr)
        } else {
            let (line, column) = it.get_current_position();
            let current = it.get_current_token_str();
            Err(
                ParseError::unexpected_token(
                    "right parenthesis ')'",
                    current.as_str(),
                    line,
                    column,
                ),
            )
        }
    } else {
        let (line, column) = it.get_current_position();
        let current = it.get_current_token_str();
        Err(ParseError::unexpected_token("selector", current.as_str(), line, column))
    }
}

} // verus!
