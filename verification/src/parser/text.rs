//! Text selectors: `text`, `href`, `src`, and `#` with the name of an attribute.

use vstd::prelude::*;
use crate::lexer::{Token, SpecToken};
use crate::parser::{Parser, result_view};
use crate::parser::ast::{SelectorNode, TextNode};
use crate::parser::error::ParseError;
use crate::parser::grammar::{
    current_token, advance, spec_parse_attr_value_selector, spec_parse_text,
};

verus! {

/// Reads a text selector: `text`, `href`, `src`, or `#` with the name of an attribute.
pub fn parse_text(it: &mut Parser) -> (r: Result<SelectorNode, ParseError>)
    requires
        old(it).wf(),
    ensures
        final(it).wf(),
        final(it).tokens() == old(it).tokens(),
        result_view(r) == spec_parse_text(old(it).tokens(), old(it).state()).result,
        final(it).state() == spec_parse_text(old(it).tokens(), old(it).state()).state,
        old(it).state().pos <= final(it).state().pos,
        r is Ok ==> old(it).state().pos < final(it).state().pos,
{
    proof {
        it.lemma_state_in_bounds();
    }
    if it.check_token(&Token::Text) {
        match parse_plain_text_selector(it) {
            Ok(text) => Ok(SelectorNode::TextSelector(text)),
            Err(e) => Err(e),
        }
    } else if it.check_token(&Token::Href) {
        match parse_href_selector(it) {
            Ok(text) => Ok(SelectorNode::TextSelector(text)),
            Err(e) => Err(e),
        }
    } else if it.check_token(&Token::Src) {
        match parse_src_selector(it) {
            Ok(text) => Ok(SelectorNode::TextSelector(text)),
            Err(e) => Err(e),
        }
    } else if it.check_token(&Token::Pound) {
        match parse_attr_value_selector(it) {
            Ok(text) => Ok(SelectorNode::TextSelector(text)),
            Err(e) => Err(e),
        }
    } else {
        let (line, column) = it.get_current_position();
        let current = it.get_current_token_str();
        Err(ParseError::unexpected_token("text,href,src", current.as_str(), line, column))
    }
}

/// Reads `text`, with the parser on the keyword.
fn parse_plain_text_selector(it: &mut Parser) -> (r: Result<TextNode, ParseError>)
    requires
        old(it).wf(),
        current_token(old(it).tokens(), old(it).state()) == Some(SpecToken::Text),
    ensures
        final(it).wf(),
        final(it).tokens() == old(it).tokens(),
        r matches Ok(TextNode::Text),
        final(it).state() == advance(old(it).tokens(), old(it).state()),
{
    match it.consume_token(&Token::Text) {
        Ok(_) => Ok(TextNode::Text),
        Err(e) => Err(e),
    }
}

/// Reads `href`, with the parser on the keyword.
fn parse_href_selector(it: &mut Parser) -> (r: Result<TextNode, ParseError>)
    requires
        old(it).wf(),
        current_token(old(it).tokens(), old(it).state()) == Some(SpecToken::Href),
    ensures
        final(it).wf(),
        final(it).tokens() == old(it).tokens(),
        r matches Ok(TextNode::Href),
        final(it).state() == advance(old(it).tokens(), old(it).state()),
{
    match it.consume_token(&Token::Href) {
        Ok(_) => Ok(TextNode::Href),
        Err(e) => Err(e),
    }
}

/// Reads `src`, with the parser on the keyword.
fn parse_src_selector(it: &mut Parser) -> (r: Result<TextNode, ParseError>)
    requires
        old(it).wf(),
        current_token(old(it).tokens(), old(it).state()) == Some(SpecToken::Src),
    ensures
        final(it).wf(),
        final(it).tokens() == old(it).tokens(),
        r matches Ok(TextNode::Src),
        final(it).state() == advance(old(it).tokens(), old(it).state()),
{
    match it.consume_token(&Token::Src) {
        Ok(_) => Ok(TextNode::Src),
        Err(e) => Err(e),
    }
}

/// Reads `#` and the name of an attribute, with the parser on the `#`.
fn parse_attr_value_selector(it: &mut Parser) -> (r: Result<TextNode, ParseError>)
    requires
        old(it).wf(),
        current_token(old(it).tokens(), old(it).state()) == Some(SpecToken::Pound),
    ensures
        final(it).wf(),
        final(it).tokens() == old(it).tokens(),
        result_view(r) == spec_parse_attr_value_selector(
            old(it).tokens(),
            advance(old(it).tokens(), old(it).state()),
        ).result,
        final(it).state() == spec_parse_attr_value_selector(
            old(it).tokens(),
            advance(old(it).tokens(), old(it).state()),
        ).state,
        old(it).state().pos < final(it).state().pos,
{
    proof {
        it.lemma_state_in_bounds();
    }
    it.read_token();
    let is_regex = if it.check_token(&Token::Regex) {
        it.read_token();
        true
    } else {
        false
    };
    proof {
        it.lemma_state_in_bounds();
    }
    let token = match it.peek() {
        Some(t) => t.clone(),
        None => Token::EOF,
    };
    match token {
        Token::Argument(name) => {
            it.read_token();
            Ok(TextNode::AttrValue(name, is_regex))
        },
        Token::QuotedArgument(name) => {
            it.read_token();
            Ok(TextNode::AttrValue(name, is_regex))
        },
        _ => {
            let (line, column) = it.get_current_position();
            let current = it.get_current_token_str();
            Err(ParseError::unexpected_token("attribute name", current.as_str(), line, column))
        },
    }
}

} // verus!
