//! Element selectors: `class`, `id`, `tag` and `attr`.

use vstd::prelude::*;
use crate::lexer::{Token, SpecToken};
use crate::parser::{Parser, result_view};
use crate::parser::ast::{ElementNode, SelectorNode};
use crate::parser::error::{ParseError, SpecParseError};
use crate::parser::grammar::{
    current_token, advance, spec_parse_selector_value, spec_parse_simple_selector,
    spec_parse_attr_selector, spec_parse_element,
};

verus! {

/// Reads an element selector: `class`, `id`, `tag` or `attr` with what follows it.
pub fn parse_element(it: &mut Parser) -> (r: Result<SelectorNode, ParseError>)
    requires
        old(it).wf(),
    ensures
        final(it).wf(),
        final(it).tokens() == old(it).tokens(),
        result_view(r) == spec_parse_element(old(it).tokens(), old(it).state()).result,
        final(it).state() == spec_parse_element(old(it).tokens(), old(it).state()).state,
        old(it).state().pos <= final(it).state().pos,
        r is Ok ==> old(it).state().pos < final(it).state().pos,
{
    proof {
        it.lemma_state_in_bounds();
    }
    if it.check_token(&Token::Class) {
        match parse_class_selector(it) {
            Ok(element) => Ok(SelectorNode::ElementSelector(element)),
            Err(e) => Err(e),
        }
    } else if it.check_token(&Token::Id) {
        match parse_id_selector(it) {
            Ok(element) => Ok(SelectorNode::ElementSelector(element)),
            Err(e) => Err(e),
        }
    } else if it.check_token(&Token::Tag) {
        match parse_tag_selector(it) {
            Ok(element) => Ok(SelectorNode::ElementSelector(element)),
            Err(e) => Err(e),
        }
    } else if it.check_token(&Token::Attr) {
        match parse_attr_selector(it) {
            Ok(element) => Ok(SelectorNode::ElementSelector(element)),
            Err(e) => Err(e),
        }
    } else {
        let (line, column) = it.get_current_position();
        let current = it.get_current_token_str();
        Err(
            ParseError::unexpected_token(
                "class, id, tag, or attr",
                current.as_str(),
                line,
                column,
            ),
        )
    }
}

/// Reads a `class` selector, with the parser on the keyword.
fn parse_class_selector(it: &mut Parser) -> (r: Result<ElementNode, ParseError>)
    requires
        old(it).wf(),
        current_token(old(it).tokens(), old(it).state()) == Some(SpecToken::Class),
    ensures
        final(it).wf(),
        final(it).tokens() == old(it).tokens(),
        result_view(r) == spec_parse_simple_selector(
            old(it).tokens(),
            advance(old(it).tokens(), old(it).state()),
            SpecToken::Class,
        ).result,
        final(it).state() == spec_parse_simple_selector(
            old(it).tokens(),
            advance(old(it).tokens(), old(it).state()),
            SpecToken::Class,
        ).state,
        old(it).state().pos <= final(it).state().pos,
        r is Ok ==> old(it).state().pos < final(it).state().pos,
{
    it.read_token();
    let (is_regex, value) = match parse_selector_value(it) {
        Ok(v) => v,
        Err(e) => {
            return Err(e);
        },
    };
    if value.as_str().is_empty() {
        let (line, column) = it.get_current_position();
        return Err(ParseError::invalid_selector_value("empty value", line, column));
    }
    Ok(ElementNode::Class(value, is_regex))
}

/// Reads an `id` selector, with the parser on the keyword.
fn parse_id_selector(it: &mut Parser) -> (r: Result<ElementNode, ParseError>)
    requires
        old(it).wf(),
        current_token(old(it).tokens(), old(it).state()) == Some(SpecToken::Id),
    ensures
        final(it).wf(),
        final(it).tokens() == old(it).tokens(),
        result_view(r) == spec_parse_simple_selector(
            old(it).tokens(),
            advance(old(it).tokens(), old(it).state()),
            SpecToken::Id,
        ).result,
        final(it).state() == spec_parse_simple_selector(
            old(it).tokens(),
            advance(old(it).tokens(), old(it).state()),
            SpecToken::Id,
        ).state,
        old(it).state().pos <= final(it).state().pos,
        r is Ok ==> old(it).state().pos < final(it).state().pos,
{
    it.read_token();
    let (is_regex, value) = match parse_selector_value(it) {
        Ok(v) => v,
        Err(e) => {
            return Err(e);
        },
    };
    if value.as_str().is_empty() {
        let (line, column) = it.get_current_position();
        return Err(ParseError::invalid_selector_value("empty value", line, column));
    }
    Ok(ElementNode::Id(value, is_regex))
}

/// Reads a `tag` selector, with the parser on the keyword.
fn parse_tag_selector(it: &mut Parser) -> (r: Result<ElementNode, ParseError>)
    requires
        old(it).wf(),
        current_token(old(it).tokens(), old(it).state()) == Some(SpecToken::Tag),
    ensures
        final(it).wf(),
        final(it).tokens() == old(it).tokens(),
        result_view(r) == spec_parse_simple_selector(
            old(it).tokens(),
            advance(old(it).tokens(), old(it).state()),
            SpecToken::Tag,
        ).result,
        final(it).state() == spec_parse_simple_selector(
            old(it).tokens(),
            advance(old(it).tokens(), old(it).state()),
            SpecToken::Tag,
        ).state,
        old(it).state().pos <= final(it).state().pos,
        r is Ok ==> old(it).state().pos < final(it).state().pos,
{
    it.read_token();
    let (is_regex, value) = match parse_selector_value(it) {
        Ok(v) => v,
        Err(e) => {
            return Err(e);
        },
    };
    if value.as_str().is_empty() {
        let (line, column) = it.get_current_position();
        return Err(ParseError::invalid_selector_value("empty value", line, column));
    }
    Ok(ElementNode::Tag(value, is_regex))
}

/// Reads an `attr` selector, with the parser on the keyword: a name, then a
/// value if one follows.
fn parse_attr_selector(it: &mut Parser) -> (r: Result<ElementNode, ParseError>)
    requires
        old(it).wf(),
        current_token(old(it).tokens(), old(it).state()) == Some(SpecToken::Attr),
    ensures
        final(it).wf(),
        final(it).tokens() == old(it).tokens(),
        result_view(r) == spec_parse_attr_selector(
            old(it).tokens(),
            advance(old(it).tokens(), old(it).state()),
        ).result,
        final(it).state() == spec_parse_attr_selector(
            old(it).tokens(),
            advance(old(it).tokens(), old(it).state()),
        ).state,
        old(it).state().pos <= final(it).state().pos,
        r is Ok ==> old(it).state().pos < final(it).state().pos,
{
    it.read_token();
    let (name_is_regex, attr_name) = match parse_selector_value(it) {
        Ok(v) => v,
        Err(e) => {
            return Err(e);
        },
    };
    if attr_name.as_str().is_empty() {
        let (line, column) = it.get_current_position();
        return Err(ParseError::invalid_selector_value("empty attribute name", line, column));
    }
    match parse_selector_value(it) {
        Ok((is_regex, attr_value)) => Ok(
            ElementNode::Attr(attr_name, Some(attr_value), name_is_regex || is_regex),
        ),
        Err(_) => Ok(ElementNode::Attr(attr_name, None, name_is_regex)),
    }
}

/// Reads the value of a selector: a regex marker, if any, then an argument, quoted or not.
fn parse_selector_value(it: &mut Parser) -> (r: Result<(bool, String), ParseError>)
    requires
        old(it).wf(),
    ensures
        final(it).wf(),
        final(it).tokens() == old(it).tokens(),
        match r {
            Ok(v) => spec_parse_selector_value(old(it).tokens(), old(it).state()).result == Ok::<
                (bool, Seq<char>),
                SpecParseError,
            >((v.0, v.1@)),
            Err(e) => spec_parse_selector_value(old(it).tokens(), old(it).state()).result == Err::<
                (bool, Seq<char>),
                SpecParseError,
            >(e@),
        },
        final(it).state() == spec_parse_selector_value(old(it).tokens(), old(it).state()).state,
        old(it).state().pos <= final(it).state().pos,
        r is Ok ==> old(it).state().pos < final(it).state().pos,
{
    proof {
        it.lemma_state_in_bounds();
    }
    let is_regex = if it.check_token(&Token::Regex) {
        it.read_token();
        true
    } else {
        false
    };
    proof {
        it.lemma_state_in_bounds();
    }
    let token = match it.peek() {
        Some(t) => t.clone(),
        None => Token::EOF,
    };
    match token {
        Token::Argument(value) => {
            it.read_token();
            Ok((is_regex, value))
        },
        Token::QuotedArgument(value) => {
            it.read_token();
            Ok((is_regex, value))
        },
        _ => {
            let (line, column) = it.get_current_position();
            let current = it.get_current_token_str();
            Err(ParseError::unexpected_token("selector argument", current.as_str(), line, column))
        },
    }
}

} // verus!
