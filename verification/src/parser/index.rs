//! The index that may follow a selector: one position, several, or a range.

use vstd::prelude::*;
use crate::lexer::Token;
use crate::parser::{Parser, result_view};
use crate::parser::ast::{IndexNode, Literal, Node, literals_view, optional_literal_view};
use crate::parser::error::ParseError;
use crate::parser::literal::{parse_literal, parse_literals};
use crate::parser::grammar::{
    spec_parse_range, spec_parse_index_body, spec_parse_index_selector, spec_parse_index,
};

verus! {

/// Reads the index that follows `node`, if one does.
pub fn parse_index(it: &mut Parser, node: Node) -> (r: Result<Node, ParseError>)
    requires
        old(it).wf(),
    ensures
        final(it).wf(),
        final(it).tokens() == old(it).tokens(),
        result_view(r) == spec_parse_index(old(it).tokens(), old(it).state(), node@).result,
        final(it).state() == spec_parse_index(old(it).tokens(), old(it).state(), node@).state,
        old(it).state().pos <= final(it).state().pos,
{
    if it.check_token(&Token::Colon) {
        parse_index_selector(it, node)
    } else {
        Ok(node)
    }
}

/// Reads a range after the colon that follows its start: the end, then the step.
#[verifier::rlimit(50)]
fn parse_range(it: &mut Parser, start: Option<Literal>) -> (r: Result<IndexNode, ParseError>)
    requires
        old(it).wf(),
    ensures
        final(it).wf(),
        final(it).tokens() == old(it).tokens(),
        result_view(r) == spec_parse_range(
            old(it).tokens(),
            old(it).state(),
            optional_literal_view(start),
        ).result,
        final(it).state() == spec_parse_range(
            old(it).tokens(),
            old(it).state(),
            optional_literal_view(start),
        ).state,
        old(it).state().pos <= final(it).state().pos,
{
    proof {
        it.lemma_state_in_bounds();
    }
    let end_index = if it.check_token(&Token::Colon) {
        it.read_token();
        None
    } else {
        match parse_literal(it) {
            Ok(l) => Some(l),
            Err(e) => {
                return Err(e);
            },
        }
    };
    proof {
        it.lemma_state_in_bounds();
    }
    let step_value = if it.check_token(&Token::Colon) {
        it.read_token();
        match parse_literal(it) {
            Ok(l) => Some(l),
            Err(e) => {
                return Err(e);
            },
        }
    } else {
        match parse_literal(it) {
            Ok(step) => Some(step),
            Err(_) => None,
        }
    };
    Ok(IndexNode::Range(start, end_index, step_value))
}

/// Reads what stands after the colon of an index.
fn parse_index_body(it: &mut Parser) -> (r: Result<IndexNode, ParseError>)
    requires
        old(it).wf(),
    ensures
        final(it).wf(),
        final(it).tokens() == old(it).tokens(),
        result_view(r) == spec_parse_index_body(old(it).tokens(), old(it).state()).result,
        final(it).state() == spec_parse_index_body(old(it).tokens(), old(it).state()).state,
        old(it).state().pos <= final(it).state().pos,
{
    proof {
        it.lemma_state_in_bounds();
    }
    if it.check_token(&Token::Colon) {
        it.read_token();
        return parse_range(it, None);
    }
    let start_index = match parse_literal(it) {
        Ok(l) => l,
        Err(e) => {
            return Err(e);
        },
    };
    proof {
        it.lemma_state_in_bounds();
    }
    if it.check_token(&Token::Colon) {
        it.read_token();
        parse_range(it, Some(start_index))
    } else if it.check_token(&Token::Comma) {
        let ghost shown = start_index@;
        let mut indexes: Vec<Literal> = Vec::new();
        indexes.push(start_index);
        proof {
            assert(literals_view(indexes@) =~= seq![shown]);
        }
        match parse_literals(it, indexes) {
            Ok(items) => Ok(IndexNode::Multiple(items)),
            Err(e) => Err(e),
        }
    } else {
        Ok(IndexNode::Single(start_index))
    }
}

/// Reads an index on `node`: a colon, then a single literal, several
/// literals with commas between them, or a range whose parts colons part.
pub fn parse_index_selector(it: &mut Parser, node: Node) -> (r: Result<Node, ParseError>)
    requires
        old(it).wf(),
    ensures
        final(it).wf(),
        final(it).tokens() == old(it).tokens(),
        result_view(r) == spec_parse_index_selector(
            old(it).tokens(),
            old(it).state(),
            node@,
        ).result,
        final(it).state() == spec_parse_index_selector(
            old(it).tokens(),
            old(it).state(),
            node@,
        ).state,
        old(it).state().pos <= final(it).state().pos,
{
    proof {
        it.lemma_state_in_bounds();
    }
    if !it.check_token(&Token::Colon) {
        let (line, column) = it.get_current_position();
        let current = it.get_current_token_str();
        return Err(ParseError::unexpected_token(":", current.as_str(), line, column));
    }
    it.read_token();
    match it.check_depth() {
        Err(e) => {
            return Err(e);
        },
        Ok(_) => {},
    }
    let index_node = match parse_index_body(it) {
        Ok(index) => index,
        Err(e) => {
            return Err(e);
        },
    };
    it.decrease_depth();
    Ok(Node::IndexSelection(Box::new(node), Box::new(index_node)))
}

} // verus!
