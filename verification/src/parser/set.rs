//! Set expressions: pipelines joined by `|`, `&` and `^`.

use vstd::prelude::*;
use crate::lexer::Token;
use crate::parser::{Parser, result_view};
use crate::parser::ast::{
    Node, SetOperationNode, SetOperator, SpecNode, node_view, set_operation_view,
};
use crate::parser::error::ParseError;
use crate::parser::pipeline::parse_pipeline;
use crate::parser::grammar::{spec_parse_set, spec_parse_set_rest, set_operator_of, current_token};

verus! {

/// The operator that the current token stands for, if it stands for one.
fn peek_set_operator(it: &Parser) -> (r: Option<SetOperator>)
    requires
        it.wf(),
    ensures
        r == set_operator_of(current_token(it.tokens(), it.state())),
{
    match it.peek() {
        Some(Token::Union) => Some(SetOperator::Union),
        Some(Token::Intersection) => Some(SetOperator::Intersection),
        Some(Token::Difference) => Some(SetOperator::Difference),
        _ => None,
    }
}

/// The node for `operator` applied to `left` and `right`.
pub fn set_operation(operator: SetOperator, left: Node, right: Node) -> (r: Node)
    ensures
        r@ == SpecNode::SetOperation(operator, Box::new(left@), Box::new(right@)),
{
    let operation = match operator {
        SetOperator::Union => SetOperationNode::Union(Box::new(left), Box::new(right)),
        SetOperator::Intersection => SetOperationNode::Intersection(
            Box::new(left),
            Box::new(right),
        ),
        SetOperator::Difference => SetOperationNode::Difference(Box::new(left), Box::new(right)),
    };
    assert(set_operation_view(operation) == SpecNode::SetOperation(
        operator,
        Box::new(left@),
        Box::new(right@),
    ));
    let node = Node::SetOperation(Box::new(operation));
    assert(node_view(node) == set_operation_view(operation));
    node
}

/// Reads a set expression: pipelines joined by `|`, `&` and `^`, all of one
/// precedence, grouped from the left.
pub fn parse_set(it: &mut Parser) -> (r: Result<Node, ParseError>)
    requires
        old(it).wf(),
    ensures
        final(it).wf(),
        final(it).tokens() == old(it).tokens(),
        result_view(r) == spec_parse_set(old(it).tokens(), old(it).state()).result,
        final(it).state() == spec_parse_set(old(it).tokens(), old(it).state()).state,
        old(it).state().pos <= final(it).state().pos,
        r is Ok ==> old(it).state().pos < final(it).state().pos,
    decreases old(it).tokens().len() - old(it).state().pos, 5nat,
{
    let ghost tokens = it.tokens();
    let ghost start = it.state();
    let mut left = match parse_pipeline(it) {
        Ok(node) => node,
        Err(e) => {
            return Err(e);
        },
    };
    let ghost first = left@;
    let ghost after = it.state();
    proof {
        it.lemma_state_in_bounds();
    }
    loop
        invariant
            it.wf(),
            it.tokens() == tokens,
            tokens == old(it).tokens(),
            start == old(it).state(),
            start.pos < after.pos <= it.state().pos,
            spec_parse_set(tokens, start) == spec_parse_set_rest(tokens, after, first),
            spec_parse_set_rest(tokens, it.state(), left@) == spec_parse_set_rest(
                tokens,
                after,
                first,
            ),
        decreases tokens.len() - it.state().pos,
    {
        proof {
            it.lemma_state_in_bounds();
        }
        let operator = match peek_set_operator(it) {
            Some(operator) => operator,
            None => {
                return Ok(left);
            },
        };
        it.read_token();
        match it.check_depth() {
            Err(e) => {
                return Err(e);
            },
            Ok(_) => {},
        }
        let right = match parse_pipeline(it) {
            Ok(node) => node,
            Err(e) => {
                return Err(e);
            },
        };
        proof {
            it.lemma_state_in_bounds();
        }
        left = set_operation(operator, left, right);
        it.decrease_depth();
    }
}

} // verus!
