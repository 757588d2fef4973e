//! Pipelines: basic selectors joined by `>`.

use vstd::prelude::*;
use crate::lexer::Token;
use crate::parser::{Parser, result_view};
use crate::parser::ast::Node;
use crate::parser::error::ParseError;
use crate::parser::basic::parse_basic;
use crate::parser::grammar::{spec_parse_pipeline, spec_parse_pipeline_rest};

verus! {

/// Reads a pipeline: basic selectors joined by `>`, grouped from the left.
pub fn parse_pipeline(it: &mut Parser) -> (r: Result<Node, ParseError>)
    requires
        old(it).wf(),
    ensures
        final(it).wf(),
        final(it).tokens() == old(it).tokens(),
        result_view(r) == spec_parse_pipeline(old(it).tokens(), old(it).state()).result,
        final(it).state() == spec_parse_pipeline(old(it).tokens(), old(it).state()).state,
        old(it).state().pos <= final(it).state().pos,
        r is Ok ==> old(it).state().pos < final(it).state().pos,
    decreases old(it).tokens().len() - old(it).state().pos, 4nat,
{
    let ghost tokens = it.tokens();
    let ghost start = it.state();
    let mut left = match parse_basic(it) {
        Ok(node) => node,
        Err(e) => {
            return Err(e);
        },
    };
    let ghost first = left@;
    let ghost after = it.state();
    proof {
        it.lemma_state_in_bounds();
    }
    loop
        invariant
            it.wf(),
            it.tokens() == tokens,
            tokens == old(it).tokens(),
            start == old(it).state(),
            start.pos < after.pos <= it.state().pos,
            spec_parse_pipeline(tokens, start) == spec_parse_pipeline_rest(tokens, after, first),
            spec_parse_pipeline_rest(tokens, it.state(), left@) == spec_parse_pipeline_rest(
                tokens,
                after,
                first,
            ),
        decreases tokens.len() - it.state().pos,
    {
        proof {
            it.lemma_state_in_bounds();
        }
        if !it.check_token(&Token::Pipeline) {
            return Ok(left);
        }
        it.read_token();
        match it.check_depth() {
            Err(e) => {
                return Err(e);
            },
            Ok(_) => {},
        }
        let right = match parse_basic(it) {
            Ok(node) => node,
            Err(e) => {
                return Err(e);
            },
        };
        proof {
            it.lemma_state_in_bounds();
        }
        left = Node::Pipeline(Box::new(left), Box::new(right));
        it.decrease_depth();
    }
}

} // verus!
