//! The calls of functions that may follow a text selector.

use vstd::prelude::*;
use crate::lexer::Token;
use crate::parser::{Parser, result_view};
use crate::parser::ast::{FunctionNode, Literal, Node, SpecLiteral, literals_view};
use crate::parser::error::{ParseError, SpecParseError};
use crate::parser::literal::parse_literals;
use crate::parser::grammar::{spec_parse_literals, spec_parse_function};

verus! {

/// Reads the calls of functions that follow `node`, the first innermost.
pub fn parse_function(it: &mut Parser, node: Node) -> (r: Result<Node, ParseError>)
    requires
        old(it).wf(),
    ensures
        final(it).wf(),
        final(it).tokens() == old(it).tokens(),
        result_view(r) == spec_parse_function(old(it).tokens(), old(it).state(), node@).result,
        final(it).state() == spec_parse_function(old(it).tokens(), old(it).state(), node@).state,
        old(it).state().pos <= final(it).state().pos,
{
    let ghost tokens = it.tokens();
    let ghost start = it.state();
    let ghost given = node@;
    let mut tree = node;
    loop
        invariant
            it.wf(),
            it.tokens() == tokens,
            tokens == old(it).tokens(),
            start == old(it).state(),
            given == node@,
            start.pos <= it.state().pos,
            spec_parse_function(tokens, it.state(), tree@) == spec_parse_function(
                tokens,
                start,
                given,
            ),
        decreases tokens.len() - it.state().pos,
    {
        proof {
            it.lemma_state_in_bounds();
        }
        let function_name = match it.peek() {
            Some(Token::Function(name)) => name.clone(),
            _ => {
                return Ok(tree);
            },
        };
        if function_name.as_str().is_empty() {
            let (line, column) = it.get_current_position();
            return Err(ParseError::syntax_error("Function name cannot be empty.", line, column));
        }
        it.read_token();
        match it.check_depth() {
            Err(e) => {
                return Err(e);
            },
            Ok(_) => {},
        }
        let arguments = match parse_function_arguments(it) {
            Ok(arguments) => arguments,
            Err(e) => {
                return Err(e);
            },
        };
        proof {
            it.lemma_state_in_bounds();
        }
        let function_node = FunctionNode { name: function_name, arguments };
        tree = Node::FunctionCall(Box::new(tree), function_node);
        it.decrease_depth();
    }
}

/// Reads the arguments of a call: literals, each after a comma.
fn parse_function_arguments(it: &mut Parser) -> (r: Result<Vec<Literal>, ParseError>)
    requires
        old(it).wf(),
    ensures
        final(it).wf(),
        final(it).tokens() == old(it).tokens(),
        match r {
            Ok(v) => spec_parse_literals(old(it).tokens(), old(it).state(), Seq::empty()).result
                == Ok::<Seq<SpecLiteral>, SpecParseError>(literals_view(v@)),
            Err(e) => spec_parse_literals(old(it).tokens(), old(it).state(), Seq::empty()).result
                == Err::<Seq<SpecLiteral>, SpecParseError>(e@),
        },
        final(it).state() == spec_parse_literals(
            old(it).tokens(),
            old(it).state(),
            Seq::empty(),
        ).state,
        old(it).state().pos <= final(it).state().pos,
{
    let arguments: Vec<Literal> = Vec::new();
    proof {
        assert(literals_view(arguments@) =~= Seq::empty());
    }
    parse_literals(it, arguments)
}

} // verus!
