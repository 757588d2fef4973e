//! Pipelines at work: the right side runs on what the left side selected.

use vstd::prelude::*;
use crate::interpreter::{Interpreter, spec_eval, evaluate};
use crate::interpreter::error::{InterpreterError, InterpreterResult, SpecInterpreterError};
use crate::interpreter::html::{Document, SpecDomNode};
use crate::interpreter::result::{SelectionResult, SpecResult};
use crate::parser::result_view;
use crate::parser::ast::{Node, SpecNode};

verus! {

/// The error for a left side that selected texts: texts are nothing to search in.
pub open spec fn texts_in_pipeline_error() -> SpecInterpreterError {
    SpecInterpreterError::ExecutionError(
        "The text results on the left side of the pipeline cannot be used as input for the operations on the right side."@,
    )
}

/// The right side of a pipeline run on what the left side selected. Where
/// the left side selected nothing, that is the result, and the right side
/// does not run. Where it selected texts, that is an error.
pub open spec fn spec_pipeline_right(dom: Seq<SpecDomNode>, left: SpecResult, right: SpecNode)
    -> Result<SpecResult, SpecInterpreterError> {
    if left.count() == 0 {
        Ok(left)
    } else if left is Texts {
        Err(texts_in_pipeline_error())
    } else {
        spec_eval(dom, right, left)
    }
}

/// A pipeline run on a result: the left side, then the right side on what it selected.
pub open spec fn spec_pipeline(
    dom: Seq<SpecDomNode>,
    current: SpecResult,
    left: SpecNode,
    right: SpecNode,
) -> Result<SpecResult, SpecInterpreterError> {
    match spec_eval(dom, left, current) {
        Err(e) => Err(e),
        Ok(selected) => spec_pipeline_right(dom, selected, right),
    }
}

/// Runs the right side of a pipeline on what the left side selected.
pub fn evaluate_pipeline_right(doc: &Document, left: SelectionResult, right: &Node) -> (r:
    InterpreterResult<SelectionResult>)
    requires
        doc.wf(),
    ensures
        result_view(r) == spec_pipeline_right(doc@, left@, right@),
    decreases right, 1nat,
{
    if left.is_empty() {
        return Ok(left);
    }
    if left.is_texts() {
        return Err(
            InterpreterError::execution_error(
                "The text results on the left side of the pipeline cannot be used as input for the operations on the right side.",
            ),
        );
    }
    evaluate(doc, &left, right)
}

/// Runs a pipeline on the interpreter's current result. On an error the
/// interpreter stays as it was.
pub fn apply_pipeline(it: &mut Interpreter, left: &Node, right: &Node) -> (r: InterpreterResult<
    (),
>)
    requires
        old(it).wf(),
    ensures
        final(it).wf(),
        final(it).dom == old(it).dom,
        final(it).document == old(it).document,
        final(it).is_first_interpret == old(it).is_first_interpret,
        match r {
            Ok(_) => spec_pipeline(old(it).dom@, old(it).result@, left@, right@) == Ok::<
                SpecResult,
                SpecInterpreterError,
            >(final(it).result@),
            Err(e) => spec_pipeline(old(it).dom@, old(it).result@, left@, right@) == Err::<
                SpecResult,
                SpecInterpreterError,
            >(e@) && final(it).result == old(it).result,
        },
{
    let selected = match evaluate(&it.dom, &it.result, left) {
        Ok(selected) => selected,
        Err(e) => {
            return Err(e);
        },
    };
    match evaluate_pipeline_right(&it.dom, selected, right) {
        Ok(found) => {
            it.result = found;
            Ok(())
        },
        Err(e) => Err(e),
    }
}

/// A pipeline whose left side selects texts, and at least one, is an error,
/// whatever its right side is.
pub proof fn lemma_texts_cannot_be_piped(
    dom: Seq<SpecDomNode>,
    current: SpecResult,
    left: SpecNode,
    right: SpecNode,
)
    requires
        spec_eval(dom, left, current) matches Ok(selected) && selected is Texts
            && selected.count() > 0,
    ensures
        spec_eval(dom, SpecNode::Pipeline(Box::new(left), Box::new(right)), current) == Err::<
            SpecResult,
            SpecInterpreterError,
        >(texts_in_pipeline_error()),
{
}

} // verus!
