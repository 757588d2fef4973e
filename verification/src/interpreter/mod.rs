//! The interpreter: it runs a parsed selector against a document.

pub mod error;
pub mod result;
pub mod html;
pub mod tree;
pub mod element;
pub mod text;
pub mod index;
pub mod set;
pub mod function;
pub mod pipeline;

use vstd::prelude::*;
use crate::interpreter::element::{spec_apply_element, evaluate_element};
use crate::interpreter::error::{InterpreterError, InterpreterResult, SpecInterpreterError};
use crate::interpreter::function::{spec_apply_function, evaluate_function};
use crate::interpreter::html::{
    Document, SpecDomNode, handle_at, parse_html, parsed_html, spec_parse_html,
};
use crate::interpreter::index::{spec_apply_index, evaluate_index};
use crate::interpreter::pipeline::{texts_in_pipeline_error, evaluate_pipeline_right};
use crate::interpreter::result::{NodeHandle, SelectionResult, SpecResult};
use crate::interpreter::set::{spec_combine, combine};
use crate::interpreter::text::{spec_apply_text, evaluate_text};
use crate::parser::{parse, result_view, spec_parse};
use crate::parser::ast::{Node, SelectorNode, SetOperationNode, SetOperator, SpecNode, SpecSelector};
use crate::parser::error::{ParseErrorKind, parse_error_text};
use crate::parser::samples::lemma_text_then_href_is_refused;

verus! {

/// What running the tree `node` on the result `current` gives.
///
/// A selector is applied to the result. A pipeline runs its left side, and
/// its right side on what the left side selected: nothing selected ends the
/// pipeline there, and texts selected are an error. A set operation runs
/// both sides on the result it was given, and combines what they selected.
/// An index and a function are applied to what their inner tree selected.
pub open spec fn spec_eval(dom: Seq<SpecDomNode>, node: SpecNode, current: SpecResult) -> Result<
    SpecResult,
    SpecInterpreterError,
>
    decreases node,
{
    match node {
        SpecNode::Selector(SpecSelector::Element(e)) => spec_apply_element(dom, current, e),
        SpecNode::Selector(SpecSelector::Text(t)) => spec_apply_text(dom, current, t),
        SpecNode::Pipeline(left, right) => match spec_eval(dom, *left, current) {
            Err(e) => Err(e),
            Ok(selected) => {
                if selected.count() == 0 {
                    Ok(selected)
                } else if selected is Texts {
                    Err(texts_in_pipeline_error())
                } else {
                    spec_eval(dom, *right, selected)
                }
            },
        },
        SpecNode::SetOperation(operator, left, right) => match spec_eval(dom, *left, current) {
            Err(e) => Err(e),
            Ok(a) => match spec_eval(dom, *right, current) {
                Err(e) => Err(e),
                Ok(b) => spec_combine(operator, a, b),
            },
        },
        SpecNode::IndexSelection(inner, index) => match spec_eval(dom, *inner, current) {
            Err(e) => Err(e),
            Ok(selected) => spec_apply_index(selected, index),
        },
        SpecNode::FunctionCall(inner, function) => match spec_eval(dom, *inner, current) {
            Err(e) => Err(e),
            Ok(selected) => spec_apply_function(selected, function),
        },
    }
}

/// Runs the tree `node` on the result `current`.
pub fn evaluate(doc: &Document, current: &SelectionResult, node: &Node) -> (r: InterpreterResult<
    SelectionResult,
>)
    requires
        doc.wf(),
    ensures
        result_view(r) == spec_eval(doc@, node@, current@),
    decreases node, 0nat,
{
    match node {
        Node::Selector(selector) => match &**selector {
            SelectorNode::ElementSelector(elem) => evaluate_element(doc, current, elem),
            SelectorNode::TextSelector(text) => evaluate_text(doc, current, text),
        },
        Node::Pipeline(left, right) => {
            let selected = match evaluate(doc, current, left) {
                Ok(selected) => selected,
                Err(e) => {
                    return Err(e);
                },
            };
            evaluate_pipeline_right(doc, selected, right)
        },
        Node::SetOperation(op) => evaluate_set_operation(doc, current, op),
        Node::IndexSelection(inner, index) => {
            let selected = match evaluate(doc, current, inner) {
                Ok(selected) => selected,
                Err(e) => {
                    return Err(e);
                },
            };
            evaluate_index(&selected, index)
        },
        Node::FunctionCall(inner, func) => {
            let selected = match evaluate(doc, current, inner) {
                Ok(selected) => selected,
                Err(e) => {
                    return Err(e);
                },
            };
            evaluate_function(&selected, func)
        },
    }
}

/// Runs a set operation on the result `current`: both sides on that result,
/// neither seeing what the other selected, and then the operation on what
/// they selected.
pub fn evaluate_set_operation(doc: &Document, current: &SelectionResult, node: &SetOperationNode)
    -> (r: InterpreterResult<SelectionResult>)
    requires
        doc.wf(),
    ensures
        result_view(r) == spec_eval(doc@, node@, current@),
    decreases node, 1nat,
{
    let (operator, left, right) = match node {
        SetOperationNode::Union(left, right) => (SetOperator::Union, left, right),
        SetOperationNode::Intersection(left, right) => (SetOperator::Intersection, left, right),
        SetOperationNode::Difference(left, right) => (SetOperator::Difference, left, right),
    };
    let a = match evaluate(doc, current, left) {
        Ok(a) => a,
        Err(e) => {
            return Err(e);
        },
    };
    let b = match evaluate(doc, current, right) {
        Ok(b) => b,
        Err(e) => {
            return Err(e);
        },
    };
    combine(operator, &a, &b)
}

/// The interpreter: a document, and what has been selected in it.
pub struct Interpreter {
    /// The document.
    pub dom: Document,
    /// The handle of the document's root.
    pub document: NodeHandle,
    /// What has been selected so far.
    pub result: SelectionResult,
    /// Whether no selector has been run yet.
    pub is_first_interpret: bool,
}

/// The result that holds the root of the document and nothing else.
pub open spec fn root_result(dom: Seq<SpecDomNode>) -> SpecResult {
    SpecResult::Nodes(seq![handle_at(dom, 0)])
}

/// The error for a selector that does not parse.
pub open spec fn selector_error(selector: Seq<char>) -> SpecInterpreterError {
    SpecInterpreterError::ParserError(parse_error_text(spec_parse(selector)->Err_0))
}

/// What running the selector `selector` on the result `start` gives: the
/// selector must parse and pass the validator before the document is looked at.
pub open spec fn spec_select(dom: Seq<SpecDomNode>, start: SpecResult, selector: Seq<char>)
    -> Result<SpecResult, SpecInterpreterError> {
    match spec_parse(selector) {
        Err(e) => Err(selector_error(selector)),
        Ok(tree) => spec_eval(dom, tree, start),
    }
}

impl Clone for Interpreter {
    fn clone(&self) -> (r: Self)
        ensures
            r.dom@ == self.dom@,
            r.document == self.document,
            r.result@ == self.result@,
            r.is_first_interpret == self.is_first_interpret,
    {
        Interpreter {
            dom: self.dom.clone(),
            document: self.document,
            result: self.result.clone(),
            is_first_interpret: self.is_first_interpret,
        }
    }
}

impl Interpreter {
    /// The document is well formed, and `document` is the handle of its root.
    pub open spec fn wf(&self) -> bool {
        self.dom.wf() && self.document == handle_at(self.dom@, 0)
    }

    /// An interpreter for the document that `html` parses to, with the root selected.
    pub fn new(html: &str) -> (r: InterpreterResult<Interpreter>)
        ensures
            r matches Ok(it) ==> it.wf() && it.result@ == root_result(it.dom@)
                && it.is_first_interpret,
            match r {
                Ok(it) => spec_parse_html(parsed_html(html@)) == Ok::<
                    Seq<SpecDomNode>,
                    SpecInterpreterError,
                >(it.dom@),
                Err(e) => spec_parse_html(parsed_html(html@)) == Err::<
                    Seq<SpecDomNode>,
                    SpecInterpreterError,
                >(e@),
            },
    {
        match parse_html(html) {
            Ok(dom) => Ok(Interpreter::from_document(dom)),
            Err(e) => Err(e),
        }
    }

    /// An interpreter for `dom`, with the root selected.
    pub fn from_document(dom: Document) -> (it: Interpreter)
        requires
            dom.wf(),
        ensures
            it.wf(),
            it.dom == dom,
            it.result@ == root_result(dom@),
            it.is_first_interpret,
    {
        let document = dom.root();
        let mut nodes: Vec<NodeHandle> = Vec::new();
        nodes.push(document);
        Interpreter {
            dom,
            document,
            result: SelectionResult::with_nodes(nodes),
            is_first_interpret: true,
        }
    }

    /// Selects the root again.
    fn reset_selection(&mut self)
        requires
            old(self).wf(),
        ensures
            final(self).wf(),
            final(self).dom == old(self).dom,
            final(self).document == old(self).document,
            final(self).is_first_interpret == old(self).is_first_interpret,
            final(self).result@ == root_result(old(self).dom@),
    {
        let mut nodes: Vec<NodeHandle> = Vec::new();
        nodes.push(self.document);
        self.result = SelectionResult::with_nodes(nodes);
    }

    /// Runs the tree `node` on the current result, which becomes what the
    /// tree selects. On an error the interpreter stays as it was.
    pub fn visit_node(&mut self, node: &Node) -> (r: InterpreterResult<()>)
        requires
            old(self).wf(),
        ensures
            final(self).wf(),
            final(self).dom == old(self).dom,
            final(self).document == old(self).document,
            final(self).is_first_interpret == old(self).is_first_interpret,
            match r {
                Ok(_) => spec_eval(old(self).dom@, node@, old(self).result@) == Ok::<
                    SpecResult,
                    SpecInterpreterError,
                >(final(self).result@),
                Err(e) => spec_eval(old(self).dom@, node@, old(self).result@) == Err::<
                    SpecResult,
                    SpecInterpreterError,
                >(e@) && final(self).result == old(self).result,
            },
    {
        match evaluate(&self.dom, &self.result, node) {
            Ok(selected) => {
                self.result = selected;
                Ok(())
            },
            Err(e) => Err(e),
        }
    }

    /// Runs `selector` against the document. The first selector runs on the
    /// result that the interpreter holds; every later one starts from the
    /// root again. A selector that does not parse, or does not pass the
    /// validator, is an error, and leaves the interpreter as it was. A
    /// selector that fails when run leaves the result it started from.
    pub fn select(&mut self, selector: &str) -> (r: InterpreterResult<SelectionResult>)
        requires
            old(self).wf(),
            selector@.len() + 2 <= usize::MAX,
        ensures
            final(self).wf(),
            final(self).dom == old(self).dom,
            final(self).document == old(self).document,
            result_view(r) == spec_select(
                old(self).dom@,
                if old(self).is_first_interpret {
                    old(self).result@
                } else {
                    root_result(old(self).dom@)
                },
                selector@,
            ),
            spec_parse(selector@) is Err ==> final(self).result == old(self).result
                && final(self).is_first_interpret == old(self).is_first_interpret,
            spec_parse(selector@) is Ok ==> !final(self).is_first_interpret,
            r matches Ok(selected) ==> final(self).result@ == selected@,
            r is Err && spec_parse(selector@) is Ok ==> final(self).result@ == if old(
                self,
            ).is_first_interpret {
                old(self).result@
            } else {
                root_result(old(self).dom@)
            },
    {
        let ast = match parse(selector) {
            Ok(ast) => ast,
            Err(e) => {
                return Err(InterpreterError::ParserError(e.to_text()));
            },
        };
        if !self.is_first_interpret {
            self.reset_selection();
        } else {
            self.is_first_interpret = false;
        }
        match self.visit_node(&ast) {
            Ok(_) => Ok(self.result.clone()),
            Err(e) => Err(e),
        }
    }

    /// Runs `selector` on the result `context`, and leaves the interpreter
    /// as it was.
    pub fn select_from(&mut self, context: &SelectionResult, selector: &str) -> (r:
        InterpreterResult<SelectionResult>)
        requires
            old(self).wf(),
            selector@.len() + 2 <= usize::MAX,
        ensures
            *final(self) == *old(self),
            result_view(r) == spec_select(old(self).dom@, context@, selector@),
    {
        let ast = match parse(selector) {
            Ok(ast) => ast,
            Err(e) => {
                return Err(InterpreterError::ParserError(e.to_text()));
            },
        };
        evaluate(&self.dom, context, &ast)
    }
}

/// A selector that does not parse, or does not pass the validator, is
/// refused with the same error whatever the document and whatever is
/// selected in it.
pub proof fn lemma_refused_before_the_document(
    selector: Seq<char>,
    dom: Seq<SpecDomNode>,
    start: SpecResult,
    other_dom: Seq<SpecDomNode>,
    other_start: SpecResult,
)
    requires
        spec_parse(selector) is Err,
    ensures
        spec_select(dom, start, selector) == spec_select(other_dom, other_start, selector),
        spec_select(dom, start, selector) == Err::<SpecResult, SpecInterpreterError>(
            selector_error(selector),
        ),
{
}

/// The selector `tag p > text > href` is refused with the parser's error for
/// a second text selector, whatever the document and the result it is run on.
pub proof fn lemma_second_text_selector_refused(dom: Seq<SpecDomNode>, start: SpecResult)
    ensures
        spec_select(dom, start, "tag p > text > href"@) == Err::<SpecResult, SpecInterpreterError>(
            selector_error("tag p > text > href"@),
        ),
        spec_parse("tag p > text > href"@) matches Err(e) && e.kind
            == ParseErrorKind::MultipleTextSelectors,
{
    lemma_text_then_href_is_refused();
}

} // verus!
