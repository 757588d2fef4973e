//! Text selectors at work: from nodes to texts.

use vstd::prelude::*;
use crate::interpreter::Interpreter;
use crate::interpreter::error::{
    InterpreterError, InterpreterResult, SpecInterpreterError, interpreter_error_text,
};
use crate::interpreter::html::{
    Document, SpecDomNode, spec_text_content, spec_get_attribute, extract_text, get_attribute,
    invalid_handle_error,
};
use crate::interpreter::result::{
    NodeHandle, SelectionResult, SpecResult, not_nodes_error, texts_view, lemma_texts_view_push,
};
use crate::parser::result_view;
use crate::parser::ast::{TextNode, SpecText};

verus! {

/// The view of a result that holds texts.
pub open spec fn texts_result(r: Result<Vec<String>, InterpreterError>) -> Result<
    Seq<Seq<char>>,
    SpecInterpreterError,
> {
    match r {
        Ok(v) => Ok(texts_view(v@)),
        Err(e) => Err(e@),
    }
}

/// The error for a node whose text cannot be had.
pub open spec fn text_extraction_failure(cause: SpecInterpreterError) -> SpecInterpreterError {
    SpecInterpreterError::TextExtractionError(
        "Unable to extract text content: "@ + interpreter_error_text(cause),
    )
}

/// The error for a node whose attribute cannot be had; `what` names the attribute.
pub open spec fn attribute_extraction_failure(what: Seq<char>, cause: SpecInterpreterError)
    -> SpecInterpreterError {
    SpecInterpreterError::AttributeExtractionError(
        "Unable to extract "@ + what + " attribute: "@ + interpreter_error_text(cause),
    )
}

/// The texts of `nodes[from..]`, one for each node.
pub open spec fn spec_text_contents(dom: Seq<SpecDomNode>, nodes: Seq<NodeHandle>, from: int)
    -> Result<Seq<Seq<char>>, SpecInterpreterError>
    decreases nodes.len() - from,
{
    if from < 0 || from >= nodes.len() {
        Ok(Seq::empty())
    } else if nodes[from].index >= dom.len() {
        Err(text_extraction_failure(invalid_handle_error()))
    } else {
        match spec_text_contents(dom, nodes, from + 1) {
            Err(e) => Err(e),
            Ok(rest) => Ok(seq![spec_text_content(dom, nodes[from].index as int)] + rest),
        }
    }
}

/// The values that `nodes[from..]` have for the attribute that `name` asks
/// for: one for each node that has it, none for a node without. `what` names
/// the attribute in an error.
pub open spec fn spec_attr_values(
    dom: Seq<SpecDomNode>,
    nodes: Seq<NodeHandle>,
    from: int,
    name: Seq<char>,
    is_regex: bool,
    what: Seq<char>,
) -> Result<Seq<Seq<char>>, SpecInterpreterError>
    decreases nodes.len() - from,
{
    if from < 0 || from >= nodes.len() {
        Ok(Seq::empty())
    } else {
        match spec_get_attribute(dom, nodes[from], name, is_regex) {
            Err(e) => Err(attribute_extraction_failure(what, e)),
            Ok(value) => match spec_attr_values(dom, nodes, from + 1, name, is_regex, what) {
                Err(e) => Err(e),
                Ok(rest) => Ok(
                    match value {
                        Some(v) => seq![v] + rest,
                        None => rest,
                    },
                ),
            },
        }
    }
}

/// A text selector applied to a result: the result must hold nodes, and the
/// new result holds texts. `text` gives one text for each node; `href`, `src`
/// and `#name` give the value of an attribute for each node that has it.
pub open spec fn spec_apply_text(dom: Seq<SpecDomNode>, current: SpecResult, selector: SpecText)
    -> Result<SpecResult, SpecInterpreterError> {
    match current {
        SpecResult::Texts(_) => Err(not_nodes_error()),
        SpecResult::Nodes(nodes) => {
            let texts = match selector {
                SpecText::Text => spec_text_contents(dom, nodes, 0),
                SpecText::Href => spec_attr_values(dom, nodes, 0, "href"@, false, "href"@),
                SpecText::Src => spec_attr_values(dom, nodes, 0, "src"@, false, "src"@),
                SpecText::AttrValue(name, is_regex) => spec_attr_values(
                    dom,
                    nodes,
                    0,
                    name,
                    is_regex,
                    name,
                ),
            };
            match texts {
                Err(e) => Err(e),
                Ok(texts) => Ok(SpecResult::Texts(texts)),
            }
        },
    }
}

/// The error for a node whose text cannot be had.
fn text_failure(cause: &InterpreterError) -> (e: InterpreterError)
    ensures
        e@ == text_extraction_failure(cause@),
{
    let mut message = String::from_str("Unable to extract text content: ");
    let cause_text = cause.to_text();
    message.append(cause_text.as_str());
    InterpreterError::TextExtractionError(message)
}

/// The error for a node whose attribute cannot be had.
fn attribute_failure(what: &str, cause: &InterpreterError) -> (e: InterpreterError)
    ensures
        e@ == attribute_extraction_failure(what@, cause@),
{
    let mut message = String::from_str("Unable to extract ");
    message.append(what);
    message.append(" attribute: ");
    let cause_text = cause.to_text();
    message.append(cause_text.as_str());
    InterpreterError::AttributeExtractionError(message)
}

/// The texts of `nodes`, one for each node.
fn extract_text_content(doc: &Document, nodes: &Vec<NodeHandle>) -> (r: InterpreterResult<
    Vec<String>,
>)
    requires
        doc.wf(),
    ensures
        texts_result(r) == spec_text_contents(doc@, nodes@, 0),
{
    let mut text_values: Vec<String> = Vec::new();
    let mut i: usize = 0;
    while i < nodes.len()
        invariant
            i <= nodes.len(),
            doc.wf(),
            match spec_text_contents(doc@, nodes@, i as int) {
                Ok(rest) => spec_text_contents(doc@, nodes@, 0) == Ok::<
                    Seq<Seq<char>>,
                    SpecInterpreterError,
                >(texts_view(text_values@) + rest),
                Err(e) => spec_text_contents(doc@, nodes@, 0) == Err::<
                    Seq<Seq<char>>,
                    SpecInterpreterError,
                >(e),
            },
        decreases nodes.len() - i,
    {
        let ghost before = text_values@;
        match extract_text(doc, &nodes[i]) {
            Ok(text) => {
                proof {
                    lemma_texts_view_push(before, text);
                    let rest = spec_text_contents(doc@, nodes@, i + 1);
                    if rest is Ok {
                        assert(texts_view(before) + (seq![text@] + rest->Ok_0) =~= texts_view(
                            before,
                        ).push(text@) + rest->Ok_0);
                    }
                }
                text_values.push(text);
            },
            Err(err) => {
                return Err(text_failure(&err));
            },
        }
        i += 1;
    }
    proof {
        assert(texts_view(text_values@) + Seq::<Seq<char>>::empty() =~= texts_view(text_values@));
    }
    Ok(text_values)
}

/// The values that `nodes` have for the attribute that `name` asks for.
fn extract_attr_values(
    doc: &Document,
    nodes: &Vec<NodeHandle>,
    name: &str,
    is_regex: bool,
    what: &str,
) -> (r: InterpreterResult<Vec<String>>)
    requires
        doc.wf(),
    ensures
        texts_result(r) == spec_attr_values(doc@, nodes@, 0, name@, is_regex, what@),
{
    let mut values: Vec<String> = Vec::new();
    let mut i: usize = 0;
    while i < nodes.len()
        invariant
            i <= nodes.len(),
            doc.wf(),
            match spec_attr_values(doc@, nodes@, i as int, name@, is_regex, what@) {
                Ok(rest) => spec_attr_values(doc@, nodes@, 0, name@, is_regex, what@) == Ok::<
                    Seq<Seq<char>>,
                    SpecInterpreterError,
                >(texts_view(values@) + rest),
                Err(e) => spec_attr_values(doc@, nodes@, 0, name@, is_regex, what@) == Err::<
                    Seq<Seq<char>>,
                    SpecInterpreterError,
                >(e),
            },
        decreases nodes.len() - i,
    {
        let ghost before = values@;
        match get_attribute(doc, &nodes[i], name, is_regex) {
            Ok(Some(value)) => {
                proof {
                    lemma_texts_view_push(before, value);
                    let rest = spec_attr_values(doc@, nodes@, i + 1, name@, is_regex, what@);
                    if rest is Ok {
                        assert(texts_view(before) + (seq![value@] + rest->Ok_0) =~= texts_view(
                            before,
                        ).push(value@) + rest->Ok_0);
                    }
                }
                values.push(value);
            },
            Ok(None) => {},
            Err(err) => {
                return Err(attribute_failure(what, &err));
            },
        }
        i += 1;
    }
    proof {
        assert(texts_view(values@) + Seq::<Seq<char>>::empty() =~= texts_view(values@));
    }
    Ok(values)
}

/// The values of `href` on `nodes`.
fn extract_href_values(doc: &Document, nodes: &Vec<NodeHandle>) -> (r: InterpreterResult<
    Vec<String>,
>)
    requires
        doc.wf(),
    ensures
        texts_result(r) == spec_attr_values(doc@, nodes@, 0, "href"@, false, "href"@),
{
    extract_attr_values(doc, nodes, "href", false, "href")
}

/// The values of `src` on `nodes`.
fn extract_src_values(doc: &Document, nodes: &Vec<NodeHandle>) -> (r: InterpreterResult<
    Vec<String>,
>)
    requires
        doc.wf(),
    ensures
        texts_result(r) == spec_attr_values(doc@, nodes@, 0, "src"@, false, "src"@),
{
    extract_attr_values(doc, nodes, "src", false, "src")
}

/// A text selector applied to a result.
pub fn evaluate_text(doc: &Document, current: &SelectionResult, selector: &TextNode) -> (r:
    InterpreterResult<SelectionResult>)
    requires
        doc.wf(),
    ensures
        result_view(r) == spec_apply_text(doc@, current@, selector@),
{
    let nodes = match current.nodes() {
        Ok(nodes) => nodes,
        Err(e) => {
            return Err(e);
        },
    };
    let texts = match selector {
        TextNode::Text => extract_text_content(doc, nodes),
        TextNode::Href => extract_href_values(doc, nodes),
        TextNode::Src => extract_src_values(doc, nodes),
        TextNode::AttrValue(name, is_regex) => extract_attr_values(
            doc,
            nodes,
            name.as_str(),
            *is_regex,
            name.as_str(),
        ),
    };
    match texts {
        Ok(texts) => Ok(SelectionResult::with_texts(texts)),
        Err(e) => Err(e),
    }
}

/// Applies a text selector to the interpreter's current result. The current
/// result must hold nodes; it becomes texts. On an error the interpreter
/// stays as it was.
pub fn apply_text_selector(it: &mut Interpreter, text_node: &TextNode) -> (r: InterpreterResult<()>)
    requires
        old(it).wf(),
    ensures
        final(it).wf(),
        final(it).dom == old(it).dom,
        final(it).document == old(it).document,
        final(it).is_first_interpret == old(it).is_first_interpret,
        match r {
            Ok(_) => spec_apply_text(old(it).dom@, old(it).result@, text_node@) == Ok::<
                SpecResult,
                SpecInterpreterError,
            >(final(it).result@),
            Err(e) => spec_apply_text(old(it).dom@, old(it).result@, text_node@) == Err::<
                SpecResult,
                SpecInterpreterError,
            >(e@) && final(it).result == old(it).result,
        },
{
    match evaluate_text(&it.dom, &it.result, text_node) {
        Ok(texts) => {
            it.result = texts;
            Ok(())
        },
        Err(e) => Err(e),
    }
}

} // verus!
