//! Element selectors at work: from the nodes selected so far to the elements
//! in their subtrees that the selector asks for.

use vstd::prelude::*;
use crate::interpreter::Interpreter;
use crate::interpreter::error::{InterpreterResult, SpecInterpreterError};
use crate::interpreter::html::{
    Document, SpecDomNode, spec_find, spec_find_by_value, find_by_value, append_nodes,
    nodes_result, find_by_class, find_by_id, find_by_tag, find_by_attr,
};
use crate::interpreter::result::{NodeHandle, SelectionResult, SpecResult, not_nodes_error};
use crate::parser::result_view;
use crate::parser::ast::{ElementNode, SpecElement};

verus! {

/// What one node contributes: the elements in its subtree that the selector asks for.
pub open spec fn spec_select_one(dom: Seq<SpecDomNode>, node: NodeHandle, selector: SpecElement)
    -> Result<Seq<NodeHandle>, SpecInterpreterError> {
    match selector {
        SpecElement::Attr(name, Some(value), is_regex) => if name.len() == 0 {
            spec_find_by_value(dom, node.index as int, value, is_regex)
        } else {
            spec_find(dom, node.index as int, selector)
        },
        _ => spec_find(dom, node.index as int, selector),
    }
}

/// What `nodes[from..]` contribute, node by node. The first error met is the result.
pub open spec fn spec_select(
    dom: Seq<SpecDomNode>,
    nodes: Seq<NodeHandle>,
    from: int,
    selector: SpecElement,
) -> Result<Seq<NodeHandle>, SpecInterpreterError>
    decreases nodes.len() - from,
{
    if from < 0 || from >= nodes.len() {
        Ok(Seq::empty())
    } else {
        match spec_select_one(dom, nodes[from], selector) {
            Err(e) => Err(e),
            Ok(first) => match spec_select(dom, nodes, from + 1, selector) {
                Err(e) => Err(e),
                Ok(rest) => Ok(first + rest),
            },
        }
    }
}

/// An element selector applied to a result: the result must hold nodes, and
/// the new result holds what they contribute.
pub open spec fn spec_apply_element(dom: Seq<SpecDomNode>, current: SpecResult, selector: SpecElement)
    -> Result<SpecResult, SpecInterpreterError> {
    match current {
        SpecResult::Texts(_) => Err(not_nodes_error()),
        SpecResult::Nodes(nodes) => match spec_select(dom, nodes, 0, selector) {
            Err(e) => Err(e),
            Ok(found) => Ok(SpecResult::Nodes(found)),
        },
    }
}

/// What one node contributes.
fn select_one(doc: &Document, node: &NodeHandle, selector: &ElementNode) -> (r: InterpreterResult<
    Vec<NodeHandle>,
>)
    requires
        doc.wf(),
    ensures
        nodes_result(r) == spec_select_one(doc@, *node, selector@),
{
    match selector {
        ElementNode::Class(class_name, is_regex) => find_by_class(
            doc,
            node,
            class_name.as_str(),
            *is_regex,
        ),
        ElementNode::Id(id, is_regex) => find_by_id(doc, node, id.as_str(), *is_regex),
        ElementNode::Tag(tag_name, is_regex) => find_by_tag(
            doc,
            node,
            tag_name.as_str(),
            *is_regex,
        ),
        ElementNode::Attr(attr_name, attr_value, is_regex) => {
            match attr_value {
                Some(value) => {
                    if attr_name.as_str().is_empty() {
                        find_by_value(doc, node.index, value.as_str(), *is_regex)
                    } else {
                        find_by_attr(
                            doc,
                            node,
                            attr_name.as_str(),
                            Some(value.as_str()),
                            *is_regex,
                        )
                    }
                },
                None => find_by_attr(doc, node, attr_name.as_str(), None, *is_regex),
            }
        },
    }
}

/// The elements that `selector` asks for in the subtrees of `nodes`, node by
/// node and each subtree in the order of the document.
pub fn select_elements(doc: &Document, nodes: &Vec<NodeHandle>, selector: &ElementNode) -> (r:
    InterpreterResult<Vec<NodeHandle>>)
    requires
        doc.wf(),
    ensures
        nodes_result(r) == spec_select(doc@, nodes@, 0, selector@),
{
    let mut result: Vec<NodeHandle> = Vec::new();
    let mut i: usize = 0;
    while i < nodes.len()
        invariant
            i <= nodes.len(),
            doc.wf(),
            match spec_select(doc@, nodes@, i as int, selector@) {
                Ok(rest) => spec_select(doc@, nodes@, 0, selector@) == Ok::<
                    Seq<NodeHandle>,
                    SpecInterpreterError,
                >(result@ + rest),
                Err(e) => spec_select(doc@, nodes@, 0, selector@) == Err::<
                    Seq<NodeHandle>,
                    SpecInterpreterError,
                >(e),
            },
        decreases nodes.len() - i,
    {
        let ghost before = result@;
        match select_one(doc, &nodes[i], selector) {
            Err(e) => {
                return Err(e);
            },
            Ok(found) => {
                append_nodes(&mut result, &found);
                proof {
                    let rest = spec_select(doc@, nodes@, i + 1, selector@);
                    if rest is Ok {
                        assert(before + (found@ + rest->Ok_0) =~= result@ + rest->Ok_0);
                    }
                }
            },
        }
        i += 1;
    }
    proof {
        assert(result@ + Seq::<NodeHandle>::empty() =~= result@);
    }
    Ok(result)
}

/// An element selector applied to a result.
pub fn evaluate_element(doc: &Document, current: &SelectionResult, selector: &ElementNode) -> (r:
    InterpreterResult<SelectionResult>)
    requires
        doc.wf(),
    ensures
        result_view(r) == spec_apply_element(doc@, current@, selector@),
{
    let nodes = match current.nodes() {
        Ok(nodes) => nodes,
        Err(e) => {
            return Err(e);
        },
    };
    match select_elements(doc, nodes, selector) {
        Ok(found) => Ok(SelectionResult::with_nodes(found)),
        Err(e) => Err(e),
    }
}

/// Applies an element selector to the interpreter's current result. The
/// current result must hold nodes; it becomes the elements, in the subtrees
/// of those nodes, that the selector asks for. On an error the interpreter
/// stays as it was.
pub fn apply_element_selector(it: &mut Interpreter, elem_node: &ElementNode) -> (r:
    InterpreterResult<()>)
    requires
        old(it).wf(),
    ensures
        final(it).wf(),
        final(it).dom == old(it).dom,
        final(it).document == old(it).document,
        final(it).is_first_interpret == old(it).is_first_interpret,
        match r {
            Ok(_) => spec_apply_element(old(it).dom@, old(it).result@, elem_node@) == Ok::<
                SpecResult,
                SpecInterpreterError,
            >(final(it).result@),
            Err(e) => spec_apply_element(old(it).dom@, old(it).result@, elem_node@) == Err::<
                SpecResult,
                SpecInterpreterError,
            >(e@) && final(it).result == old(it).result,
        },
{
    match evaluate_element(&it.dom, &it.result, elem_node) {
        Ok(found) => {
            it.result = found;
            Ok(())
        },
        Err(e) => Err(e),
    }
}

} // verus!
