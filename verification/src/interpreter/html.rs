//! The document: a tree of nodes kept in one list, each node known by its
//! index; and the searches that the selectors rest on.
//!
//! Every child stands behind its parent in the list, so a walk down the tree
//! only ever moves to greater indices.

use vstd::prelude::*;
use html5ever::tendril::TendrilSink;
use crate::interpreter::error::{InterpreterError, InterpreterResult, SpecInterpreterError};
use crate::interpreter::result::{NodeHandle, NodeKind};
use crate::interpreter::tree::{
    SpecTree, childless, completed, document_of, lemma_completed_is_longer,
    lemma_completed_waiting, lemma_waiting_parent, waiting, with_child,
};

use crate::parser::ast::{ElementNode, SpecElement};
use crate::strings::{
    regex_compiles, regex_matches, regex_error_text, regex_search, split_words, split_whitespace,
    str_eq,
};

verus! {

/// A node of a document.
#[derive(Debug)]
pub struct DomNode {
    pub kind: NodeKind,
    /// The local name of the tag, for an element.
    pub name: String,
    /// The attributes in their order, each a name and a value; a name may occur twice.
    pub attrs: Vec<(String, String)>,
    /// The text, for a text node.
    pub text: String,
    /// The indices of the children, in their order.
    pub children: Vec<usize>,
}

/// The mathematical value of a [`DomNode`].
pub struct SpecDomNode {
    pub kind: NodeKind,
    pub name: Seq<char>,
    pub attrs: Seq<(Seq<char>, Seq<char>)>,
    pub text: Seq<char>,
    pub children: Seq<usize>,
}

/// The values of a list of attributes.
pub open spec fn attrs_view(attrs: Seq<(String, String)>) -> Seq<(Seq<char>, Seq<char>)> {
    Seq::new(attrs.len(), |i: int| (attrs[i].0@, attrs[i].1@))
}

impl View for DomNode {
    type V = SpecDomNode;

    open spec fn view(&self) -> SpecDomNode {
        SpecDomNode {
            kind: self.kind,
            name: self.name@,
            attrs: attrs_view(self.attrs@),
            text: self.text@,
            children: self.children@,
        }
    }
}

/// The values of a list of nodes.
pub open spec fn nodes_view(nodes: Seq<DomNode>) -> Seq<SpecDomNode> {
    Seq::new(nodes.len(), |i: int| nodes[i]@)
}

/// A document is well formed when it has a root, and every child of a node
/// stands behind the node in the list.
pub open spec fn dom_wf(dom: Seq<SpecDomNode>) -> bool {
    &&& dom.len() > 0
    &&& forall|i: int, k: int|
        0 <= i < dom.len() && 0 <= k < dom[i].children.len() ==> i < (
        #[trigger] dom[i].children[k]) < dom.len()
}

/// The handle of the node at `index`.
pub open spec fn handle_at(dom: Seq<SpecDomNode>, index: int) -> NodeHandle {
    NodeHandle { index: index as usize, kind: dom[index].kind }
}

/// The error for a handle that names no node of the document.
pub open spec fn invalid_handle_error() -> SpecInterpreterError {
    SpecInterpreterError::ExecutionError("Node does not have a valid HTML reference"@)
}

/// The error for a regular expression that does not compile.
pub open spec fn invalid_pattern_error(pattern: Seq<char>) -> SpecInterpreterError {
    SpecInterpreterError::ExecutionError("Invalid regex pattern: "@ + regex_error_text(pattern))
}

/// Whether `text` is what `pattern` asks for: the same text, or, where the
/// pattern is a regular expression, a text in which the expression matches
/// somewhere. A regular expression that does not compile is an error.
pub open spec fn spec_text_matches(pattern: Seq<char>, text: Seq<char>, is_regex: bool) -> Result<
    bool,
    SpecInterpreterError,
> {
    if is_regex {
        if regex_compiles(pattern) {
            Ok(regex_matches(pattern, text))
        } else {
            Err(invalid_pattern_error(pattern))
        }
    } else {
        Ok(text == pattern)
    }
}

/// Whether one of `words[from..]` is what `pattern` asks for.
pub open spec fn spec_any_word_matches(
    words: Seq<Seq<char>>,
    from: int,
    pattern: Seq<char>,
    is_regex: bool,
) -> bool
    decreases words.len() - from,
{
    if from < 0 || from >= words.len() {
        false
    } else if is_regex && regex_matches(pattern, words[from]) {
        true
    } else if !is_regex && words[from] == pattern {
        true
    } else {
        spec_any_word_matches(words, from + 1, pattern, is_regex)
    }
}

/// Whether one of `attrs[from..]` is a `class` attribute with a class that
/// `pattern` asks for. With a regular expression that does not compile, the
/// first `class` attribute met is an error.
pub open spec fn spec_class_matches(
    attrs: Seq<(Seq<char>, Seq<char>)>,
    from: int,
    pattern: Seq<char>,
    is_regex: bool,
) -> Result<bool, SpecInterpreterError>
    decreases attrs.len() - from,
{
    if from < 0 || from >= attrs.len() {
        Ok(false)
    } else if attrs[from].0 == "class"@ {
        if is_regex && !regex_compiles(pattern) {
            Err(invalid_pattern_error(pattern))
        } else if spec_any_word_matches(split_words(attrs[from].1), 0, pattern, is_regex) {
            Ok(true)
        } else {
            spec_class_matches(attrs, from + 1, pattern, is_regex)
        }
    } else {
        spec_class_matches(attrs, from + 1, pattern, is_regex)
    }
}

/// Whether one of `attrs[from..]` is an `id` attribute with a value that
/// `pattern` asks for.
pub open spec fn spec_id_matches(
    attrs: Seq<(Seq<char>, Seq<char>)>,
    from: int,
    pattern: Seq<char>,
    is_regex: bool,
) -> Result<bool, SpecInterpreterError>
    decreases attrs.len() - from,
{
    if from < 0 || from >= attrs.len() {
        Ok(false)
    } else if attrs[from].0 == "id"@ {
        match spec_text_matches(pattern, attrs[from].1, is_regex) {
            Err(e) => Err(e),
            Ok(true) => Ok(true),
            Ok(false) => spec_id_matches(attrs, from + 1, pattern, is_regex),
        }
    } else {
        spec_id_matches(attrs, from + 1, pattern, is_regex)
    }
}

/// Whether one attribute is what an `attr` selector asks for: its name must
/// be what `name` asks for and, where a value is given, its value what
/// `value` asks for.
pub open spec fn spec_one_attr_matches(
    attr: (Seq<char>, Seq<char>),
    name: Seq<char>,
    value: Option<Seq<char>>,
    is_regex: bool,
) -> Result<bool, SpecInterpreterError> {
    match spec_text_matches(name, attr.0, is_regex) {
        Err(e) => Err(e),
        Ok(name_match) => match value {
            None => Ok(name_match),
            Some(v) => match spec_text_matches(v, attr.1, is_regex) {
                Err(e) => Err(e),
                Ok(value_match) => Ok(name_match && value_match),
            },
        },
    }
}

/// Whether one of `attrs[from..]` is what an `attr` selector asks for.
pub open spec fn spec_attr_matches(
    attrs: Seq<(Seq<char>, Seq<char>)>,
    from: int,
    name: Seq<char>,
    value: Option<Seq<char>>,
    is_regex: bool,
) -> Result<bool, SpecInterpreterError>
    decreases attrs.len() - from,
{
    if from < 0 || from >= attrs.len() {
        Ok(false)
    } else {
        match spec_one_attr_matches(attrs[from], name, value, is_regex) {
            Err(e) => Err(e),
            Ok(true) => Ok(true),
            Ok(false) => spec_attr_matches(attrs, from + 1, name, value, is_regex),
        }
    }
}

/// Whether a node is what an element selector asks for. Only elements are.
pub open spec fn spec_node_matches(node: SpecDomNode, selector: SpecElement) -> Result<
    bool,
    SpecInterpreterError,
> {
    if node.kind != NodeKind::Element {
        Ok(false)
    } else {
        match selector {
            SpecElement::Tag(pattern, is_regex) => spec_text_matches(pattern, node.name, is_regex),
            SpecElement::Class(pattern, is_regex) => spec_class_matches(
                node.attrs,
                0,
                pattern,
                is_regex,
            ),
            SpecElement::Id(pattern, is_regex) => spec_id_matches(node.attrs, 0, pattern, is_regex),
            SpecElement::Attr(name, value, is_regex) => spec_attr_matches(
                node.attrs,
                0,
                name,
                value,
                is_regex,
            ),
        }
    }
}

/// The nodes in the subtree of the node at `index` that `selector` asks for:
/// the node itself first, then what its children's subtrees hold, child by
/// child. The first error met on the way is the result.
pub open spec fn spec_find(dom: Seq<SpecDomNode>, index: int, selector: SpecElement) -> Result<
    Seq<NodeHandle>,
    SpecInterpreterError,
>
    decreases dom.len() - index, 1nat, 0nat,
{
    if index < 0 || index >= dom.len() {
        Err(invalid_handle_error())
    } else {
        match spec_node_matches(dom[index], selector) {
            Err(e) => Err(e),
            Ok(own) => match spec_find_in_children(dom, index, 0, selector) {
                Err(e) => Err(e),
                Ok(below) => Ok(
                    if own {
                        seq![handle_at(dom, index)] + below
                    } else {
                        below
                    },
                ),
            },
        }
    }
}

/// What the subtrees of the children `from` onwards of the node at `index` hold.
pub open spec fn spec_find_in_children(
    dom: Seq<SpecDomNode>,
    index: int,
    from: int,
    selector: SpecElement,
) -> Result<Seq<NodeHandle>, SpecInterpreterError>
    decreases dom.len() - index, 0nat, dom[index].children.len() - from,
{
    if index < 0 || index >= dom.len() || from < 0 || from >= dom[index].children.len() {
        Ok(Seq::empty())
    } else {
        let child = dom[index].children[from] as int;
        if index < child < dom.len() {
            match spec_find(dom, child, selector) {
                Err(e) => Err(e),
                Ok(first) => match spec_find_in_children(dom, index, from + 1, selector) {
                    Err(e) => Err(e),
                    Ok(rest) => Ok(first + rest),
                },
            }
        } else {
            Err(invalid_handle_error())
        }
    }
}

/// Whether the value of one of `attrs[from..]` is what `pattern` asks for,
/// whatever the attribute's name. A regular expression that does not compile
/// matches nothing.
pub open spec fn spec_any_value_matches(
    attrs: Seq<(Seq<char>, Seq<char>)>,
    from: int,
    pattern: Seq<char>,
    is_regex: bool,
) -> bool
    decreases attrs.len() - from,
{
    if from < 0 || from >= attrs.len() {
        false
    } else if spec_text_matches(pattern, attrs[from].1, is_regex) == Ok::<
        bool,
        SpecInterpreterError,
    >(true) {
        true
    } else {
        spec_any_value_matches(attrs, from + 1, pattern, is_regex)
    }
}

/// The nodes in the subtree of the node at `index` that have an attribute
/// whose value `pattern` asks for: the node itself first, then what its
/// children's subtrees hold, child by child.
pub open spec fn spec_find_by_value(
    dom: Seq<SpecDomNode>,
    index: int,
    pattern: Seq<char>,
    is_regex: bool,
) -> Result<Seq<NodeHandle>, SpecInterpreterError>
    decreases dom.len() - index, 1nat, 0nat,
{
    if index < 0 || index >= dom.len() {
        Err(invalid_handle_error())
    } else {
        match spec_find_by_value_in_children(dom, index, 0, pattern, is_regex) {
            Err(e) => Err(e),
            Ok(below) => Ok(
                if dom[index].kind == NodeKind::Element && spec_any_value_matches(
                    dom[index].attrs,
                    0,
                    pattern,
                    is_regex,
                ) {
                    seq![handle_at(dom, index)] + below
                } else {
                    below
                },
            ),
        }
    }
}

/// What the subtrees of the children `from` onwards of the node at `index`
/// hold of nodes with an attribute whose value `pattern` asks for.
pub open spec fn spec_find_by_value_in_children(
    dom: Seq<SpecDomNode>,
    index: int,
    from: int,
    pattern: Seq<char>,
    is_regex: bool,
) -> Result<Seq<NodeHandle>, SpecInterpreterError>
    decreases dom.len() - index, 0nat, dom[index].children.len() - from,
{
    if index < 0 || index >= dom.len() || from < 0 || from >= dom[index].children.len() {
        Ok(Seq::empty())
    } else {
        let child = dom[index].children[from] as int;
        if index < child < dom.len() {
            match spec_find_by_value(dom, child, pattern, is_regex) {
                Err(e) => Err(e),
                Ok(first) => match spec_find_by_value_in_children(
                    dom,
                    index,
                    from + 1,
                    pattern,
                    is_regex,
                ) {
                    Err(e) => Err(e),
                    Ok(rest) => Ok(first + rest),
                },
            }
        } else {
            Err(invalid_handle_error())
        }
    }
}

/// The text of the node at `index`: a text node's own text; for an element,
/// the texts of its children one after the other; nothing for any other node.
pub open spec fn spec_text_content(dom: Seq<SpecDomNode>, index: int) -> Seq<char>
    decreases dom.len() - index, 1nat, 0nat,
{
    if index < 0 || index >= dom.len() {
        Seq::empty()
    } else if dom[index].kind == NodeKind::Text {
        dom[index].text
    } else if dom[index].kind == NodeKind::Element {
        spec_children_text(dom, index, 0)
    } else {
        Seq::empty()
    }
}

/// The texts of the children `from` onwards of the node at `index`, one after the other.
pub open spec fn spec_children_text(dom: Seq<SpecDomNode>, index: int, from: int) -> Seq<char>
    decreases dom.len() - index, 0nat, dom[index].children.len() - from,
{
    if index < 0 || index >= dom.len() || from < 0 || from >= dom[index].children.len() {
        Seq::empty()
    } else {
        let child = dom[index].children[from] as int;
        if index < child < dom.len() {
            spec_text_content(dom, child) + spec_children_text(dom, index, from + 1)
        } else {
            Seq::empty()
        }
    }
}

/// The value of the first of `attrs[from..]` whose name is what `name` asks for.
pub open spec fn spec_first_attr(
    attrs: Seq<(Seq<char>, Seq<char>)>,
    from: int,
    name: Seq<char>,
    is_regex: bool,
) -> Result<Option<Seq<char>>, SpecInterpreterError>
    decreases attrs.len() - from,
{
    if from < 0 || from >= attrs.len() {
        Ok(None)
    } else {
        match spec_text_matches(name, attrs[from].0, is_regex) {
            Err(e) => Err(e),
            Ok(true) => Ok(Some(attrs[from].1)),
            Ok(false) => spec_first_attr(attrs, from + 1, name, is_regex),
        }
    }
}

/// The value of the first attribute of the node of `handle` whose name is
/// what `name` asks for. Only elements have attributes.
pub open spec fn spec_get_attribute(
    dom: Seq<SpecDomNode>,
    handle: NodeHandle,
    name: Seq<char>,
    is_regex: bool,
) -> Result<Option<Seq<char>>, SpecInterpreterError> {
    if handle.index >= dom.len() {
        Err(invalid_handle_error())
    } else if dom[handle.index as int].kind != NodeKind::Element {
        Ok(None)
    } else {
        spec_first_attr(dom[handle.index as int].attrs, 0, name, is_regex)
    }
}

/// The handles of the children of the node at `index`.
pub open spec fn spec_children(dom: Seq<SpecDomNode>, index: int) -> Seq<NodeHandle> {
    Seq::new(dom[index].children.len(), |k: int| handle_at(dom, dom[index].children[k] as int))
}

/// A document.
#[derive(Debug)]
pub struct Document {
    nodes: Vec<DomNode>,
}

impl View for Document {
    type V = Seq<SpecDomNode>;

    closed spec fn view(&self) -> Seq<SpecDomNode> {
        nodes_view(self.nodes@)
    }
}

impl Clone for DomNode {
    fn clone(&self) -> (r: Self)
        ensures
            r@ == self@,
    {
        let mut attrs: Vec<(String, String)> = Vec::new();
        let mut i: usize = 0;
        while i < self.attrs.len()
            invariant
                i <= self.attrs.len(),
                attrs@.len() == i,
                forall|j: int|
                    0 <= j < i ==> attrs@[j].0@ == self.attrs@[j].0@ && attrs@[j].1@
                        == self.attrs@[j].1@,
            decreases self.attrs.len() - i,
        {
            attrs.push((self.attrs[i].0.clone(), self.attrs[i].1.clone()));
            i += 1;
        }
        let mut children: Vec<usize> = Vec::new();
        let mut k: usize = 0;
        while k < self.children.len()
            invariant
                k <= self.children.len(),
                children@ == self.children@.take(k as int),
            decreases self.children.len() - k,
        {
            children.push(self.children[k]);
            k += 1;
        }
        proof {
            assert(attrs_view(attrs@) =~= attrs_view(self.attrs@));
            assert(self.children@.take(self.children.len() as int) =~= self.children@);
        }
        DomNode {
            kind: self.kind,
            name: self.name.clone(),
            attrs,
            text: self.text.clone(),
            children,
        }
    }
}

impl Clone for Document {
    fn clone(&self) -> (r: Self)
        ensures
            r@ == self@,
    {
        let mut nodes: Vec<DomNode> = Vec::new();
        let mut i: usize = 0;
        while i < self.nodes.len()
            invariant
                i <= self.nodes.len(),
                nodes@.len() == i,
                forall|j: int| 0 <= j < i ==> nodes@[j]@ == self.nodes@[j]@,
            decreases self.nodes.len() - i,
        {
            nodes.push(self.nodes[i].clone());
            i += 1;
        }
        proof {
            assert(nodes_view(nodes@) =~= nodes_view(self.nodes@));
        }
        Document { nodes }
    }
}

/// A node without children.
pub fn leaf(kind: NodeKind, name: &str, attrs: Vec<(String, String)>, text: &str) -> (node: DomNode)
    ensures
        node@ == (SpecDomNode {
            kind,
            name: name@,
            attrs: attrs_view(attrs@),
            text: text@,
            children: Seq::empty(),
        }),
{
    DomNode {
        kind,
        name: String::from_str(name),
        attrs,
        text: String::from_str(text),
        children: Vec::new(),
    }
}

impl Document {
    /// Whether the document is well formed.
    pub open spec fn wf(&self) -> bool {
        dom_wf(self@)
    }

    /// A document that holds a root and nothing else.
    pub fn new() -> (doc: Document)
        ensures
            doc.wf(),
            doc@.len() == 1,
            doc@[0] == (SpecDomNode {
                kind: NodeKind::Document,
                name: Seq::empty(),
                attrs: Seq::empty(),
                text: Seq::empty(),
                children: Seq::empty(),
            }),
    {
        let mut nodes: Vec<DomNode> = Vec::new();
        let root = leaf(NodeKind::Document, "", Vec::new(), "");
        proof {
            reveal_strlit("");
            assert(""@ =~= Seq::<char>::empty());
            assert(attrs_view(Seq::<(String, String)>::empty()) =~= Seq::empty());
        }
        nodes.push(root);
        Document { nodes }
    }

    /// How many nodes the document holds.
    pub fn len(&self) -> (n: usize)
        ensures
            n == self@.len(),
    {
        self.nodes.len()
    }

    /// The handle of the root.
    pub fn root(&self) -> (h: NodeHandle)
        requires
            self.wf(),
        ensures
            h == handle_at(self@, 0),
    {
        NodeHandle { index: 0, kind: self.nodes[0].kind }
    }

    /// The handle of the node at `index`, if there is such a node.
    pub fn handle_of(&self, index: usize) -> (h: Option<NodeHandle>)
        ensures
            h == if index < self@.len() {
                Some(handle_at(self@, index as int))
            } else {
                None
            },
    {
        if index < self.nodes.len() {
            Some(NodeHandle { index, kind: self.nodes[index].kind })
        } else {
            None
        }
    }

    /// The node at `index`.
    pub fn node(&self, index: usize) -> (node: &DomNode)
        requires
            index < self@.len(),
        ensures
            node@ == self@[index as int],
    {
        &self.nodes[index]
    }

    /// Adds `node`, which has no children, as the last child of the node at
    /// `parent`, and returns its handle. Nothing is added, and nothing
    /// returned, where there is no node at `parent`, where `node` has
    /// children, or where the document is full.
    #[verifier::rlimit(50)]
    pub fn add_child(&mut self, parent: usize, node: DomNode) -> (h: Option<NodeHandle>)
        requires
            old(self).wf(),
        ensures
            final(self).wf(),
            match h {
                None => final(self)@ == old(self)@ && (parent >= old(self)@.len()
                    || node@.children.len() > 0 || old(self)@.len() >= usize::MAX),
                Some(handle) => {
                    &&& parent < old(self)@.len()
                    &&& node@.children.len() == 0
                    &&& handle == (NodeHandle { index: old(self)@.len() as usize, kind: node.kind })
                    &&& final(self)@.len() == old(self)@.len() + 1
                    &&& final(self)@[old(self)@.len() as int] == node@
                    &&& final(self)@[parent as int] == (SpecDomNode {
                        children: old(self)@[parent as int].children.push(handle.index),
                        ..old(self)@[parent as int]
                    })
                    &&& forall|i: int|
                        0 <= i < old(self)@.len() && i != parent ==> final(self)@[i] == old(
                            self,
                        )@[i]
                },
            },
    {
        if parent >= self.nodes.len() || node.children.len() > 0 || self.nodes.len()
            >= usize::MAX {
            return None;
        }
        let index = self.nodes.len();
        let kind = node.kind;
        let ghost before = self.nodes@;
        self.nodes.push(node);
        let mut children = Vec::new();
        std::mem::swap(&mut children, &mut self.nodes[parent].children);
        children.push(index);
        std::mem::swap(&mut children, &mut self.nodes[parent].children);
        proof {
            assert(self.nodes@.len() == before.len() + 1);
            assert forall|i: int, k: int|
                0 <= i < self@.len() && 0 <= k < self@[i].children.len() implies i < (
            #[trigger] self@[i].children[k]) < self@.len() by {
                if i == parent {
                    if k < before[i]@.children.len() {
                        assert(self@[i].children[k] == old(self)@[i].children[k]);
                    }
                } else if i < before.len() {
                    assert(self@[i] == old(self)@[i]);
                    assert(self@[i].children[k] == old(self)@[i].children[k]);
                }
            }
        }
        Some(NodeHandle { index, kind })
    }
}

/// The view of a result whose value is plain.
pub open spec fn plain_result<T>(r: Result<T, InterpreterError>) -> Result<T, SpecInterpreterError> {
    match r {
        Ok(v) => Ok(v),
        Err(e) => Err(e@),
    }
}

/// The view of a result that holds handles.
pub open spec fn nodes_result(r: Result<Vec<NodeHandle>, InterpreterError>) -> Result<
    Seq<NodeHandle>,
    SpecInterpreterError,
> {
    match r {
        Ok(v) => Ok(v@),
        Err(e) => Err(e@),
    }
}

/// The view of a result that holds a text or nothing.
pub open spec fn optional_text_result(r: Result<Option<String>, InterpreterError>) -> Result<
    Option<Seq<char>>,
    SpecInterpreterError,
> {
    match r {
        Ok(Some(s)) => Ok(Some(s@)),
        Ok(None) => Ok(None),
        Err(e) => Err(e@),
    }
}

/// What a search with a regular expression comes to: whether it found
/// something, or an error of execution that holds the text of the error with
/// which the expression was refused.
pub fn regex_outcome(searched: Result<bool, String>) -> (r: InterpreterResult<bool>)
    ensures
        match searched {
            Ok(found) => r matches Ok(b) && b == found,
            Err(message) => r matches Err(e) && e@ == SpecInterpreterError::ExecutionError(
                "Invalid regex pattern: "@ + message@,
            ),
        },
{
    match searched {
        Ok(found) => Ok(found),
        Err(message) => {
            let mut full = String::from_str("Invalid regex pattern: ");
            full.append(message.as_str());
            Err(InterpreterError::ExecutionError(full))
        },
    }
}

/// Whether `text` is what `pattern` asks for.
pub fn text_matches(pattern: &str, text: &str, is_regex: bool) -> (r: InterpreterResult<bool>)
    ensures
        plain_result(r) == spec_text_matches(pattern@, text@, is_regex),
{
    if is_regex {
        regex_outcome(regex_search(pattern, text))
    } else {
        Ok(str_eq(text, pattern))
    }
}

/// Whether one of `words` is what `pattern` asks for, where a pattern that is
/// a regular expression compiles.
fn any_word_matches(words: &Vec<String>, pattern: &str, is_regex: bool) -> (found: bool)
    requires
        is_regex ==> regex_compiles(pattern@),
    ensures
        found == spec_any_word_matches(
            Seq::new(words@.len(), |i: int| words@[i]@),
            0,
            pattern@,
            is_regex,
        ),
{
    let ghost all = Seq::new(words@.len(), |i: int| words@[i]@);
    let mut i: usize = 0;
    while i < words.len()
        invariant
            i <= words.len(),
            is_regex ==> regex_compiles(pattern@),
            all == Seq::new(words@.len(), |i: int| words@[i]@),
            spec_any_word_matches(all, i as int, pattern@, is_regex) == spec_any_word_matches(
                all,
                0,
                pattern@,
                is_regex,
            ),
        decreases words.len() - i,
    {
        let matched = match text_matches(pattern, words[i].as_str(), is_regex) {
            Ok(found) => found,
            Err(_) => false,
        };
        if matched {
            return true;
        }
        i += 1;
    }
    false
}

/// Whether one of `attrs` is a `class` attribute with a class that `pattern` asks for.
#[verifier::rlimit(50)]
fn class_matches(attrs: &Vec<(String, String)>, pattern: &str, is_regex: bool) -> (r:
    InterpreterResult<bool>)
    ensures
        plain_result(r) == spec_class_matches(attrs_view(attrs@), 0, pattern@, is_regex),
{
    let ghost all = attrs_view(attrs@);
    let mut i: usize = 0;
    while i < attrs.len()
        invariant
            i <= attrs.len(),
            all == attrs_view(attrs@),
            spec_class_matches(all, i as int, pattern@, is_regex) == spec_class_matches(
                all,
                0,
                pattern@,
                is_regex,
            ),
        decreases attrs.len() - i,
    {
        if str_eq(attrs[i].0.as_str(), "class") {
            if is_regex {
                match text_matches(pattern, "", true) {
                    Err(e) => {
                        return Err(e);
                    },
                    Ok(_) => {},
                }
            }
            let classes = split_whitespace(attrs[i].1.as_str());
            proof {
                assert(Seq::new(classes@.len(), |k: int| classes@[k]@) =~= split_words(
                    attrs@[i as int].1@,
                ));
            }
            if any_word_matches(&classes, pattern, is_regex) {
                return Ok(true);
            }
        }
        i += 1;
    }
    Ok(false)
}

/// Whether one of `attrs` is an `id` attribute with a value that `pattern` asks for.
fn id_matches(attrs: &Vec<(String, String)>, pattern: &str, is_regex: bool) -> (r:
    InterpreterResult<bool>)
    ensures
        plain_result(r) == spec_id_matches(attrs_view(attrs@), 0, pattern@, is_regex),
{
    let ghost all = attrs_view(attrs@);
    let mut i: usize = 0;
    while i < attrs.len()
        invariant
            i <= attrs.len(),
            all == attrs_view(attrs@),
            spec_id_matches(all, i as int, pattern@, is_regex) == spec_id_matches(
                all,
                0,
                pattern@,
                is_regex,
            ),
        decreases attrs.len() - i,
    {
        if str_eq(attrs[i].0.as_str(), "id") {
            match text_matches(pattern, attrs[i].1.as_str(), is_regex) {
                Err(e) => {
                    return Err(e);
                },
                Ok(true) => {
                    return Ok(true);
                },
                Ok(false) => {},
            }
        }
        i += 1;
    }
    Ok(false)
}

/// The value of a text that may be absent.
pub open spec fn optional_text_view(text: Option<&str>) -> Option<Seq<char>> {
    match text {
        Some(t) => Some(t@),
        None => None,
    }
}

/// Whether one of `attrs` is what an `attr` selector asks for.
fn attr_matches(
    attrs: &Vec<(String, String)>,
    name: &str,
    value: Option<&str>,
    is_regex: bool,
) -> (r: InterpreterResult<bool>)
    ensures
        plain_result(r) == spec_attr_matches(
            attrs_view(attrs@),
            0,
            name@,
            optional_text_view(value),
            is_regex,
        ),
{
    let ghost all = attrs_view(attrs@);
    let ghost wanted = optional_text_view(value);
    let mut i: usize = 0;
    while i < attrs.len()
        invariant
            i <= attrs.len(),
            all == attrs_view(attrs@),
            wanted == optional_text_view(value),
            spec_attr_matches(all, i as int, name@, wanted, is_regex) == spec_attr_matches(
                all,
                0,
                name@,
                wanted,
                is_regex,
            ),
        decreases attrs.len() - i,
    {
        let name_match = match text_matches(name, attrs[i].0.as_str(), is_regex) {
            Ok(found) => found,
            Err(e) => {
                return Err(e);
            },
        };
        let value_match = match value {
            Some(v) => match text_matches(v, attrs[i].1.as_str(), is_regex) {
                Ok(found) => found,
                Err(e) => {
                    return Err(e);
                },
            },
            None => true,
        };
        if name_match && value_match {
            return Ok(true);
        }
        i += 1;
    }
    Ok(false)
}

/// Whether `node` is what `selector` asks for.
pub fn node_matches(node: &DomNode, selector: &ElementNode) -> (r: InterpreterResult<bool>)
    ensures
        plain_result(r) == spec_node_matches(node@, selector@),
{
    match node.kind {
        NodeKind::Element => {},
        _ => {
            return Ok(false);
        },
    }
    match selector {
        ElementNode::Tag(pattern, is_regex) => text_matches(
            pattern.as_str(),
            node.name.as_str(),
            *is_regex,
        ),
        ElementNode::Class(pattern, is_regex) => class_matches(
            &node.attrs,
            pattern.as_str(),
            *is_regex,
        ),
        ElementNode::Id(pattern, is_regex) => id_matches(&node.attrs, pattern.as_str(), *is_regex),
        ElementNode::Attr(name, value, is_regex) => {
            let wanted = match value {
                Some(v) => Some(v.as_str()),
                None => None,
            };
            attr_matches(&node.attrs, name.as_str(), wanted, *is_regex)
        },
    }
}

/// Moves the items of `more` to the end of `all`.
pub fn append_nodes(all: &mut Vec<NodeHandle>, more: &Vec<NodeHandle>)
    ensures
        final(all)@ == old(all)@ + more@,
{
    let mut i: usize = 0;
    while i < more.len()
        invariant
            i <= more.len(),
            all@ == old(all)@ + more@.take(i as int),
        decreases more.len() - i,
    {
        all.push(more[i]);
        i += 1;
    }
    proof {
        assert(more@.take(more.len() as int) == more@);
    }
}

/// The nodes in the subtree of the node at `index` that `selector` asks for,
/// in the order of the document.
#[verifier::rlimit(50)]
pub fn find_matching(doc: &Document, index: usize, selector: &ElementNode) -> (r:
    InterpreterResult<Vec<NodeHandle>>)
    requires
        doc.wf(),
    ensures
        nodes_result(r) == spec_find(doc@, index as int, selector@),
    decreases doc@.len() - index,
{
    if index >= doc.len() {
        return Err(InterpreterError::execution_error("Node does not have a valid HTML reference"));
    }
    let node = doc.node(index);
    let matched = match node_matches(node, selector) {
        Err(e) => {
            return Err(e);
        },
        Ok(matched) => matched,
    };
    let mut below: Vec<NodeHandle> = Vec::new();
    let mut k: usize = 0;
    while k < node.children.len()
        invariant
            k <= node.children.len(),
            doc.wf(),
            index < doc@.len(),
            node@ == doc@[index as int],
            spec_node_matches(doc@[index as int], selector@) == Ok::<bool, SpecInterpreterError>(
                matched,
            ),
            match spec_find_in_children(doc@, index as int, k as int, selector@) {
                Ok(rest) => spec_find_in_children(doc@, index as int, 0, selector@) == Ok::<
                    Seq<NodeHandle>,
                    SpecInterpreterError,
                >(below@ + rest),
                Err(e) => spec_find_in_children(doc@, index as int, 0, selector@) == Err::<
                    Seq<NodeHandle>,
                    SpecInterpreterError,
                >(e),
            },
        decreases node.children.len() - k,
    {
        let child = node.children[k];
        proof {
            assert(child == doc@[index as int].children[k as int]);
        }
        let ghost before = below@;
        match find_matching(doc, child, selector) {
            Err(e) => {
                return Err(e);
            },
            Ok(found) => {
                append_nodes(&mut below, &found);
                proof {
                    let rest = spec_find_in_children(doc@, index as int, k + 1, selector@);
                    if rest is Ok {
                        assert(before + (found@ + rest->Ok_0) =~= below@ + rest->Ok_0);
                    }
                }
            },
        }
        k += 1;
    }
    proof {
        assert(below@ + Seq::<NodeHandle>::empty() =~= below@);
    }
    if matched {
        let mut result: Vec<NodeHandle> = Vec::new();
        result.push(NodeHandle { index, kind: node.kind });
        append_nodes(&mut result, &below);
        proof {
            assert(result@ =~= seq![handle_at(doc@, index as int)] + below@);
        }
        Ok(result)
    } else {
        Ok(below)
    }
}

/// Whether the value of one of `attrs` is what `pattern` asks for.
fn any_value_matches(attrs: &Vec<(String, String)>, pattern: &str, is_regex: bool) -> (found: bool)
    ensures
        found == spec_any_value_matches(attrs_view(attrs@), 0, pattern@, is_regex),
{
    let ghost all = attrs_view(attrs@);
    let mut i: usize = 0;
    while i < attrs.len()
        invariant
            i <= attrs.len(),
            all == attrs_view(attrs@),
            spec_any_value_matches(all, i as int, pattern@, is_regex) == spec_any_value_matches(
                all,
                0,
                pattern@,
                is_regex,
            ),
        decreases attrs.len() - i,
    {
        let matched = match text_matches(pattern, attrs[i].1.as_str(), is_regex) {
            Ok(found) => found,
            Err(_) => false,
        };
        if matched {
            return true;
        }
        i += 1;
    }
    false
}

/// The nodes in the subtree of the node at `index` that have an attribute
/// whose value `pattern` asks for, in the order of the document.
#[verifier::rlimit(50)]
pub fn find_by_value(doc: &Document, index: usize, pattern: &str, is_regex: bool) -> (r:
    InterpreterResult<Vec<NodeHandle>>)
    requires
        doc.wf(),
    ensures
        nodes_result(r) == spec_find_by_value(doc@, index as int, pattern@, is_regex),
    decreases doc@.len() - index,
{
    if index >= doc.len() {
        return Err(InterpreterError::execution_error("Node does not have a valid HTML reference"));
    }
    let node = doc.node(index);
    let is_element = match node.kind {
        NodeKind::Element => true,
        _ => false,
    };
    let matched = is_element && any_value_matches(&node.attrs, pattern, is_regex);
    let mut below: Vec<NodeHandle> = Vec::new();
    let mut k: usize = 0;
    while k < node.children.len()
        invariant
            k <= node.children.len(),
            doc.wf(),
            index < doc@.len(),
            node@ == doc@[index as int],
            match spec_find_by_value_in_children(doc@, index as int, k as int, pattern@, is_regex) {
                Ok(rest) => spec_find_by_value_in_children(
                    doc@,
                    index as int,
                    0,
                    pattern@,
                    is_regex,
                ) == Ok::<Seq<NodeHandle>, SpecInterpreterError>(below@ + rest),
                Err(e) => spec_find_by_value_in_children(
                    doc@,
                    index as int,
                    0,
                    pattern@,
                    is_regex,
                ) == Err::<Seq<NodeHandle>, SpecInterpreterError>(e),
            },
        decreases node.children.len() - k,
    {
        let child = node.children[k];
        proof {
            assert(child == doc@[index as int].children[k as int]);
        }
        let ghost before = below@;
        match find_by_value(doc, child, pattern, is_regex) {
            Err(e) => {
                return Err(e);
            },
            Ok(found) => {
                append_nodes(&mut below, &found);
                proof {
                    let rest = spec_find_by_value_in_children(
                        doc@,
                        index as int,
                        k + 1,
                        pattern@,
                        is_regex,
                    );
                    if rest is Ok {
                        assert(before + (found@ + rest->Ok_0) =~= below@ + rest->Ok_0);
                    }
                }
            },
        }
        k += 1;
    }
    proof {
        assert(below@ + Seq::<NodeHandle>::empty() =~= below@);
    }
    if matched {
        let mut result: Vec<NodeHandle> = Vec::new();
        result.push(NodeHandle { index, kind: node.kind });
        append_nodes(&mut result, &below);
        proof {
            assert(result@ =~= seq![handle_at(doc@, index as int)] + below@);
        }
        Ok(result)
    } else {
        Ok(below)
    }
}

/// The text of the node at `index`.
fn text_content(doc: &Document, index: usize) -> (text: String)
    requires
        doc.wf(),
    ensures
        text@ == spec_text_content(doc@, index as int),
    decreases doc@.len() - index,
{
    if index >= doc.len() {
        return String::new();
    }
    let node = doc.node(index);
    match node.kind {
        NodeKind::Text => node.text.clone(),
        NodeKind::Element => {
            let mut result = String::new();
            let mut k: usize = 0;
            while k < node.children.len()
                invariant
                    k <= node.children.len(),
                    doc.wf(),
                    index < doc@.len(),
                    node@ == doc@[index as int],
                    result@ + spec_children_text(doc@, index as int, k as int)
                        == spec_children_text(doc@, index as int, 0),
                decreases node.children.len() - k,
            {
                let child = node.children[k];
                proof {
                    assert(child == doc@[index as int].children[k as int]);
                }
                let ghost before = result@;
                let part = text_content(doc, child);
                result.append(part.as_str());
                proof {
                    assert(before + (part@ + spec_children_text(doc@, index as int, k + 1))
                        =~= result@ + spec_children_text(doc@, index as int, k + 1));
                }
                k += 1;
            }
            proof {
                assert(result@ + Seq::<char>::empty() =~= result@);
            }
            result
        },
        _ => String::new(),
    }
}

/// The handles of the children of the node of `node`, in their order.
pub fn get_children(doc: &Document, node: &NodeHandle) -> (r: InterpreterResult<Vec<NodeHandle>>)
    requires
        doc.wf(),
    ensures
        nodes_result(r) == if node.index < doc@.len() {
            Ok::<Seq<NodeHandle>, SpecInterpreterError>(spec_children(doc@, node.index as int))
        } else {
            Err::<Seq<NodeHandle>, SpecInterpreterError>(invalid_handle_error())
        },
{
    if node.index >= doc.len() {
        return Err(InterpreterError::execution_error("Node does not have a valid HTML reference"));
    }
    let parent = doc.node(node.index);
    let mut result: Vec<NodeHandle> = Vec::new();
    let mut k: usize = 0;
    while k < parent.children.len()
        invariant
            k <= parent.children.len(),
            doc.wf(),
            node.index < doc@.len(),
            parent@ == doc@[node.index as int],
            result@ == spec_children(doc@, node.index as int).take(k as int),
        decreases parent.children.len() - k,
    {
        let child = parent.children[k];
        proof {
            assert(child == doc@[node.index as int].children[k as int]);
        }
        let kind = doc.node(child).kind;
        result.push(NodeHandle { index: child, kind });
        proof {
            assert(result@ =~= spec_children(doc@, node.index as int).take(k + 1));
        }
        k += 1;
    }
    proof {
        assert(spec_children(doc@, node.index as int).take(parent.children.len() as int)
            =~= spec_children(doc@, node.index as int));
    }
    Ok(result)
}

/// The text of the node of `node`: a text node's own text; for an element,
/// the texts of all text nodes below it, in the order of the document;
/// nothing for any other node.
pub fn extract_text(doc: &Document, node: &NodeHandle) -> (r: InterpreterResult<String>)
    requires
        doc.wf(),
    ensures
        match r {
            Ok(text) => node.index < doc@.len() && text@ == spec_text_content(
                doc@,
                node.index as int,
            ),
            Err(e) => node.index >= doc@.len() && e@ == invalid_handle_error(),
        },
{
    if node.index >= doc.len() {
        return Err(InterpreterError::execution_error("Node does not have a valid HTML reference"));
    }
    Ok(text_content(doc, node.index))
}

/// The elements in the subtree of `node` whose tag name is what `tag_name` asks for.
pub fn find_by_tag(doc: &Document, node: &NodeHandle, tag_name: &str, is_regex: bool) -> (r:
    InterpreterResult<Vec<NodeHandle>>)
    requires
        doc.wf(),
    ensures
        nodes_result(r) == spec_find(
            doc@,
            node.index as int,
            SpecElement::Tag(tag_name@, is_regex),
        ),
{
    let selector = ElementNode::Tag(String::from_str(tag_name), is_regex);
    find_matching(doc, node.index, &selector)
}

/// The elements in the subtree of `node` one of whose classes is what `class_name` asks for.
pub fn find_by_class(doc: &Document, node: &NodeHandle, class_name: &str, is_regex: bool) -> (r:
    InterpreterResult<Vec<NodeHandle>>)
    requires
        doc.wf(),
    ensures
        nodes_result(r) == spec_find(
            doc@,
            node.index as int,
            SpecElement::Class(class_name@, is_regex),
        ),
{
    let selector = ElementNode::Class(String::from_str(class_name), is_regex);
    find_matching(doc, node.index, &selector)
}

/// The elements in the subtree of `node` whose id is what `id_value` asks for.
pub fn find_by_id(doc: &Document, node: &NodeHandle, id_value: &str, is_regex: bool) -> (r:
    InterpreterResult<Vec<NodeHandle>>)
    requires
        doc.wf(),
    ensures
        nodes_result(r) == spec_find(doc@, node.index as int, SpecElement::Id(id_value@, is_regex)),
{
    let selector = ElementNode::Id(String::from_str(id_value), is_regex);
    find_matching(doc, node.index, &selector)
}

/// The elements in the subtree of `node` that have an attribute whose name is
/// what `attr_name` asks for and, where a value is given, whose value is what
/// `attr_value` asks for.
pub fn find_by_attr(
    doc: &Document,
    node: &NodeHandle,
    attr_name: &str,
    attr_value: Option<&str>,
    is_regex: bool,
) -> (r: InterpreterResult<Vec<NodeHandle>>)
    requires
        doc.wf(),
    ensures
        nodes_result(r) == spec_find(
            doc@,
            node.index as int,
            SpecElement::Attr(attr_name@, optional_text_view(attr_value), is_regex),
        ),
{
    let value = match attr_value {
        Some(v) => Some(String::from_str(v)),
        None => None,
    };
    let selector = ElementNode::Attr(String::from_str(attr_name), value, is_regex);
    find_matching(doc, node.index, &selector)
}

/// The value of the first attribute of `node` whose name is what `attr_name`
/// asks for; nothing where there is none, or where `node` is no element.
pub fn get_attribute(doc: &Document, node: &NodeHandle, attr_name: &str, is_regex: bool) -> (r:
    InterpreterResult<Option<String>>)
    requires
        doc.wf(),
    ensures
        optional_text_result(r) == spec_get_attribute(doc@, *node, attr_name@, is_regex),
{
    if node.index >= doc.len() {
        return Err(InterpreterError::execution_error("Node does not have a valid HTML reference"));
    }
    let element = doc.node(node.index);
    match element.kind {
        NodeKind::Element => {},
        _ => {
            return Ok(None);
        },
    }
    let ghost all = attrs_view(element.attrs@);
    let mut i: usize = 0;
    while i < element.attrs.len()
        invariant
            i <= element.attrs.len(),
            all == attrs_view(element.attrs@),
            node.index < doc@.len(),
            element@ == doc@[node.index as int],
            doc@[node.index as int].kind == NodeKind::Element,
            spec_first_attr(all, i as int, attr_name@, is_regex) == spec_first_attr(
                all,
                0,
                attr_name@,
                is_regex,
            ),
        decreases element.attrs.len() - i,
    {
        match text_matches(attr_name, element.attrs[i].0.as_str(), is_regex) {
            Err(e) => {
                return Err(e);
            },
            Ok(true) => {
                return Ok(Some(element.attrs[i].1.clone()));
            },
            Ok(false) => {},
        }
        i += 1;
    }
    Ok(None)
}

/// The value of `href` on `node`.
pub fn get_href(doc: &Document, node: &NodeHandle) -> (r: InterpreterResult<Option<String>>)
    requires
        doc.wf(),
    ensures
        optional_text_result(r) == spec_get_attribute(doc@, *node, "href"@, false),
{
    get_attribute(doc, node, "href", false)
}

/// The value of `src` on `node`.
pub fn get_src(doc: &Document, node: &NodeHandle) -> (r: InterpreterResult<Option<String>>)
    requires
        doc.wf(),
    ensures
        optional_text_result(r) == spec_get_attribute(doc@, *node, "src"@, false),
{
    get_attribute(doc, node, "src", false)
}

/// The attributes of `node`, each a name and a value, in their order; none
/// where `node` is no element.
pub fn get_all_attributes(doc: &Document, node: &NodeHandle) -> (r: InterpreterResult<
    Vec<(String, String)>,
>)
    requires
        doc.wf(),
    ensures
        match r {
            Ok(attrs) => node.index < doc@.len() && attrs_view(attrs@) == if doc@[node.index as int].kind
                == NodeKind::Element {
                doc@[node.index as int].attrs
            } else {
                Seq::empty()
            },
            Err(e) => node.index >= doc@.len() && e@ == invalid_handle_error(),
        },
{
    if node.index >= doc.len() {
        return Err(InterpreterError::execution_error("Node does not have a valid HTML reference"));
    }
    let element = doc.node(node.index);
    let mut result: Vec<(String, String)> = Vec::new();
    match element.kind {
        NodeKind::Element => {},
        _ => {
            assert(attrs_view(result@) =~= Seq::empty());
            return Ok(result);
        },
    }
    let mut i: usize = 0;
    while i < element.attrs.len()
        invariant
            i <= element.attrs.len(),
            attrs_view(result@) == attrs_view(element.attrs@).take(i as int),
        decreases element.attrs.len() - i,
    {
        let name = element.attrs[i].0.clone();
        let value = element.attrs[i].1.clone();
        let ghost before = result@;
        result.push((name, value));
        proof {
            assert(result@ == before.push((name, value)));
            assert(attrs_view(before.push((name, value))) =~= attrs_view(before).push(
                (name@, value@),
            ));
            assert(attrs_view(element.attrs@).take(i + 1) =~= attrs_view(element.attrs@).take(
                i as int,
            ).push((name@, value@)));
        }
        i += 1;
    }
    proof {
        assert(attrs_view(element.attrs@).take(element.attrs.len() as int) == attrs_view(
            element.attrs@,
        ));
    }
    Ok(result)
}

/// A node of the tree that `html5ever` builds into an `RcDom`: a
/// `markup5ever_rcdom::Handle`, of which the verifier sees nothing.
#[verifier::external_body]
pub struct TreeNode {
    inner: markup5ever_rcdom::Handle,
}

/// What a node of the tree holds, and all that stands below it: the fields
/// `data` and `children` of `markup5ever_rcdom::Node`, as plain values.
pub uninterp spec fn tree_contents(node: TreeNode) -> SpecTree;

/// What `html5ever::parse_document` builds from the text `html`, read as
/// UTF-8 into a fresh `RcDom` with the doctype dropped: the tree, or the
/// text of the reader's error.
pub uninterp spec fn parsed_html(html: Seq<char>) -> Result<SpecTree, Seq<char>>;

/// `html5ever::parse_document` into a fresh `RcDom`, read from the bytes of
/// `html`: the root of the tree built, or the reader's error as its `Debug`
/// format gives it. The options ask for the doctype to be dropped.
#[verifier::external_body]
fn parse_tree(html: &str) -> (r: Result<TreeNode, String>)
    ensures
        match r {
            Ok(root) => parsed_html(html@) == Ok::<SpecTree, Seq<char>>(tree_contents(root)),
            Err(text) => parsed_html(html@) == Err::<SpecTree, Seq<char>>(text@),
        },
{
    let opts = html5ever::driver::ParseOpts {
        tree_builder: html5ever::tree_builder::TreeBuilderOpts {
            drop_doctype: true,
            ..Default::default()
        },
        ..Default::default()
    };
    html5ever::parse_document(markup5ever_rcdom::RcDom::default(), opts)
        .from_utf8()
        .read_from(&mut html.as_bytes())
        .map(|dom| TreeNode { inner: dom.document })
        .map_err(|e| format!("{:?}", e))
}

/// The children of a node of the tree, in their order: the field `children`
/// of `markup5ever_rcdom::Node`.
#[verifier::external_body]
fn tree_children(node: &TreeNode) -> (r: Vec<TreeNode>)
    ensures
        r@.len() == tree_contents(*node).children.len(),
        forall|i: int|
            0 <= i < r@.len() ==> #[trigger] tree_contents(r@[i]) == tree_contents(
                *node,
            ).children[i],
{
    node.inner.children.borrow().iter().map(|c| TreeNode { inner: c.clone() }).collect()
}

/// The kind of a node of the tree: the variant of its `NodeData`.
#[verifier::external_body]
fn tree_kind(node: &TreeNode) -> (r: NodeKind)
    ensures
        r == tree_contents(*node).kind,
{
    match node.inner.data {
        markup5ever_rcdom::NodeData::Document => NodeKind::Document,
        markup5ever_rcdom::NodeData::Doctype { .. } => NodeKind::Doctype,
        markup5ever_rcdom::NodeData::Text { .. } => NodeKind::Text,
        markup5ever_rcdom::NodeData::Comment { .. } => NodeKind::Comment,
        markup5ever_rcdom::NodeData::Element { .. } => NodeKind::Element,
        markup5ever_rcdom::NodeData::ProcessingInstruction { .. } => NodeKind::ProcessingInstruction,
    }
}

/// The local name of an element of the tree; the empty text for any other node.
#[verifier::external_body]
fn tree_name(node: &TreeNode) -> (r: String)
    ensures
        r@ == tree_contents(*node).name,
{
    match &node.inner.data {
        markup5ever_rcdom::NodeData::Element { name, .. } => name.local.to_string(),
        _ => String::new(),
    }
}

/// The attributes of an element of the tree, each as its local name and its
/// value, in their order; none for any other node.
#[verifier::external_body]
fn tree_attrs(node: &TreeNode) -> (r: Vec<(String, String)>)
    ensures
        attrs_view(r@) == tree_contents(*node).attrs,
{
    match &node.inner.data {
        markup5ever_rcdom::NodeData::Element { attrs, .. } => attrs.borrow().iter().map(
            |a| (a.name.local.to_string(), a.value.to_string()),
        ).collect(),
        _ => Vec::new(),
    }
}

/// The text of a text node of the tree; the empty text for any other node.
#[verifier::external_body]
fn tree_text(node: &TreeNode) -> (r: String)
    ensures
        r@ == tree_contents(*node).text,
{
    match &node.inner.data {
        markup5ever_rcdom::NodeData::Text { contents } => contents.borrow().to_string(),
        _ => String::new(),
    }
}

/// What the document holds of a node of the tree, but for its children.
fn tree_node(node: &TreeNode) -> (r: DomNode)
    ensures
        r@ == childless(tree_contents(*node)),
{
    let children: Vec<usize> = Vec::new();
    proof {
        assert(children@ =~= Seq::<usize>::empty());
    }
    DomNode {
        kind: tree_kind(node),
        name: tree_name(node),
        attrs: tree_attrs(node),
        text: tree_text(node),
        children,
    }
}

/// The trees of the nodes of `stack`, each with the index that it waits for.
spec fn stack_view(stack: Seq<(TreeNode, usize)>) -> Seq<(SpecTree, usize)> {
    Seq::new(stack.len(), |i: int| (tree_contents(stack[i].0), stack[i].1))
}

/// Puts the children of `node` on `stack`, the last one first, each with the
/// index `parent` that `node` has in the document.
fn push_children(
    stack: &mut Vec<(TreeNode, usize)>,
    node: &TreeNode,
    parent: usize,
)
    ensures
        stack_view(final(stack)@) == stack_view(old(stack)@) + waiting(
            tree_contents(*node).children,
            0,
            parent,
        ),
{
    let ghost trees = tree_contents(*node).children;
    let mut children = tree_children(node);
    let mut k: usize = children.len();
    proof {
        assert(stack_view(stack@) =~= stack_view(old(stack)@) + waiting(trees, k as int, parent));
    }
    while k > 0
        invariant
            k == children.len(),
            k <= trees.len(),
            trees == tree_contents(*node).children,
            forall|i: int| 0 <= i < k ==> #[trigger] tree_contents(children@[i]) == trees[i],
            stack_view(stack@) == stack_view(old(stack)@) + waiting(trees, k as int, parent),
        decreases k,
    {
        k -= 1;
        let ghost before = stack@;
        match children.pop() {
            Some(child) => {
                stack.push((child, parent));
                proof {
                    assert(tree_contents(child) == trees[k as int]);
                    assert(stack_view(stack@) =~= stack_view(before).push(
                        (trees[k as int], parent),
                    ));
                    assert(stack_view(before).push((trees[k as int], parent)) =~= stack_view(
                        old(stack)@,
                    ) + waiting(trees, k as int, parent));
                }
            },
            None => {},
        }
    }
}

/// The error of HTML parsing for the reader's error `text`.
pub open spec fn html_error(text: Seq<char>) -> SpecInterpreterError {
    SpecInterpreterError::HtmlParseError("HTML parsing error: "@ + text)
}

/// What parsing an HTML text gives, the parser having built `parsed` from
/// it: the document that holds the tree; the limit exceeded, where the tree
/// has more nodes than can be counted; or the reader's error.
pub open spec fn spec_parse_html(parsed: Result<SpecTree, Seq<char>>) -> Result<
    Seq<SpecDomNode>,
    SpecInterpreterError,
> {
    match parsed {
        Err(text) => Err(html_error(text)),
        Ok(tree) => if document_of(tree).len() <= usize::MAX {
            Ok(document_of(tree))
        } else {
            Err(SpecInterpreterError::ResultLimitExceeded(usize::MAX))
        },
    }
}

/// Parses `html` into a document. The nodes stand in the document in the
/// order in which they are met in the source, the root first. An error of
/// the parser's reader is returned as an error of HTML parsing, and a tree
/// with more nodes than can be counted as a result beyond the limit.
#[verifier::rlimit(50)]
pub fn parse_html(html: &str) -> (r: InterpreterResult<Document>)
    ensures
        r matches Ok(doc) ==> doc.wf(),
        match r {
            Ok(doc) => spec_parse_html(parsed_html(html@)) == Ok::<
                Seq<SpecDomNode>,
                SpecInterpreterError,
            >(doc@),
            Err(e) => spec_parse_html(parsed_html(html@)) == Err::<
                Seq<SpecDomNode>,
                SpecInterpreterError,
            >(e@),
        },
{
    let root = match parse_tree(html) {
        Ok(root) => root,
        Err(text) => {
            let mut message = String::from_str("HTML parsing error: ");
            message.append(text.as_str());
            return Err(InterpreterError::HtmlParseError(message));
        },
    };
    let ghost tree = tree_contents(root);
    let mut nodes: Vec<DomNode> = Vec::new();
    nodes.push(tree_node(&root));
    let mut stack: Vec<(TreeNode, usize)> = Vec::new();
    push_children(&mut stack, &root, 0);
    proof {
        assert(nodes_view(nodes@) =~= seq![childless(tree)]);
        assert(stack_view(stack@) =~= Seq::<(SpecTree, usize)>::empty() + waiting(
            tree.children,
            0,
            0,
        ));
        lemma_completed_waiting(nodes_view(nodes@), Seq::empty(), tree.children, 0, 0);
        assert forall|i: int| 0 <= i < stack@.len() implies stack@[i].1 < nodes@.len() by {
            assert(stack_view(stack@)[i].1 == stack@[i].1);
            lemma_waiting_parent(tree.children, 0, 0, i);
        }
    }
    while stack.len() > 0 && nodes.len() < usize::MAX
        invariant
            dom_wf(nodes_view(nodes@)),
            forall|i: int| 0 <= i < stack@.len() ==> stack@[i].1 < nodes@.len(),
            parsed_html(html@) == Ok::<SpecTree, Seq<char>>(tree),
            completed(nodes_view(nodes@), stack_view(stack@)) == document_of(tree),
        decreases usize::MAX - nodes@.len(),
    {
        let ghost waited = stack_view(stack@);
        let ghost stack_before = stack@;
        let (handle, parent) = stack.pop().unwrap();
        let index = nodes.len();
        let ghost before = nodes@;
        nodes.push(tree_node(&handle));
        let mut children = Vec::new();
        std::mem::swap(&mut children, &mut nodes[parent].children);
        children.push(index);
        std::mem::swap(&mut children, &mut nodes[parent].children);
        let ghost rest = stack_view(stack@);
        push_children(&mut stack, &handle, index);
        proof {
            let dom = nodes_view(nodes@);
            let old_dom = nodes_view(before);
            let below = tree_contents(handle);
            assert(nodes@.len() == before.len() + 1);
            assert forall|i: int, k: int|
                0 <= i < dom.len() && 0 <= k < dom[i].children.len() implies i < (
            #[trigger] dom[i].children[k]) < dom.len() by {
                if i == parent {
                    if k < old_dom[i].children.len() {
                        assert(dom[i].children[k] == old_dom[i].children[k]);
                    }
                } else if i < before.len() {
                    assert(dom[i] == old_dom[i]);
                    assert(dom[i].children[k] == old_dom[i].children[k]);
                }
            }
            assert(waited.last() == (below, parent));
            assert(waited.drop_last() =~= rest);
            assert(dom =~= with_child(old_dom.push(childless(below)), parent as int, index));
            lemma_completed_waiting(dom, rest, below.children, 0, index);
            assert forall|i: int| 0 <= i < stack@.len() implies stack@[i].1 < nodes@.len() by {
                assert(stack_view(stack@)[i].1 == stack@[i].1);
                if i < rest.len() {
                    assert(stack_view(stack@)[i] == rest[i]);
                    assert(rest[i].1 == stack_before[i].1);
                } else {
                    lemma_waiting_parent(below.children, 0, index, i - rest.len());
                }
            }
        }
    }
    proof {
        lemma_completed_is_longer(nodes_view(nodes@), stack_view(stack@));
        assert(stack_view(stack@).len() == stack@.len());
    }
    if stack.len() > 0 {
        return Err(InterpreterError::ResultLimitExceeded(usize::MAX));
    }
    proof {
        assert(stack_view(stack@) =~= Seq::<(SpecTree, usize)>::empty());
        assert(document_of(tree) == nodes_view(nodes@));
        assert(nodes_view(nodes@).len() == nodes@.len() <= usize::MAX) by {
            vstd::std_specs::vec::axiom_spec_len(&nodes);
        }
    }
    Ok(Document { nodes })
}

} // verus!
