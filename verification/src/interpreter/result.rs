//! What a selector selects: handles of nodes, or texts.

use vstd::prelude::*;
use crate::interpreter::error::{InterpreterError, InterpreterResult, SpecInterpreterError};
use crate::strings::{decimal_text, decimal_string};

verus! {

/// The kinds of node in a document.
#[derive(Debug, Clone, Copy, PartialEq, Eq, Structural)]
pub enum NodeKind {
    Document,
    Element,
    Text,
    Comment,
    ProcessingInstruction,
    Doctype,
}

/// A handle of a node of a document: the node's index in the document, which
/// is its identity, and its kind.
#[derive(Debug, Clone, Copy, PartialEq, Eq, Structural)]
pub struct NodeHandle {
    pub index: usize,
    pub kind: NodeKind,
}

impl NodeHandle {
    /// The identity of the node: its index in its document.
    pub fn id(&self) -> (id: usize)
        ensures
            id == self.index,
    {
        self.index
    }

    /// The name of the node's kind.
    pub fn node_type(&self) -> (name: &'static str)
        ensures
            name@ == kind_name(self.kind),
    {
        match self.kind {
            NodeKind::Document => "Document",
            NodeKind::Element => "Element",
            NodeKind::Text => "Text",
            NodeKind::Comment => "Comment",
            NodeKind::ProcessingInstruction => "ProcessingInstruction",
            NodeKind::Doctype => "Doctype",
        }
    }

    /// Whether the node is an element.
    pub fn is_element(&self) -> (b: bool)
        ensures
            b == (self.kind == NodeKind::Element),
    {
        match self.kind {
            NodeKind::Element => true,
            _ => false,
        }
    }

    /// Whether the node is a text node.
    pub fn is_text(&self) -> (b: bool)
        ensures
            b == (self.kind == NodeKind::Text),
    {
        match self.kind {
            NodeKind::Text => true,
            _ => false,
        }
    }
}

/// The name of a kind of node.
pub open spec fn kind_name(kind: NodeKind) -> Seq<char> {
    match kind {
        NodeKind::Document => "Document"@,
        NodeKind::Element => "Element"@,
        NodeKind::Text => "Text"@,
        NodeKind::Comment => "Comment"@,
        NodeKind::ProcessingInstruction => "ProcessingInstruction"@,
        NodeKind::Doctype => "Doctype"@,
    }
}

/// What a selector selects.
#[derive(Debug)]
pub enum SelectionResult {
    /// Nodes of the document.
    Nodes(Vec<NodeHandle>),
    /// Texts taken from nodes.
    Texts(Vec<String>),
}

/// The mathematical value of a [`SelectionResult`].
pub enum SpecResult {
    Nodes(Seq<NodeHandle>),
    Texts(Seq<Seq<char>>),
}

/// The values of a list of texts.
pub open spec fn texts_view(texts: Seq<String>) -> Seq<Seq<char>> {
    Seq::new(texts.len(), |i: int| texts[i]@)
}

impl View for SelectionResult {
    type V = SpecResult;

    open spec fn view(&self) -> SpecResult {
        match self {
            SelectionResult::Nodes(nodes) => SpecResult::Nodes(nodes@),
            SelectionResult::Texts(texts) => SpecResult::Texts(texts_view(texts@)),
        }
    }
}

impl SpecResult {
    /// How many items the result holds.
    pub open spec fn count(self) -> nat {
        match self {
            SpecResult::Nodes(nodes) => nodes.len(),
            SpecResult::Texts(texts) => texts.len(),
        }
    }
}

/// Pushing a text onto a list pushes its value onto the list's values.
pub proof fn lemma_texts_view_push(texts: Seq<String>, text: String)
    ensures
        texts_view(texts.push(text)) == texts_view(texts).push(text@),
{
    assert(texts_view(texts.push(text)) =~= texts_view(texts).push(text@));
}

/// A copy of a list of handles.
pub fn clone_nodes(nodes: &Vec<NodeHandle>) -> (r: Vec<NodeHandle>)
    ensures
        r@ == nodes@,
{
    let mut r: Vec<NodeHandle> = Vec::new();
    let mut i: usize = 0;
    while i < nodes.len()
        invariant
            i <= nodes.len(),
            r@ == nodes@.take(i as int),
        decreases nodes.len() - i,
    {
        r.push(nodes[i]);
        i += 1;
    }
    r
}

/// A copy of a list of texts.
pub fn clone_texts(texts: &Vec<String>) -> (r: Vec<String>)
    ensures
        texts_view(r@) == texts_view(texts@),
{
    let mut r: Vec<String> = Vec::new();
    let mut i: usize = 0;
    while i < texts.len()
        invariant
            i <= texts.len(),
            texts_view(r@) == texts_view(texts@).take(i as int),
        decreases texts.len() - i,
    {
        proof {
            lemma_texts_view_push(r@, texts@[i as int]);
        }
        r.push(texts[i].clone());
        i += 1;
    }
    r
}

/// The error for a result that holds texts where nodes are wanted.
pub open spec fn not_nodes_error() -> SpecInterpreterError {
    SpecInterpreterError::ExecutionError("Result type is not nodes"@)
}

/// The error for a result that holds nodes where texts are wanted.
pub open spec fn not_texts_error() -> SpecInterpreterError {
    SpecInterpreterError::ExecutionError("Result type is not texts"@)
}

/// The texts of `texts` from `from` on, each followed by `separator` but the last.
pub open spec fn joined_text(texts: Seq<Seq<char>>, separator: Seq<char>) -> Seq<char>
    decreases texts.len(),
{
    if texts.len() == 0 {
        Seq::empty()
    } else if texts.len() == 1 {
        texts[0]
    } else {
        joined_text(texts.drop_last(), separator) + separator + texts.last()
    }
}

/// The identities of `nodes` as decimal numbers.
pub open spec fn node_ids_text(nodes: Seq<NodeHandle>) -> Seq<Seq<char>> {
    Seq::new(nodes.len(), |i: int| decimal_text(nodes[i].index as int))
}

/// A result as one text: texts each on a line of its own; nodes as the list
/// of their identities, or a note that there are none.
pub open spec fn result_text(result: SpecResult) -> Seq<char> {
    match result {
        SpecResult::Texts(texts) => joined_text(texts, "\n"@),
        SpecResult::Nodes(nodes) => if nodes.len() == 0 {
            "Empty result"@
        } else {
            "Nodes: ["@ + joined_text(node_ids_text(nodes), ", "@) + "]"@
        },
    }
}

/// The texts of `texts`, joined by `separator`.
pub fn join_texts(texts: &Vec<String>, separator: &str) -> (r: String)
    ensures
        r@ == joined_text(texts_view(texts@), separator@),
{
    let mut r = String::new();
    let mut i: usize = 0;
    while i < texts.len()
        invariant
            i <= texts.len(),
            r@ == joined_text(texts_view(texts@).take(i as int), separator@),
        decreases texts.len() - i,
    {
        proof {
            let upto = texts_view(texts@).take(i as int);
            let more = texts_view(texts@).take(i + 1);
            assert(more.drop_last() == upto);
            assert(more.last() == texts@[i as int]@);
            if i == 0 {
                assert(more[0] == texts@[0]@);
                assert(Seq::<char>::empty() + texts@[0]@ == texts@[0]@);
            }
        }
        if i > 0 {
            r.append(separator);
        }
        r.append(texts[i].as_str());
        i += 1;
    }
    proof {
        assert(texts_view(texts@).take(texts.len() as int) == texts_view(texts@));
    }
    r
}

impl Clone for SelectionResult {
    fn clone(&self) -> (r: Self)
        ensures
            r@ == self@,
    {
        match self {
            SelectionResult::Nodes(nodes) => SelectionResult::Nodes(clone_nodes(nodes)),
            SelectionResult::Texts(texts) => SelectionResult::Texts(clone_texts(texts)),
        }
    }
}

impl SelectionResult {
    /// A result without nodes.
    pub fn new() -> (r: SelectionResult)
        ensures
            r@ == SpecResult::Nodes(Seq::empty()),
    {
        SelectionResult::Nodes(Vec::new())
    }

    /// A result that holds `nodes`.
    pub fn with_nodes(nodes: Vec<NodeHandle>) -> (r: SelectionResult)
        ensures
            r@ == SpecResult::Nodes(nodes@),
    {
        SelectionResult::Nodes(nodes)
    }

    /// A result that holds `texts`.
    pub fn with_texts(texts: Vec<String>) -> (r: SelectionResult)
        ensures
            r@ == SpecResult::Texts(texts_view(texts@)),
    {
        SelectionResult::Texts(texts)
    }

    /// Whether the result holds nodes.
    pub fn is_nodes(&self) -> (b: bool)
        ensures
            b == (self@ is Nodes),
    {
        match self {
            SelectionResult::Nodes(_) => true,
            SelectionResult::Texts(_) => false,
        }
    }

    /// Whether the result holds texts.
    pub fn is_texts(&self) -> (b: bool)
        ensures
            b == (self@ is Texts),
    {
        match self {
            SelectionResult::Nodes(_) => false,
            SelectionResult::Texts(_) => true,
        }
    }

    /// The nodes of the result, or an error where it holds texts.
    pub fn nodes(&self) -> (r: InterpreterResult<&Vec<NodeHandle>>)
        ensures
            match r {
                Ok(nodes) => self@ == SpecResult::Nodes(nodes@),
                Err(e) => self@ is Texts && e@ == not_nodes_error(),
            },
    {
        match self {
            SelectionResult::Nodes(nodes) => Ok(nodes),
            _ => Err(InterpreterError::execution_error("Result type is not nodes")),
        }
    }

    /// The texts of the result, or an error where it holds nodes.
    pub fn texts(&self) -> (r: InterpreterResult<&Vec<String>>)
        ensures
            match r {
                Ok(texts) => self@ == SpecResult::Texts(texts_view(texts@)),
                Err(e) => self@ is Nodes && e@ == not_texts_error(),
            },
    {
        match self {
            SelectionResult::Texts(texts) => Ok(texts),
            _ => Err(InterpreterError::execution_error("Result type is not texts")),
        }
    }

    /// The nodes of the result, to be changed in place, or an error where it holds texts.
    pub fn nodes_mut(&mut self) -> (r: InterpreterResult<&mut Vec<NodeHandle>>)
        ensures
            match r {
                Ok(nodes) => old(self)@ == SpecResult::Nodes(nodes@) && final(self)@
                    == SpecResult::Nodes(final(nodes)@),
                Err(e) => old(self)@ is Texts && e@ == not_nodes_error() && *final(self) == *old(
                    self,
                ),
            },
    {
        match self {
            SelectionResult::Nodes(nodes) => Ok(nodes),
            _ => Err(InterpreterError::execution_error("Result type is not nodes")),
        }
    }

    /// The texts of the result, to be changed in place, or an error where it holds nodes.
    pub fn texts_mut(&mut self) -> (r: InterpreterResult<&mut Vec<String>>)
        ensures
            match r {
                Ok(texts) => old(self)@ == SpecResult::Texts(texts_view(texts@)) && final(self)@
                    == SpecResult::Texts(texts_view(final(texts)@)),
                Err(e) => old(self)@ is Nodes && e@ == not_texts_error() && *final(self) == *old(
                    self,
                ),
            },
    {
        match self {
            SelectionResult::Texts(texts) => Ok(texts),
            _ => Err(InterpreterError::execution_error("Result type is not texts")),
        }
    }

    /// How many items the result holds.
    pub fn count(&self) -> (n: usize)
        ensures
            n == self@.count(),
    {
        match self {
            SelectionResult::Nodes(nodes) => nodes.len(),
            SelectionResult::Texts(texts) => texts.len(),
        }
    }

    /// Whether the result holds nothing.
    pub fn is_empty(&self) -> (b: bool)
        ensures
            b == (self@.count() == 0),
    {
        self.count() == 0
    }

    /// The first node: an error where the result holds texts or no node.
    pub fn first_node(&self) -> (r: InterpreterResult<&NodeHandle>)
        ensures
            match r {
                Ok(node) => self@ matches SpecResult::Nodes(nodes) && nodes.len() > 0 && *node
                    == nodes[0],
                Err(e) => match self@ {
                    SpecResult::Nodes(nodes) => nodes.len() == 0 && e@
                        == SpecInterpreterError::ExecutionError("Node result is empty"@),
                    SpecResult::Texts(_) => e@ == not_nodes_error(),
                },
            },
    {
        match self {
            SelectionResult::Nodes(nodes) => {
                if nodes.len() > 0 {
                    Ok(&nodes[0])
                } else {
                    Err(InterpreterError::execution_error("Node result is empty"))
                }
            },
            _ => Err(InterpreterError::execution_error("Result type is not nodes")),
        }
    }

    /// The first text: an error where the result holds nodes or no text.
    pub fn first_text(&self) -> (r: InterpreterResult<&str>)
        ensures
            match r {
                Ok(text) => self@ matches SpecResult::Texts(texts) && texts.len() > 0 && text@
                    == texts[0],
                Err(e) => match self@ {
                    SpecResult::Texts(texts) => texts.len() == 0 && e@
                        == SpecInterpreterError::ExecutionError("Text result is empty"@),
                    SpecResult::Nodes(_) => e@ == not_texts_error(),
                },
            },
    {
        match self {
            SelectionResult::Texts(texts) => {
                if texts.len() > 0 {
                    Ok(texts[0].as_str())
                } else {
                    Err(InterpreterError::execution_error("Text result is empty"))
                }
            },
            _ => Err(InterpreterError::execution_error("Result type is not texts")),
        }
    }

    /// The node at `index`: an error where the result holds texts, or no node there.
    pub fn node_at(&self, index: usize) -> (r: InterpreterResult<&NodeHandle>)
        ensures
            match r {
                Ok(node) => self@ matches SpecResult::Nodes(nodes) && index < nodes.len() && *node
                    == nodes[index as int],
                Err(e) => match self@ {
                    SpecResult::Nodes(nodes) => index >= nodes.len() && e@
                        == SpecInterpreterError::IndexOutOfBounds(index as int, nodes.len() as usize),
                    SpecResult::Texts(_) => e@ == not_nodes_error(),
                },
            },
    {
        match self {
            SelectionResult::Nodes(nodes) => {
                if index < nodes.len() {
                    Ok(&nodes[index])
                } else {
                    Err(InterpreterError::IndexOutOfBounds(index as i128, nodes.len()))
                }
            },
            _ => Err(InterpreterError::execution_error("Result type is not nodes")),
        }
    }

    /// The text at `index`: an error where the result holds nodes, or no text there.
    pub fn text_at(&self, index: usize) -> (r: InterpreterResult<&str>)
        ensures
            match r {
                Ok(text) => self@ matches SpecResult::Texts(texts) && index < texts.len() && text@
                    == texts[index as int],
                Err(e) => match self@ {
                    SpecResult::Texts(texts) => index >= texts.len() && e@
                        == SpecInterpreterError::IndexOutOfBounds(index as int, texts.len() as usize),
                    SpecResult::Nodes(_) => e@ == not_texts_error(),
                },
            },
    {
        match self {
            SelectionResult::Texts(texts) => {
                if index < texts.len() {
                    Ok(texts[index].as_str())
                } else {
                    Err(InterpreterError::IndexOutOfBounds(index as i128, texts.len()))
                }
            },
            _ => Err(InterpreterError::execution_error("Result type is not texts")),
        }
    }

    /// The result as one text: texts each on a line of its own; nodes as the
    /// list of their identities, or a note that there are none.
    pub fn to_string_result(&self) -> (s: String)
        ensures
            s@ == result_text(self@),
    {
        match self {
            SelectionResult::Texts(texts) => join_texts(texts, "\n"),
            SelectionResult::Nodes(nodes) => {
                if nodes.len() == 0 {
                    String::from_str("Empty result")
                } else {
                    let mut ids: Vec<String> = Vec::new();
                    let mut i: usize = 0;
                    while i < nodes.len()
                        invariant
                            i <= nodes.len(),
                            texts_view(ids@) == node_ids_text(nodes@).take(i as int),
                        decreases nodes.len() - i,
                    {
                        let id = decimal_string(nodes[i].index as i128);
                        proof {
                            lemma_texts_view_push(ids@, id);
                        }
                        ids.push(id);
                        i += 1;
                    }
                    proof {
                        assert(node_ids_text(nodes@).take(nodes.len() as int) == node_ids_text(
                            nodes@,
                        ));
                    }
                    let mut s = String::from_str("Nodes: [");
                    let list = join_texts(&ids, ", ");
                    s.append(list.as_str());
                    s.append("]");
                    s
                }
            },
        }
    }

    /// The items of the result, each as a result of its own.
    pub fn iter(&self) -> (items: Vec<SelectionResult>)
        ensures
            items@.len() == self@.count(),
            forall|i: int|
                0 <= i < items@.len() ==> #[trigger] items@[i]@ == match self@ {
                    SpecResult::Nodes(nodes) => SpecResult::Nodes(seq![nodes[i]]),
                    SpecResult::Texts(texts) => SpecResult::Texts(seq![texts[i]]),
                },
    {
        let mut items: Vec<SelectionResult> = Vec::new();
        match self {
            SelectionResult::Nodes(nodes) => {
                let mut i: usize = 0;
                while i < nodes.len()
                    invariant
                        i <= nodes.len(),
                        items@.len() == i,
                        forall|j: int|
                            0 <= j < i ==> #[trigger] items@[j]@ == SpecResult::Nodes(
                                seq![nodes@[j]],
                            ),
                    decreases nodes.len() - i,
                {
                    let mut one: Vec<NodeHandle> = Vec::new();
                    one.push(nodes[i]);
                    assert(one@ == seq![nodes@[i as int]]);
                    items.push(SelectionResult::Nodes(one));
                    i += 1;
                }
            },
            SelectionResult::Texts(texts) => {
                let mut i: usize = 0;
                while i < texts.len()
                    invariant
                        i <= texts.len(),
                        items@.len() == i,
                        forall|j: int|
                            0 <= j < i ==> #[trigger] items@[j]@ == SpecResult::Texts(
                                seq![texts@[j]@],
                            ),
                    decreases texts.len() - i,
                {
                    let mut one: Vec<String> = Vec::new();
                    one.push(texts[i].clone());
                    assert(texts_view(one@) == seq![texts@[i as int]@]);
                    items.push(SelectionResult::Texts(one));
                    i += 1;
                }
            },
        }
        items
    }
}

} // verus!
