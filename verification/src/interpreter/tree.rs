//! A parsed tree as plain values, and the document that holds its nodes.
//!
//! A document holds the nodes of a tree in the order in which a reader of the
//! source meets them: a node, then the tree of its first child, then that of
//! its second, and so on. Each node names its children by their indices.

use vstd::prelude::*;
use crate::interpreter::html::SpecDomNode;
use crate::interpreter::result::NodeKind;

verus! {

/// A node of a parsed tree, with all that stands below it.
pub struct SpecTree {
    pub kind: NodeKind,
    /// The local name of the tag, for an element; empty for any other node.
    pub name: Seq<char>,
    /// The attributes of an element in their order, each a local name and a value.
    pub attrs: Seq<(Seq<char>, Seq<char>)>,
    /// The text of a text node; empty for any other node.
    pub text: Seq<char>,
    /// The children, in their order.
    pub children: Seq<SpecTree>,
}

/// The node that a document holds for the root of `tree`, before any child
/// of it is there.
pub open spec fn childless(tree: SpecTree) -> SpecDomNode {
    SpecDomNode {
        kind: tree.kind,
        name: tree.name,
        attrs: tree.attrs,
        text: tree.text,
        children: Seq::empty(),
    }
}

/// `nodes`, with `child` as one more child, the last, of the node at `parent`.
pub open spec fn with_child(nodes: Seq<SpecDomNode>, parent: int, child: usize) -> Seq<
    SpecDomNode,
> {
    if 0 <= parent < nodes.len() {
        nodes.update(
            parent,
            SpecDomNode { children: nodes[parent].children.push(child), ..nodes[parent] },
        )
    } else {
        nodes
    }
}

/// `nodes`, and behind them the nodes of `tree`: its root, which becomes the
/// last child of the node at `parent`, and then the trees of its children,
/// one after the other.
pub open spec fn with_tree(nodes: Seq<SpecDomNode>, parent: int, tree: SpecTree) -> Seq<
    SpecDomNode,
>
    decreases tree, 0nat,
{
    with_trees(
        with_child(nodes.push(childless(tree)), parent, nodes.len() as usize),
        nodes.len() as int,
        tree.children,
        0,
    )
}

/// `nodes`, and behind them the nodes of the trees `trees[from..]`, one tree
/// after the other, each root a child of the node at `parent`.
pub open spec fn with_trees(
    nodes: Seq<SpecDomNode>,
    parent: int,
    trees: Seq<SpecTree>,
    from: int,
) -> Seq<SpecDomNode>
    decreases trees, trees.len() - from,
{
    if 0 <= from < trees.len() {
        with_trees(with_tree(nodes, parent, trees[from]), parent, trees, from + 1)
    } else {
        nodes
    }
}

/// The document that holds `tree`: its root at index 0, and every node
/// before the nodes below it and before the trees of its later siblings.
pub open spec fn document_of(tree: SpecTree) -> Seq<SpecDomNode> {
    with_trees(seq![childless(tree)], 0, tree.children, 0)
}

/// The trees `trees[from..]` as they wait to be added below the node at
/// `parent`: the last one first, so that `trees[from]` is at the end.
pub open spec fn waiting(trees: Seq<SpecTree>, from: int, parent: usize) -> Seq<(SpecTree, usize)>
    decreases trees.len() - from,
{
    if 0 <= from < trees.len() {
        waiting(trees, from + 1, parent).push((trees[from], parent))
    } else {
        Seq::empty()
    }
}

/// `nodes`, and behind them the nodes of the trees that wait in `stack`,
/// taken from its end, each with the parent that it waits for.
pub open spec fn completed(nodes: Seq<SpecDomNode>, stack: Seq<(SpecTree, usize)>) -> Seq<
    SpecDomNode,
>
    decreases stack.len(),
{
    if stack.len() == 0 {
        nodes
    } else {
        completed(with_tree(nodes, stack.last().1 as int, stack.last().0), stack.drop_last())
    }
}

/// To complete what waits for one parent on top of a stack is to add those
/// trees below that parent, and then to complete the rest of the stack.
pub proof fn lemma_completed_waiting(
    nodes: Seq<SpecDomNode>,
    below: Seq<(SpecTree, usize)>,
    trees: Seq<SpecTree>,
    from: int,
    parent: usize,
)
    requires
        0 <= from,
    ensures
        completed(nodes, below + waiting(trees, from, parent)) == completed(
            with_trees(nodes, parent as int, trees, from),
            below,
        ),
    decreases trees.len() - from,
{
    if from < trees.len() {
        let stack = below + waiting(trees, from, parent);
        assert(stack.last() == (trees[from], parent));
        assert(stack.drop_last() =~= below + waiting(trees, from + 1, parent));
        lemma_completed_waiting(
            with_tree(nodes, parent as int, trees[from]),
            below,
            trees,
            from + 1,
            parent,
        );
    } else {
        assert(below + waiting(trees, from, parent) =~= below);
    }
}

/// Every tree that waits for a parent is held with that parent.
pub proof fn lemma_waiting_parent(trees: Seq<SpecTree>, from: int, parent: usize, i: int)
    requires
        0 <= from,
        0 <= i < waiting(trees, from, parent).len(),
    ensures
        waiting(trees, from, parent)[i].1 == parent,
    decreases trees.len() - from,
{
    if from < trees.len() {
        if i < waiting(trees, from + 1, parent).len() {
            lemma_waiting_parent(trees, from + 1, parent, i);
        }
    }
}

/// A tree adds at least one node, and trees take none away.
pub proof fn lemma_tree_adds_nodes(nodes: Seq<SpecDomNode>, parent: int, tree: SpecTree)
    ensures
        with_tree(nodes, parent, tree).len() > nodes.len(),
    decreases tree, 0nat,
{
    lemma_trees_keep_nodes(
        with_child(nodes.push(childless(tree)), parent, nodes.len() as usize),
        nodes.len() as int,
        tree.children,
        0,
    );
}

/// Trees that are added take no node away.
pub proof fn lemma_trees_keep_nodes(
    nodes: Seq<SpecDomNode>,
    parent: int,
    trees: Seq<SpecTree>,
    from: int,
)
    ensures
        with_trees(nodes, parent, trees, from).len() >= nodes.len(),
    decreases trees, trees.len() - from,
{
    if 0 <= from < trees.len() {
        lemma_tree_adds_nodes(nodes, parent, trees[from]);
        lemma_trees_keep_nodes(with_tree(nodes, parent, trees[from]), parent, trees, from + 1);
    }
}

/// Every tree that waits adds at least one node.
pub proof fn lemma_completed_is_longer(nodes: Seq<SpecDomNode>, stack: Seq<(SpecTree, usize)>)
    ensures
        completed(nodes, stack).len() >= nodes.len() + stack.len(),
    decreases stack.len(),
{
    if stack.len() > 0 {
        lemma_tree_adds_nodes(nodes, stack.last().1 as int, stack.last().0);
        lemma_completed_is_longer(
            with_tree(nodes, stack.last().1 as int, stack.last().0),
            stack.drop_last(),
        );
    }
}

} // verus!
