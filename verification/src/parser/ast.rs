//! The syntax tree of a selector, and the mathematical value of each of its parts.

use vstd::prelude::*;

verus! {

/// A literal: an argument of a function, or a part of an index.
#[derive(Debug, PartialEq)]
pub enum Literal {
    Int(i64),
    Str(String),
    /// A float, held as its decimal text.
    Float(String),
    Bool(bool),
    List(Vec<Literal>),
    Nil,
}

/// A selector that picks elements.
#[derive(Debug, PartialEq)]
pub enum ElementNode {
    /// By a class: the pattern, and whether it is a regular expression.
    Class(String, bool),
    /// By the id: the pattern, and whether it is a regular expression.
    Id(String, bool),
    /// By the tag name: the pattern, and whether it is a regular expression.
    Tag(String, bool),
    /// By an attribute: its name, the value it must have, if any, and
    /// whether the two are regular expressions.
    Attr(String, Option<String>, bool),
}

/// A selector that turns elements into text.
#[derive(Debug, PartialEq)]
pub enum TextNode {
    /// The text inside the element.
    Text,
    /// The value of `href`.
    Href,
    /// The value of `src`.
    Src,
    /// The value of the named attribute; the name may be a regular expression.
    AttrValue(String, bool),
}

/// A selector.
#[derive(Debug, PartialEq)]
pub enum SelectorNode {
    ElementSelector(ElementNode),
    TextSelector(TextNode),
}

/// An index: one position, several, or a range.
#[derive(Debug, PartialEq)]
pub enum IndexNode {
    Single(Literal),
    Multiple(Vec<Literal>),
    /// Start, end and step, each of which may be left out.
    Range(Option<Literal>, Option<Literal>, Option<Literal>),
}

/// A call of a function on texts.
#[derive(Debug, PartialEq)]
pub struct FunctionNode {
    pub name: String,
    pub arguments: Vec<Literal>,
}

/// An operation on the results of two expressions.
#[derive(Debug, PartialEq)]
pub enum SetOperationNode {
    Union(Box<Node>, Box<Node>),
    Intersection(Box<Node>, Box<Node>),
    Difference(Box<Node>, Box<Node>),
}

/// A node of the syntax tree.
#[derive(Debug, PartialEq)]
pub enum Node {
    Selector(Box<SelectorNode>),
    /// The right side runs on what the left side selected.
    Pipeline(Box<Node>, Box<Node>),
    SetOperation(Box<SetOperationNode>),
    IndexSelection(Box<Node>, Box<IndexNode>),
    FunctionCall(Box<Node>, FunctionNode),
}

/// The mathematical value of a [`Literal`].
pub enum SpecLiteral {
    Int(i64),
    Str(Seq<char>),
    Float(Seq<char>),
    Bool(bool),
    List(Seq<SpecLiteral>),
    Nil,
}

/// The mathematical value of an [`ElementNode`].
pub enum SpecElement {
    Class(Seq<char>, bool),
    Id(Seq<char>, bool),
    Tag(Seq<char>, bool),
    Attr(Seq<char>, Option<Seq<char>>, bool),
}

/// The mathematical value of a [`TextNode`].
pub enum SpecText {
    Text,
    Href,
    Src,
    AttrValue(Seq<char>, bool),
}

/// The mathematical value of a [`SelectorNode`].
pub enum SpecSelector {
    Element(SpecElement),
    Text(SpecText),
}

/// The mathematical value of an [`IndexNode`].
pub enum SpecIndex {
    Single(SpecLiteral),
    Multiple(Seq<SpecLiteral>),
    Range(Option<SpecLiteral>, Option<SpecLiteral>, Option<SpecLiteral>),
}

/// The mathematical value of a [`FunctionNode`].
pub struct SpecFunction {
    pub name: Seq<char>,
    pub arguments: Seq<SpecLiteral>,
}

/// The three operations on two results.
#[derive(Debug, Clone, Copy, PartialEq, Eq, Structural)]
pub enum SetOperator {
    Union,
    Intersection,
    Difference,
}

/// The mathematical value of a [`Node`]. A set operation stands in it as one
/// variant, with its operator.
pub enum SpecNode {
    Selector(SpecSelector),
    Pipeline(Box<SpecNode>, Box<SpecNode>),
    SetOperation(SetOperator, Box<SpecNode>, Box<SpecNode>),
    IndexSelection(Box<SpecNode>, SpecIndex),
    FunctionCall(Box<SpecNode>, SpecFunction),
}

/// The values of a list of literals.
pub open spec fn literals_view(v: Seq<Literal>) -> Seq<SpecLiteral>
    decreases v,
{
    Seq::new(
        v.len(),
        |i: int|
            if 0 <= i < v.len() {
                v[i].view()
            } else {
                SpecLiteral::Nil
            },
    )
}

/// The value of a literal that may be absent.
pub open spec fn optional_literal_view(l: Option<Literal>) -> Option<SpecLiteral> {
    match l {
        Some(l) => Some(l@),
        None => None,
    }
}

impl View for Literal {
    type V = SpecLiteral;

    open spec fn view(&self) -> SpecLiteral
        decreases self,
    {
        match self {
            Literal::Int(n) => SpecLiteral::Int(*n),
            Literal::Str(s) => SpecLiteral::Str(s@),
            Literal::Float(s) => SpecLiteral::Float(s@),
            Literal::Bool(b) => SpecLiteral::Bool(*b),
            Literal::List(v) => SpecLiteral::List(literals_view(v@)),
            Literal::Nil => SpecLiteral::Nil,
        }
    }
}

impl View for ElementNode {
    type V = SpecElement;

    open spec fn view(&self) -> SpecElement {
        match self {
            ElementNode::Class(p, r) => SpecElement::Class(p@, *r),
            ElementNode::Id(p, r) => SpecElement::Id(p@, *r),
            ElementNode::Tag(p, r) => SpecElement::Tag(p@, *r),
            ElementNode::Attr(n, v, r) => SpecElement::Attr(
                n@,
                match v {
                    Some(v) => Some(v@),
                    None => None,
                },
                *r,
            ),
        }
    }
}

impl View for TextNode {
    type V = SpecText;

    open spec fn view(&self) -> SpecText {
        match self {
            TextNode::Text => SpecText::Text,
            TextNode::Href => SpecText::Href,
            TextNode::Src => SpecText::Src,
            TextNode::AttrValue(n, r) => SpecText::AttrValue(n@, *r),
        }
    }
}

impl View for SelectorNode {
    type V = SpecSelector;

    open spec fn view(&self) -> SpecSelector {
        match self {
            SelectorNode::ElementSelector(e) => SpecSelector::Element(e@),
            SelectorNode::TextSelector(t) => SpecSelector::Text(t@),
        }
    }
}

impl View for IndexNode {
    type V = SpecIndex;

    open spec fn view(&self) -> SpecIndex {
        match self {
            IndexNode::Single(l) => SpecIndex::Single(l@),
            IndexNode::Multiple(v) => SpecIndex::Multiple(literals_view(v@)),
            IndexNode::Range(s, e, t) => SpecIndex::Range(
                optional_literal_view(*s),
                optional_literal_view(*e),
                optional_literal_view(*t),
            ),
        }
    }
}

impl View for FunctionNode {
    type V = SpecFunction;

    open spec fn view(&self) -> SpecFunction {
        SpecFunction { name: self.name@, arguments: literals_view(self.arguments@) }
    }
}

/// The value of a set operation.
pub open spec fn set_operation_view(op: SetOperationNode) -> SpecNode
    decreases op,
{
    match op {
        SetOperationNode::Union(l, r) => SpecNode::SetOperation(
            SetOperator::Union,
            Box::new(node_view(*l)),
            Box::new(node_view(*r)),
        ),
        SetOperationNode::Intersection(l, r) => SpecNode::SetOperation(
            SetOperator::Intersection,
            Box::new(node_view(*l)),
            Box::new(node_view(*r)),
        ),
        SetOperationNode::Difference(l, r) => SpecNode::SetOperation(
            SetOperator::Difference,
            Box::new(node_view(*l)),
            Box::new(node_view(*r)),
        ),
    }
}

/// The value of a node.
pub open spec fn node_view(node: Node) -> SpecNode
    decreases node,
{
    match node {
        Node::Selector(s) => SpecNode::Selector(s@),
        Node::Pipeline(l, r) => SpecNode::Pipeline(Box::new(node_view(*l)), Box::new(node_view(*r))),
        Node::SetOperation(op) => set_operation_view(*op),
        Node::IndexSelection(n, i) => SpecNode::IndexSelection(Box::new(node_view(*n)), i@),
        Node::FunctionCall(n, f) => SpecNode::FunctionCall(Box::new(node_view(*n)), f@),
    }
}

impl View for SetOperationNode {
    type V = SpecNode;

    open spec fn view(&self) -> SpecNode {
        set_operation_view(*self)
    }
}

impl View for Node {
    type V = SpecNode;

    open spec fn view(&self) -> SpecNode {
        node_view(*self)
    }
}

impl Clone for Literal {
    #[verifier::loop_isolation(false)]
    fn clone(&self) -> (r: Self)
        ensures
            r@ == self@,
        decreases self,
    {
        match self {
            Literal::Int(n) => Literal::Int(*n),
            Literal::Str(s) => Literal::Str(s.clone()),
            Literal::Float(s) => Literal::Float(s.clone()),
            Literal::Bool(b) => Literal::Bool(*b),
            Literal::List(v) => {
                let mut out: Vec<Literal> = Vec::new();
                let mut i: usize = 0;
                while i < v.len()
                    invariant
                        i <= v.len(),
                        out@.len() == i,
                        forall|j: int| 0 <= j < i ==> out@[j]@ == v@[j]@,
                    decreases v.len() - i,
                {
                    proof {
                        vstd::std_specs::vec::axiom_vec_index_decreases(*v, i as int);
                    }
                    let item = v[i].clone();
                    out.push(item);
                    i += 1;
                }
                assert(literals_view(out@) =~= literals_view(v@));
                Literal::List(out)
            },
            Literal::Nil => Literal::Nil,
        }
    }
}

/// Pushing a literal onto a list pushes its value onto the list's values.
pub proof fn lemma_literals_view_push(v: Seq<Literal>, l: Literal)
    ensures
        literals_view(v.push(l)) == literals_view(v).push(l@),
{
    assert(literals_view(v.push(l)) =~= literals_view(v).push(l@));
}

/// A copy of a list of literals.
pub fn clone_literals(items: &Vec<Literal>) -> (r: Vec<Literal>)
    ensures
        literals_view(r@) == literals_view(items@),
{
    let mut r: Vec<Literal> = Vec::new();
    let mut i: usize = 0;
    while i < items.len()
        invariant
            i <= items.len(),
            r@.len() == i,
            forall|j: int| 0 <= j < i ==> r@[j]@ == items@[j]@,
        decreases items.len() - i,
    {
        r.push(items[i].clone());
        i += 1;
    }
    assert(literals_view(r@) =~= literals_view(items@));
    r
}

/// A copy of a literal that may be absent.
pub fn clone_optional_literal(part: &Option<Literal>) -> (r: Option<Literal>)
    ensures
        optional_literal_view(r) == optional_literal_view(*part),
{
    match part {
        Some(l) => Some(l.clone()),
        None => None,
    }
}

impl Clone for ElementNode {
    fn clone(&self) -> (r: Self)
        ensures
            r@ == self@,
    {
        match self {
            ElementNode::Class(p, x) => ElementNode::Class(p.clone(), *x),
            ElementNode::Id(p, x) => ElementNode::Id(p.clone(), *x),
            ElementNode::Tag(p, x) => ElementNode::Tag(p.clone(), *x),
            ElementNode::Attr(n, v, x) => ElementNode::Attr(
                n.clone(),
                match v {
                    Some(v) => Some(v.clone()),
                    None => None,
                },
                *x,
            ),
        }
    }
}

impl Clone for TextNode {
    fn clone(&self) -> (r: Self)
        ensures
            r@ == self@,
    {
        match self {
            TextNode::Text => TextNode::Text,
            TextNode::Href => TextNode::Href,
            TextNode::Src => TextNode::Src,
            TextNode::AttrValue(n, x) => TextNode::AttrValue(n.clone(), *x),
        }
    }
}

impl Clone for SelectorNode {
    fn clone(&self) -> (r: Self)
        ensures
            r@ == self@,
    {
        match self {
            SelectorNode::ElementSelector(e) => SelectorNode::ElementSelector(e.clone()),
            SelectorNode::TextSelector(t) => SelectorNode::TextSelector(t.clone()),
        }
    }
}

impl Clone for IndexNode {
    fn clone(&self) -> (r: Self)
        ensures
            r@ == self@,
    {
        match self {
            IndexNode::Single(l) => IndexNode::Single(l.clone()),
            IndexNode::Multiple(items) => IndexNode::Multiple(clone_literals(items)),
            IndexNode::Range(s, e, t) => IndexNode::Range(
                clone_optional_literal(s),
                clone_optional_literal(e),
                clone_optional_literal(t),
            ),
        }
    }
}

impl Clone for FunctionNode {
    fn clone(&self) -> (r: Self)
        ensures
            r@ == self@,
    {
        FunctionNode { name: self.name.clone(), arguments: clone_literals(&self.arguments) }
    }
}

/// A copy of a tree.
pub fn clone_node(node: &Node) -> (r: Node)
    ensures
        r@ == node@,
    decreases node,
{
    match node {
        Node::Selector(s) => Node::Selector(Box::new((**s).clone())),
        Node::Pipeline(l, r) => Node::Pipeline(
            Box::new(clone_node(l)),
            Box::new(clone_node(r)),
        ),
        Node::SetOperation(op) => Node::SetOperation(Box::new(clone_set_operation(op))),
        Node::IndexSelection(n, i) => Node::IndexSelection(
            Box::new(clone_node(n)),
            Box::new((**i).clone()),
        ),
        Node::FunctionCall(n, f) => Node::FunctionCall(Box::new(clone_node(n)), f.clone()),
    }
}

/// A copy of a set operation.
pub fn clone_set_operation(operation: &SetOperationNode) -> (r: SetOperationNode)
    ensures
        r@ == operation@,
    decreases operation,
{
    match operation {
        SetOperationNode::Union(l, r) => SetOperationNode::Union(
            Box::new(clone_node(l)),
            Box::new(clone_node(r)),
        ),
        SetOperationNode::Intersection(l, r) => SetOperationNode::Intersection(
            Box::new(clone_node(l)),
            Box::new(clone_node(r)),
        ),
        SetOperationNode::Difference(l, r) => SetOperationNode::Difference(
            Box::new(clone_node(l)),
            Box::new(clone_node(r)),
        ),
    }
}

impl Clone for Node {
    fn clone(&self) -> (r: Self)
        ensures
            r@ == self@,
    {
        clone_node(self)
    }
}

impl Clone for SetOperationNode {
    fn clone(&self) -> (r: Self)
        ensures
            r@ == self@,
    {
        clone_set_operation(self)
    }
}

} // verus!
