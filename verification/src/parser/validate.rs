//! The validator: a walk over a parsed tree that rejects a second text
//! selector on a path, and an element selector after a text selector.
//!
//! A pipeline, an index and a call of a function hand the state on. The two
//! sides of a set operation each start from the state in front of the
//! operation, and after the operation the state is fresh.

use vstd::prelude::*;
use crate::parser::result_view;
use crate::parser::ast::{
    ElementNode, FunctionNode, IndexNode, Node, SelectorNode, SetOperationNode, TextNode,
    SpecNode, SpecSelector,
};
use crate::parser::error::{
    ParseError, SpecParseError, multiple_text_selectors_error, element_after_text_selector_error,
};

verus! {

/// What the validator knows on its way along a path.
#[derive(Debug, Clone, Copy)]
pub struct ValidationState {
    /// Whether a text selector has been seen on the path.
    pub has_text_selector: bool,
    /// The place that was current when it was seen.
    pub text_selector_pos: Option<(usize, usize)>,
    /// The place that errors are reported at.
    pub current_pos: (usize, usize),
}

/// The state at the start of a path.
pub open spec fn fresh_state() -> ValidationState {
    ValidationState { has_text_selector: false, text_selector_pos: None, current_pos: (0, 0) }
}

impl ValidationState {
    /// The state at the start of a path.
    pub fn new() -> (state: ValidationState)
        ensures
            state == fresh_state(),
    {
        ValidationState { has_text_selector: false, text_selector_pos: None, current_pos: (0, 0) }
    }

    /// Sets the place that errors are reported at.
    pub fn set_position(&mut self, line: usize, column: usize)
        ensures
            *final(self) == (ValidationState { current_pos: (line, column), ..*old(self) }),
    {
        self.current_pos = (line, column);
    }

    /// Records that a text selector has been seen.
    pub fn mark_text_selector(&mut self)
        ensures
            *final(self) == marked(*old(self)),
    {
        self.has_text_selector = true;
        self.text_selector_pos = Some(self.current_pos);
    }

    /// Whether an element selector may stand here.
    pub fn can_add_element_selector(&self) -> (b: bool)
        ensures
            b == !self.has_text_selector,
    {
        !self.has_text_selector
    }
}

/// The state once a text selector has been seen in state `st`.
pub open spec fn marked(st: ValidationState) -> ValidationState {
    ValidationState {
        has_text_selector: true,
        text_selector_pos: Some(st.current_pos),
        current_pos: st.current_pos,
    }
}

/// What validating a tree gives: nothing or an error, and the state afterwards.
pub struct Validated {
    pub result: Result<(), SpecParseError>,
    pub state: ValidationState,
}

/// The error for a second text selector, at the place current in `st`.
pub open spec fn second_text_error(st: ValidationState) -> SpecParseError {
    multiple_text_selectors_error(st.current_pos.0 as nat, st.current_pos.1 as nat)
}

/// The error for an element selector after a text selector, at the place current in `st`.
pub open spec fn element_after_text_error(st: ValidationState) -> SpecParseError {
    element_after_text_selector_error(st.current_pos.0 as nat, st.current_pos.1 as nat)
}

/// Validating `node` from state `st`.
pub open spec fn spec_validate(node: SpecNode, st: ValidationState) -> Validated
    decreases node,
{
    match node {
        SpecNode::Selector(SpecSelector::Element(_)) => {
            if st.has_text_selector {
                Validated { result: Err(element_after_text_error(st)), state: st }
            } else {
                Validated { result: Ok(()), state: st }
            }
        },
        SpecNode::Selector(SpecSelector::Text(_)) => {
            if st.has_text_selector {
                Validated { result: Err(second_text_error(st)), state: st }
            } else {
                Validated { result: Ok(()), state: marked(st) }
            }
        },
        SpecNode::Pipeline(left, right) => {
            let first = spec_validate(*left, st);
            if first.result is Err {
                first
            } else {
                spec_validate(*right, first.state)
            }
        },
        SpecNode::SetOperation(_, left, right) => {
            let first = spec_validate(*left, st);
            if first.result is Err {
                first
            } else {
                let second = spec_validate(*right, st);
                if second.result is Err {
                    second
                } else {
                    Validated { result: Ok(()), state: fresh_state() }
                }
            }
        },
        SpecNode::IndexSelection(inner, _) => spec_validate(*inner, st),
        SpecNode::FunctionCall(inner, _) => spec_validate(*inner, st),
    }
}

/// Whether the first selector that the validator meets in `node` is a text selector.
pub open spec fn leads_with_text(node: SpecNode) -> bool
    decreases node,
{
    match node {
        SpecNode::Selector(SpecSelector::Element(_)) => false,
        SpecNode::Selector(SpecSelector::Text(_)) => true,
        SpecNode::Pipeline(left, _) => leads_with_text(*left),
        SpecNode::SetOperation(_, left, _) => leads_with_text(*left),
        SpecNode::IndexSelection(inner, _) => leads_with_text(*inner),
        SpecNode::FunctionCall(inner, _) => leads_with_text(*inner),
    }
}

/// In a state in which a text selector has been seen, every tree is
/// rejected: one whose first selector is a text selector as a second text
/// selector, any other as an element selector after a text selector. The
/// state stays as it was.
pub proof fn lemma_rejected_after_text(node: SpecNode, st: ValidationState)
    requires
        st.has_text_selector,
    ensures
        spec_validate(node, st).state == st,
        spec_validate(node, st).result == Err::<(), SpecParseError>(
            if leads_with_text(node) {
                second_text_error(st)
            } else {
                element_after_text_error(st)
            },
        ),
    decreases node,
{
    match node {
        SpecNode::Selector(_) => {},
        SpecNode::Pipeline(left, _) => {
            lemma_rejected_after_text(*left, st);
        },
        SpecNode::SetOperation(_, left, _) => {
            lemma_rejected_after_text(*left, st);
        },
        SpecNode::IndexSelection(inner, _) => {
            lemma_rejected_after_text(*inner, st);
        },
        SpecNode::FunctionCall(inner, _) => {
            lemma_rejected_after_text(*inner, st);
        },
    }
}

/// A pipeline whose left side leaves a text selector seen, and whose right
/// side starts with a text selector, is rejected for its second text selector.
pub proof fn lemma_second_text_selector_rejected(
    left: SpecNode,
    right: SpecNode,
    st: ValidationState,
)
    requires
        spec_validate(left, st).result is Ok,
        spec_validate(left, st).state.has_text_selector,
        leads_with_text(right),
    ensures
        spec_validate(SpecNode::Pipeline(Box::new(left), Box::new(right)), st).result == Err::<
            (),
            SpecParseError,
        >(second_text_error(spec_validate(left, st).state)),
{
    lemma_rejected_after_text(right, spec_validate(left, st).state);
}

/// The validator of parsed trees.
pub struct SyntaxValidator {
    state: ValidationState,
}

impl SyntaxValidator {
    /// What the validator knows at this point.
    pub closed spec fn view_state(&self) -> ValidationState {
        self.state
    }

    /// A validator at the start of a path.
    pub fn new() -> (validator: SyntaxValidator)
        ensures
            validator.view_state() == fresh_state(),
    {
        SyntaxValidator { state: ValidationState::new() }
    }

    /// Validates `node`: at most one text selector on a path, and no
    /// element selector after it.
    pub fn validate(&mut self, node: &Node) -> (r: Result<(), ParseError>)
        ensures
            result_view(r) == spec_validate(node@, old(self).view_state()).result,
            final(self).view_state() == spec_validate(node@, old(self).view_state()).state,
    {
        self.visit_node(node)
    }

    /// Sets the place that errors are reported at.
    pub fn set_position(&mut self, line: usize, column: usize)
        ensures
            final(self).view_state() == (ValidationState {
                current_pos: (line, column),
                ..old(self).view_state()
            }),
    {
        self.state.set_position(line, column);
    }

    /// Validates a node of any kind.
    pub fn visit_node(&mut self, node: &Node) -> (r: Result<(), ParseError>)
        ensures
            result_view(r) == spec_validate(node@, old(self).view_state()).result,
            final(self).view_state() == spec_validate(node@, old(self).view_state()).state,
        decreases node,
    {
        match node {
            Node::Selector(selector) => self.visit_selector(selector),
            Node::Pipeline(left, right) => {
                match self.visit_node(left) {
                    Err(e) => Err(e),
                    Ok(_) => self.visit_node(right),
                }
            },
            Node::SetOperation(op) => self.visit_set_operation(op),
            Node::IndexSelection(inner, idx) => {
                match self.visit_node(inner) {
                    Err(e) => Err(e),
                    Ok(_) => self.visit_index(idx),
                }
            },
            Node::FunctionCall(inner, func) => {
                match self.visit_node(inner) {
                    Err(e) => Err(e),
                    Ok(_) => self.visit_function(func),
                }
            },
        }
    }

    /// Validates a selector.
    pub fn visit_selector(&mut self, node: &SelectorNode) -> (r: Result<(), ParseError>)
        ensures
            result_view(r) == spec_validate(
                SpecNode::Selector(node@),
                old(self).view_state(),
            ).result,
            final(self).view_state() == spec_validate(
                SpecNode::Selector(node@),
                old(self).view_state(),
            ).state,
    {
        match node {
            SelectorNode::ElementSelector(elem) => self.visit_element(elem),
            SelectorNode::TextSelector(text) => self.visit_text(text),
        }
    }

    /// An element selector may not follow a text selector.
    pub fn visit_element(&mut self, _node: &ElementNode) -> (r: Result<(), ParseError>)
        ensures
            final(self).view_state() == old(self).view_state(),
            match r {
                Ok(_) => !old(self).view_state().has_text_selector,
                Err(e) => old(self).view_state().has_text_selector && e@
                    == element_after_text_error(old(self).view_state()),
            },
    {
        if !self.state.can_add_element_selector() {
            let (line, column) = self.state.current_pos;
            return Err(ParseError::element_after_text_selector(line, column));
        }
        Ok(())
    }

    /// A text selector may not follow another; the first is recorded.
    pub fn visit_text(&mut self, _node: &TextNode) -> (r: Result<(), ParseError>)
        ensures
            match r {
                Ok(_) => !old(self).view_state().has_text_selector && final(self).view_state()
                    == marked(old(self).view_state()),
                Err(e) => old(self).view_state().has_text_selector && final(self).view_state()
                    == old(self).view_state() && e@ == second_text_error(old(self).view_state()),
            },
    {
        if self.state.has_text_selector {
            let (line, column) = self.state.current_pos;
            return Err(ParseError::multiple_text_selectors(line, column));
        }
        self.state.mark_text_selector();
        Ok(())
    }

    /// Validates the two sides of a set operation, each from the state in
    /// front of the operation, and leaves a fresh state.
    pub fn visit_set_operation(&mut self, node: &SetOperationNode) -> (r: Result<(), ParseError>)
        ensures
            result_view(r) == spec_validate(node@, old(self).view_state()).result,
            final(self).view_state() == spec_validate(node@, old(self).view_state()).state,
        decreases node,
    {
        let (left, right) = match node {
            SetOperationNode::Union(left, right) => (left, right),
            SetOperationNode::Intersection(left, right) => (left, right),
            SetOperationNode::Difference(left, right) => (left, right),
        };
        let state_in_front = self.state;
        match self.visit_node(left) {
            Err(e) => {
                return Err(e);
            },
            Ok(_) => {},
        }
        self.state = state_in_front;
        match self.visit_node(right) {
            Err(e) => {
                return Err(e);
            },
            Ok(_) => {},
        }
        self.state = ValidationState::new();
        Ok(())
    }

    /// An index changes nothing.
    pub fn visit_index(&mut self, _node: &IndexNode) -> (r: Result<(), ParseError>)
        ensures
            r is Ok,
            final(self).view_state() == old(self).view_state(),
    {
        Ok(())
    }

    /// A call of a function changes nothing.
    pub fn visit_function(&mut self, _node: &FunctionNode) -> (r: Result<(), ParseError>)
        ensures
            r is Ok,
            final(self).view_state() == old(self).view_state(),
    {
        Ok(())
    }
}

} // verus!
