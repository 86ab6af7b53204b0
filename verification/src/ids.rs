//! Totally ordered identifiers for operations, text nodes and paragraphs.
//!
//! An identifier is a pair `(operation_id, client_id)` ordered
//! lexicographically by `operation_id`, then `client_id`.  The same pair names
//! the operation itself, the text node an insertion creates, and the paragraph
//! a paragraph insertion creates; the reserved pair `(0, 0)` names the origin
//! paragraph present in every replica from creation.

use vstd::prelude::*;

verus! {

/// Identifies an operation and the text node it created.
#[derive(Clone, Copy, Debug, PartialEq, Eq, Structural, PartialOrd, Ord, Hash)]
pub struct NodeId {
    pub operation_id: u64,
    pub client_id: u64,
}

/// Identifies a paragraph; a new paragraph reuses the identifier of the
/// operation that created it.
#[derive(Clone, Copy, Debug, PartialEq, Eq, Structural, PartialOrd, Ord, Hash)]
pub struct ParagraphId {
    pub operation_id: u64,
    pub client_id: u64,
}

/// Identifies a prior action that another action refers to; an action's
/// identity equals its operation identifier.
#[derive(Clone, Copy, Debug, PartialEq, Eq, Structural, PartialOrd, Ord, Hash)]
pub struct ActionId {
    pub operation_id: u64,
    pub client_id: u64,
}

impl View for NodeId {
    type V = NodeId;

    open spec fn view(&self) -> NodeId {
        *self
    }
}

impl DeepView for NodeId {
    type V = NodeId;

    open spec fn deep_view(&self) -> NodeId {
        *self
    }
}

impl View for ParagraphId {
    type V = ParagraphId;

    open spec fn view(&self) -> ParagraphId {
        *self
    }
}

impl DeepView for ParagraphId {
    type V = ParagraphId;

    open spec fn deep_view(&self) -> ParagraphId {
        *self
    }
}

impl View for ActionId {
    type V = ActionId;

    open spec fn view(&self) -> ActionId {
        *self
    }
}

impl DeepView for ActionId {
    type V = ActionId;

    open spec fn deep_view(&self) -> ActionId {
        *self
    }
}

impl NodeId {
    /// The strict lexicographic order on identifier pairs.
    pub open spec fn spec_lt(self, other: NodeId) -> bool {
        self.operation_id < other.operation_id || (self.operation_id == other.operation_id
            && self.client_id < other.client_id)
    }

    /// Decides the strict lexicographic order.
    pub fn lt(&self, other: &NodeId) -> (r: bool)
        ensures
            r == self.spec_lt(*other),
    {
        self.operation_id < other.operation_id || (self.operation_id == other.operation_id
            && self.client_id < other.client_id)
    }
}

impl ParagraphId {
    /// Converts a node identifier into the paragraph identifier with the same
    /// pair of components.
    pub fn from_node_id(node_id: &NodeId) -> (r: Self)
        ensures
            r == node_id.spec_paragraph_id(),
    {
        Self { operation_id: node_id.operation_id, client_id: node_id.client_id }
    }

    /// The identifier of the origin paragraph.
    pub open spec fn spec_origin() -> ParagraphId {
        ParagraphId { operation_id: 0, client_id: 0 }
    }

    /// Returns the identifier of the origin paragraph, `(0, 0)`.
    pub fn origin_id() -> (r: Self)
        ensures
            r == Self::spec_origin(),
    {
        Self { operation_id: 0, client_id: 0 }
    }
}

impl NodeId {
    /// The paragraph identifier with the same components.
    pub open spec fn spec_paragraph_id(self) -> ParagraphId {
        ParagraphId { operation_id: self.operation_id, client_id: self.client_id }
    }
}

impl ParagraphId {
    /// The node-identifier form of this pair.
    pub open spec fn spec_as_node_id(self) -> NodeId {
        NodeId { operation_id: self.operation_id, client_id: self.client_id }
    }
}

impl ActionId {
    /// The node-identifier form of this pair.
    pub open spec fn spec_as_node_id(self) -> NodeId {
        NodeId { operation_id: self.operation_id, client_id: self.client_id }
    }

    /// Converts a node identifier into the action identifier with the same
    /// pair of components.
    pub fn from_node_id(node_id: &NodeId) -> (r: Self)
        ensures
            r.operation_id == node_id.operation_id,
            r.client_id == node_id.client_id,
    {
        Self { operation_id: node_id.operation_id, client_id: node_id.client_id }
    }
}

} // verus!
