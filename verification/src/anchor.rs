//! Anchors: position references that stay meaningful across concurrent edits.
//!
//! A text anchor names a gap inside (or at an end of) the logically complete
//! insertion a node identifier stands for; a paragraph anchor names a gap at
//! a boundary of a paragraph.  Anchors are carried inside operations instead
//! of positional indices, which is what makes the fold order-independent.

use vstd::prelude::*;
use crate::ids::{NodeId, ParagraphId};

verus! {

/// A gap within the insertion identified by `at_node`.
///
/// `at_index == Some(k)` names the gap immediately before character `k` of
/// the whole insertion; `None` names the gap after its last character,
/// wherever that currently ends, so that appended text stays adjacent.
#[derive(Clone, Copy, Debug)]
pub struct TextAnchor {
    pub at_node: NodeId,
    pub at_index: Option<u32>,
}

impl TextAnchor {
    /// Decides equality of two text anchors.
    pub fn equals(&self, other: &TextAnchor) -> (r: bool)
        ensures
            r == (*self == *other),
    {
        self.at_node == other.at_node && match (self.at_index, other.at_index) {
            (None, None) => true,
            (Some(a), Some(b)) => a == b,
            _ => false,
        }
    }
}

/// Which boundary of a paragraph a paragraph anchor names.
#[derive(Clone, Copy, Debug, PartialEq, Eq, Structural)]
pub enum ParagraphAnchorRelativity {
    AtBeginning,
    AtEnd,
}

/// A gap at a boundary of a paragraph, outside any text node.
#[derive(Clone, Copy, Debug)]
pub struct ParagraphAnchor {
    pub paragraph_id: ParagraphId,
    pub paragraph_anchor_relativity: ParagraphAnchorRelativity,
}

/// Either kind of anchor.
#[derive(Clone, Copy, Debug)]
pub enum TextOrParagraphAnchor {
    TextAnchor(TextAnchor),
    ParagraphAnchor(ParagraphAnchor),
}

impl TextOrParagraphAnchor {
    /// Whether this is a text anchor into the given node.
    pub open spec fn spec_is_text_anchor_for(self, node_id: NodeId) -> bool {
        match self {
            TextOrParagraphAnchor::TextAnchor(text_anchor) => text_anchor.at_node == node_id,
            TextOrParagraphAnchor::ParagraphAnchor(_) => false,
        }
    }

    /// Returns whether this is a text anchor into the given node.
    pub fn is_text_anchor_for(&self, node_id: &NodeId) -> (r: bool)
        ensures
            r == self.spec_is_text_anchor_for(*node_id),
    {
        match self {
            TextOrParagraphAnchor::TextAnchor(text_anchor) => text_anchor.at_node == *node_id,
            TextOrParagraphAnchor::ParagraphAnchor(_) => false,
        }
    }
}

/// The local selection of a client: nothing, a caret at a gap, or a range
/// between two gaps.
#[derive(Clone, Copy, Debug)]
pub enum ClientSelection {
    NotSelected,
    Caret(TextOrParagraphAnchor),
    Range { begin: TextOrParagraphAnchor, end: TextOrParagraphAnchor },
}

/// The caret every replica can fall back to: the beginning of the origin
/// paragraph, which exists from creation.
pub open spec fn spec_origin_caret() -> ClientSelection {
    ClientSelection::Caret(
        TextOrParagraphAnchor::ParagraphAnchor(
            ParagraphAnchor {
                paragraph_id: ParagraphId::spec_origin(),
                paragraph_anchor_relativity: ParagraphAnchorRelativity::AtBeginning,
            },
        ),
    )
}

/// Returns the fallback caret at the beginning of the origin paragraph.
pub fn origin_caret() -> (r: ClientSelection)
    ensures
        r == spec_origin_caret(),
{
    ClientSelection::Caret(
        TextOrParagraphAnchor::ParagraphAnchor(
            ParagraphAnchor {
                paragraph_id: ParagraphId::origin_id(),
                paragraph_anchor_relativity: ParagraphAnchorRelativity::AtBeginning,
            },
        ),
    )
}

} // verus!
