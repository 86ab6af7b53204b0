//! Text format attributes and partially formatted text runs.
//!
//! Format attributes form a fixed bitset; a format change carries a mask of
//! the bits it touches and the values those bits take, leaving the remaining
//! bits of the running format untouched.

use vstd::prelude::*;
use crate::ids::NodeId;

verus! {

/// A format attribute of the fixed bitset.
#[derive(Clone, Copy, Debug, PartialEq, Eq, Structural)]
pub enum TextFormat {
    Bold,
    Italic,
}

impl TextFormat {
    /// The bit this attribute occupies in a format bitset.
    pub open spec fn spec_mask(self) -> u32 {
        match self {
            TextFormat::Bold => 1u32,
            TextFormat::Italic => 2u32,
        }
    }

    /// Returns the bit this attribute occupies in a format bitset.
    pub fn mask(&self) -> (r: u32)
        ensures
            r == self.spec_mask(),
    {
        match self {
            TextFormat::Bold => 1u32,
            TextFormat::Italic => 2u32,
        }
    }
}

/// Sets the bits selected by `values_to_set` to the corresponding bits of
/// `value`, leaving the other bits of the running format untouched.
#[derive(Clone, Copy, Debug, PartialEq, Eq, Structural)]
pub struct TextFormatChange {
    pub values_to_set: u32,
    pub value: u32,
}

impl Default for TextFormatChange {
    /// The empty change: it touches no format bit.
    fn default() -> (r: Self)
        ensures
            r.values_to_set == 0,
            r.value == 0,
    {
        TextFormatChange { values_to_set: 0, value: 0 }
    }
}

/// The payload of a format-change action; the format taxonomy beyond the
/// fixed bitset is out of scope, so the payload carries the bitset change.
#[derive(Clone, Copy, Debug, PartialEq, Eq, Structural)]
pub struct Format {
    pub change: TextFormatChange,
}

/// A paragraph style assignment; the style taxonomy is out of scope, so the
/// payload is empty.
#[derive(Clone, Copy, Debug, PartialEq, Eq, Structural)]
pub struct ParagraphStyle {}

/// A run of inserted text that may change one format attribute but is still
/// affected by the surrounding format for the rest.
#[derive(Clone, Debug)]
pub struct PartiallyFormattedText {
    pub node_id: NodeId,
    pub text: String,
    pub format: TextFormatChange,
}

/// The mathematical value of a [`PartiallyFormattedText`].
#[verifier::ext_equal]
pub struct PartiallyFormattedTextView {
    pub node_id: NodeId,
    pub text: Seq<char>,
    pub format: TextFormatChange,
}

impl View for PartiallyFormattedText {
    type V = PartiallyFormattedTextView;

    open spec fn view(&self) -> PartiallyFormattedTextView {
        PartiallyFormattedTextView { node_id: self.node_id, text: self.text@, format: self.format }
    }
}

impl DeepView for PartiallyFormattedText {
    type V = PartiallyFormattedTextView;

    open spec fn deep_view(&self) -> PartiallyFormattedTextView {
        self.view()
    }
}

} // verus!
