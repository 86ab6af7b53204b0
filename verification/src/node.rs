//! Text nodes: the contents of a paragraph.
//!
//! A text node is a live text fragment, the tombstone of an erased fragment,
//! or a format-change marker.  A fragment covers a sub-range
//! `[offset, offset_after)` of the logically complete insertion its node
//! identifier stands for; `offset_after == None` means the fragment extends
//! to the current logical end of that insertion.  Splits partition the range
//! of an insertion but never change its identifier, so anchors into it keep
//! resolving.

use vstd::prelude::*;
use vstd::string::StrSliceExecFns;
use crate::anchor::TextAnchor;
use crate::format::{PartiallyFormattedText, PartiallyFormattedTextView, TextFormatChange};
use crate::ids::NodeId;

verus! {

/// One entry in a paragraph's contents.
#[derive(Debug)]
pub enum TextNode {
    FormatChange(TextFormatChange),
    Text { node: NodeId, offset: u32, offset_after: Option<u32>, text: String },
    Tombstone { node: NodeId, offset: u32, offset_after: Option<u32>, length: u32 },
}

/// The mathematical value of a [`TextNode`].
#[verifier::ext_equal]
pub enum TextNodeView {
    FormatChange(TextFormatChange),
    Text { node: NodeId, offset: u32, offset_after: Option<u32>, text: Seq<char> },
    Tombstone { node: NodeId, offset: u32, offset_after: Option<u32>, length: u32 },
}

impl View for TextNode {
    type V = TextNodeView;

    open spec fn view(&self) -> TextNodeView {
        match self {
            TextNode::FormatChange(f) => TextNodeView::FormatChange(*f),
            TextNode::Text { node, offset, offset_after, text } => TextNodeView::Text {
                node: *node,
                offset: *offset,
                offset_after: *offset_after,
                text: text@,
            },
            TextNode::Tombstone { node, offset, offset_after, length } => TextNodeView::Tombstone {
                node: *node,
                offset: *offset,
                offset_after: *offset_after,
                length: *length,
            },
        }
    }
}

impl DeepView for TextNode {
    type V = TextNodeView;

    open spec fn deep_view(&self) -> TextNodeView {
        self.view()
    }
}

/// Where a queried gap lies relative to a fragment's span.
#[derive(Clone, Copy, Debug, PartialEq, Eq, Structural)]
pub enum RelativePosition {
    /// The gap lies before the fragment's first character.
    Before,
    /// The gap lies just before the fragment's first character.
    AtBeginning,
    /// The gap lies strictly inside the fragment.
    Middle,
    /// The gap lies just after the fragment's last character.
    AtEnd,
    /// The gap lies after the fragment's last character.
    After,
}

impl TextNodeView {
    /// Whether this node is a live fragment or a tombstone, as opposed to a
    /// format-change marker.
    pub open spec fn is_fragment(self) -> bool {
        !(self is FormatChange)
    }

    /// The insertion this fragment belongs to.
    pub open spec fn frag_node(self) -> NodeId
        recommends
            self.is_fragment(),
    {
        match self {
            TextNodeView::Text { node, .. } => node,
            TextNodeView::Tombstone { node, .. } => node,
            TextNodeView::FormatChange(_) => NodeId { operation_id: 0, client_id: 0 },
        }
    }

    /// The absolute offset of the fragment's first character within its
    /// insertion.
    pub open spec fn frag_offset(self) -> u32
        recommends
            self.is_fragment(),
    {
        match self {
            TextNodeView::Text { offset, .. } => offset,
            TextNodeView::Tombstone { offset, .. } => offset,
            TextNodeView::FormatChange(_) => 0,
        }
    }

    /// The exclusive upper offset recorded on the fragment, if it was split.
    pub open spec fn frag_offset_after(self) -> Option<u32>
        recommends
            self.is_fragment(),
    {
        match self {
            TextNodeView::Text { offset_after, .. } => offset_after,
            TextNodeView::Tombstone { offset_after, .. } => offset_after,
            TextNodeView::FormatChange(_) => None,
        }
    }

    /// The number of characters the fragment covers.
    pub open spec fn frag_len(self) -> nat
        recommends
            self.is_fragment(),
    {
        match self {
            TextNodeView::Text { text, .. } => text.len(),
            TextNodeView::Tombstone { length, .. } => length as nat,
            TextNodeView::FormatChange(_) => 0,
        }
    }

    /// Well-formedness of a single node: a fragment's span fits the machine
    /// range of offsets, and a recorded upper offset agrees with the span.
    pub open spec fn wf(self) -> bool {
        self.is_fragment() ==> {
            &&& self.frag_offset() + self.frag_len() <= u32::MAX
            &&& match self.frag_offset_after() {
                Some(oa) => oa == self.frag_offset() + self.frag_len(),
                None => true,
            }
        }
    }

    /// Where the gap named by `offset` lies relative to this fragment.
    ///
    /// `None` names the gap after the logical end of the whole insertion, so
    /// it lies at the end of the fragment that extends to that logical end
    /// and after every other fragment.  `Some(k)` is compared against the
    /// closed span `[offset, offset + len]`: both boundary gaps belong to the
    /// fragment, which lets the gap between two adjacent fragments of one
    /// insertion resolve to the earlier of the two.
    pub open spec fn spec_relative_position(self, offset: Option<u32>) -> RelativePosition
        recommends
            self.is_fragment(),
    {
        match offset {
            None => if self.frag_offset_after() is None {
                RelativePosition::AtEnd
            } else {
                RelativePosition::After
            },
            Some(k) => if k < self.frag_offset() {
                RelativePosition::Before
            } else if k == self.frag_offset() {
                RelativePosition::AtBeginning
            } else if k < self.frag_offset() + self.frag_len() {
                RelativePosition::Middle
            } else if k == self.frag_offset() + self.frag_len() {
                RelativePosition::AtEnd
            } else {
                RelativePosition::After
            },
        }
    }

    /// Whether this node contains the given text anchor: the node is a
    /// fragment of the anchor's insertion and the anchor's gap falls within
    /// the fragment's closed span.
    pub open spec fn spec_contains(self, anchor: TextAnchor) -> bool {
        &&& self.is_fragment()
        &&& self.frag_node() == anchor.at_node
        &&& match self.spec_relative_position(anchor.at_index) {
            RelativePosition::AtBeginning => true,
            RelativePosition::Middle => true,
            RelativePosition::AtEnd => true,
            RelativePosition::Before => false,
            RelativePosition::After => false,
        }
    }

    /// The front half of splitting this fragment at absolute offset `k`.
    pub open spec fn spec_split_front(self, k: u32) -> TextNodeView
        recommends
            self.is_fragment(),
    {
        match self {
            TextNodeView::Text { node, offset, offset_after, text } => TextNodeView::Text {
                node,
                offset,
                offset_after: Some(k),
                text: text.subrange(0, k - offset),
            },
            TextNodeView::Tombstone { node, offset, offset_after, length } =>
                TextNodeView::Tombstone {
                node,
                offset,
                offset_after: Some(k),
                length: (k - offset) as u32,
            },
            TextNodeView::FormatChange(f) => TextNodeView::FormatChange(f),
        }
    }

    /// The back half of splitting this fragment at absolute offset `k`.
    pub open spec fn spec_split_back(self, k: u32) -> TextNodeView
        recommends
            self.is_fragment(),
    {
        match self {
            TextNodeView::Text { node, offset, offset_after, text } => TextNodeView::Text {
                node,
                offset: k,
                offset_after,
                text: text.subrange(k - offset, text.len() as int),
            },
            TextNodeView::Tombstone { node, offset, offset_after, length } =>
                TextNodeView::Tombstone {
                node,
                offset: k,
                offset_after,
                length: (length - (k - offset)) as u32,
            },
            TextNodeView::FormatChange(f) => TextNodeView::FormatChange(f),
        }
    }
}

impl TextNode {
    /// Returns where the gap named by `offset` lies relative to this
    /// fragment's span.
    pub fn relative_positon(&self, offset: Option<u32>) -> (r: RelativePosition)
        requires
            self@.is_fragment(),
            self@.wf(),
        ensures
            r == self@.spec_relative_position(offset),
    {
        let (self_offset, self_offset_after, length): (u32, Option<u32>, u32) = match self {
            TextNode::Text { node: _, offset, offset_after, text } => {
                let l = text.as_str().unicode_len();
                (*offset, *offset_after, l as u32)
            },
            TextNode::Tombstone { node: _, offset, offset_after, length } => (
                *offset,
                *offset_after,
                *length,
            ),
            TextNode::FormatChange(_) => (0, None, 0),
        };
        match offset {
            None => {
                if self_offset_after.is_none() {
                    RelativePosition::AtEnd
                } else {
                    RelativePosition::After
                }
            },
            Some(k) => {
                if k < self_offset {
                    RelativePosition::Before
                } else if k == self_offset {
                    RelativePosition::AtBeginning
                } else if k < self_offset + length {
                    RelativePosition::Middle
                } else if k == self_offset + length {
                    RelativePosition::AtEnd
                } else {
                    RelativePosition::After
                }
            },
        }
    }

    /// Returns whether this node contains the given text anchor.
    pub fn contains(&self, anchor: &TextAnchor) -> (r: bool)
        requires
            self@.wf(),
        ensures
            r == self@.spec_contains(*anchor),
    {
        let is_match: bool = match self {
            TextNode::Text { node, .. } => *node == anchor.at_node,
            TextNode::Tombstone { node, .. } => *node == anchor.at_node,
            TextNode::FormatChange(_) => false,
        };
        if is_match {
            match self.relative_positon(anchor.at_index) {
                RelativePosition::Before => false,
                RelativePosition::AtBeginning => true,
                RelativePosition::Middle => true,
                RelativePosition::AtEnd => true,
                RelativePosition::After => false,
            }
        } else {
            false
        }
    }

    /// Splits this fragment at absolute offset `split_offset`, which must
    /// lie within its closed span `[offset, offset + len]`.  The two halves
    /// keep the insertion's identifier and partition its range: the front
    /// covers `[offset, split_offset)` and the back covers the rest; a
    /// split at a boundary leaves one half empty.
    pub fn split_at(self, split_offset: u32) -> (r: (Self, Self))
        requires
            self@.is_fragment(),
            self@.wf(),
            match self@.spec_relative_position(Some(split_offset)) {
                RelativePosition::AtBeginning => true,
                RelativePosition::Middle => true,
                RelativePosition::AtEnd => true,
                RelativePosition::Before => false,
                RelativePosition::After => false,
            },
        ensures
            r.0@ == self@.spec_split_front(split_offset),
            r.1@ == self@.spec_split_back(split_offset),
            r.0@.wf(),
            r.1@.wf(),
    {
        match self {
            TextNode::Text { node, offset: self_offset, offset_after, text } => {
                let front_len = split_offset - self_offset;
                let total_len = text.as_str().unicode_len();
                let front_text = text.as_str().substring_char(0, front_len as usize).to_owned();
                let back_text = text.as_str().substring_char(front_len as usize, total_len)
                    .to_owned();
                let front = TextNode::Text {
                    node,
                    offset: self_offset,
                    offset_after: Some(split_offset),
                    text: front_text,
                };
                let back = TextNode::Text {
                    node,
                    offset: split_offset,
                    offset_after,
                    text: back_text,
                };
                (front, back)
            },
            TextNode::Tombstone { node, offset: self_offset, offset_after, length } => {
                let front_len = split_offset - self_offset;
                let front = TextNode::Tombstone {
                    node,
                    offset: self_offset,
                    offset_after: Some(split_offset),
                    length: front_len,
                };
                let back = TextNode::Tombstone {
                    node,
                    offset: split_offset,
                    offset_after,
                    length: length - front_len,
                };
                (front, back)
            },
            TextNode::FormatChange(f) => (
                TextNode::FormatChange(f),
                TextNode::FormatChange(f),
            ),
        }
    }

    /// The nodes a run of partially formatted text turns into: one complete
    /// live fragment covering the whole insertion.
    pub open spec fn spec_from_partially_formatted(p: PartiallyFormattedTextView) -> Seq<
        TextNodeView,
    > {
        seq![
            TextNodeView::Text { node: p.node_id, offset: 0, offset_after: None, text: p.text },
        ]
    }

    /// Turns a run of partially formatted text into paragraph contents.
    pub fn from_partially_formatted(partially_formatted: &PartiallyFormattedText) -> (r: Vec<
        TextNode,
    >)
        ensures
            r.deep_view() == Self::spec_from_partially_formatted(partially_formatted@),
    {
        let text: String = partially_formatted.text.clone();
        let result = vec![
            TextNode::Text { node: partially_formatted.node_id, offset: 0, offset_after: None, text },
        ];
        proof {
            assert(result.deep_view() =~= Self::spec_from_partially_formatted(
                partially_formatted@,
            ));
        }
        result
    }
}

} // verus!
