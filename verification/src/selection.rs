//! Projection of the stored selection onto live content.
//!
//! An anchor may point into content that has since become a tombstone.
//! Before rendering or emitting operations, every stored anchor is
//! resolved: its own position is found (tombstones included) and, when its
//! direct target is live, the anchor is kept as stored.  Otherwise the
//! document is walked backwards past tombstoned content and the first live
//! entry is adopted with end-form anchors (the gap after a paragraph or
//! fragment); failing that, forwards from the anchor's position, adopting
//! the first live entry with beginning-form anchors; failing that, the
//! anchor falls back to the beginning of the origin paragraph.  A caret
//! resolves its one anchor; a range resolves each of its two boundaries.

use vstd::prelude::*;
use crate::anchor::{
    ClientSelection, ParagraphAnchor, ParagraphAnchorRelativity, TextAnchor, TextOrParagraphAnchor,
};
use crate::doc::{spec_find, DocumentState, DocumentStateView};
use crate::ids::ParagraphId;
use crate::iter::{spec_skip_decr, spec_skip_incr, DocumentStateIter};

verus! {

/// The anchor every resolution can fall back to: the beginning of the
/// origin paragraph, which exists in every replica from creation.
pub open spec fn spec_origin_anchor() -> TextOrParagraphAnchor {
    TextOrParagraphAnchor::ParagraphAnchor(
        ParagraphAnchor {
            paragraph_id: ParagraphId::spec_origin(),
            paragraph_anchor_relativity: ParagraphAnchorRelativity::AtBeginning,
        },
    )
}

/// Whether the entry at `(p, j)` is live content: a live paragraph itself,
/// or a live text fragment inside a live paragraph.
pub open spec fn spec_entry_live(d: DocumentStateView, p: int, j: Option<int>) -> bool {
    &&& 0 <= p < d.paragraphs.len()
    &&& !d.paragraphs[p].tombstone
    &&& match j {
        None => true,
        Some(jj) => 0 <= jj < d.paragraphs[p].contents.len() && d.paragraphs[p].contents[jj]
            is Text,
    }
}

/// The end-form anchor adopted from the entry at `(p, j)`, if it is live: a
/// live paragraph yields the gap at its end, a live fragment the gap after
/// its span.
pub open spec fn spec_adopt_previous(d: DocumentStateView, p: int, j: Option<int>) -> Option<
    TextOrParagraphAnchor,
> {
    if !spec_entry_live(d, p, j) {
        None
    } else {
        match j {
            None => Some(
                TextOrParagraphAnchor::ParagraphAnchor(
                    ParagraphAnchor {
                        paragraph_id: d.paragraphs[p].paragraph_id,
                        paragraph_anchor_relativity: ParagraphAnchorRelativity::AtEnd,
                    },
                ),
            ),
            Some(jj) => Some(
                TextOrParagraphAnchor::TextAnchor(
                    TextAnchor {
                        at_node: d.paragraphs[p].contents[jj].frag_node(),
                        at_index: d.paragraphs[p].contents[jj].frag_offset_after(),
                    },
                ),
            ),
        }
    }
}

/// The beginning-form anchor adopted from the entry at `(p, j)`, if it is
/// live: a live paragraph yields the gap at its beginning, a live fragment
/// the gap before its span.
pub open spec fn spec_adopt_following(d: DocumentStateView, p: int, j: Option<int>) -> Option<
    TextOrParagraphAnchor,
> {
    if !spec_entry_live(d, p, j) {
        None
    } else {
        match j {
            None => Some(
                TextOrParagraphAnchor::ParagraphAnchor(
                    ParagraphAnchor {
                        paragraph_id: d.paragraphs[p].paragraph_id,
                        paragraph_anchor_relativity: ParagraphAnchorRelativity::AtBeginning,
                    },
                ),
            ),
            Some(jj) => Some(
                TextOrParagraphAnchor::TextAnchor(
                    TextAnchor {
                        at_node: d.paragraphs[p].contents[jj].frag_node(),
                        at_index: Some(d.paragraphs[p].contents[jj].frag_offset()),
                    },
                ),
            ),
        }
    }
}

/// The live anchor a stored anchor projects to: itself when its direct
/// target is live, else the nearest live entry, backwards with end forms
/// first, then forwards with beginning forms, and finally the origin
/// fallback.
pub open spec fn spec_resolve_anchor(
    d: DocumentStateView,
    a: TextOrParagraphAnchor,
) -> TextOrParagraphAnchor {
    match spec_find(d, a) {
        None => spec_origin_anchor(),
        Some((p, j)) => if spec_entry_live(d, p, j) {
            a
        } else {
            let back = spec_skip_decr(d, p, j);
            match spec_adopt_previous(d, back.0, back.1) {
                Some(adopted) => adopted,
                None => {
                    let fwd = spec_skip_incr(d, p, j);
                    match spec_adopt_following(d, fwd.0, fwd.1) {
                        Some(adopted) => adopted,
                        None => spec_origin_anchor(),
                    }
                },
            }
        },
    }
}

/// The live projection of the stored selection: a caret resolves its
/// anchor, a range resolves each boundary.
pub open spec fn spec_non_tombstone_selection(d: DocumentStateView) -> ClientSelection {
    match d.client_selection {
        ClientSelection::NotSelected => ClientSelection::NotSelected,
        ClientSelection::Caret(a) => ClientSelection::Caret(spec_resolve_anchor(d, a)),
        ClientSelection::Range { begin, end } => ClientSelection::Range {
            begin: spec_resolve_anchor(d, begin),
            end: spec_resolve_anchor(d, end),
        },
    }
}

/// Returns whether the entry at the cursor's position is live content.
fn entry_live(doc: &DocumentState, it: &DocumentStateIter) -> (r: bool)
    ensures
        r == spec_entry_live(doc@, it.spec_p(), it.spec_j()),
{
    if it.paragraph_index >= doc.paragraphs.len() {
        return false;
    }
    let pnode = &doc.paragraphs[it.paragraph_index];
    if pnode.is_tombstone() {
        return false;
    }
    match it.text_node_index {
        None => true,
        Some(j) => {
            let contents = pnode.contents();
            if j >= contents.len() {
                return false;
            }
            proof {
                assert(contents.deep_view()[j as int] == doc@.paragraphs[it.spec_p()].contents[
                    j as int
                ]);
            }
            match &contents[j] {
                crate::node::TextNode::Text { .. } => true,
                _ => false,
            }
        },
    }
}

/// Adopts the end-form anchor at the cursor's position, if it is live.
fn adopt_previous(doc: &DocumentState, it: &DocumentStateIter) -> (r: Option<TextOrParagraphAnchor>)
    ensures
        r == spec_adopt_previous(doc@, it.spec_p(), it.spec_j()),
{
    if !entry_live(doc, it) {
        return None;
    }
    let pnode = &doc.paragraphs[it.paragraph_index];
    match it.text_node_index {
        None => Some(
            TextOrParagraphAnchor::ParagraphAnchor(
                ParagraphAnchor {
                    paragraph_id: *pnode.paragraph_id(),
                    paragraph_anchor_relativity: ParagraphAnchorRelativity::AtEnd,
                },
            ),
        ),
        Some(j) => {
            let contents = pnode.contents();
            proof {
                assert(contents.deep_view()[j as int] == doc@.paragraphs[it.spec_p()].contents[
                    j as int
                ]);
            }
            match &contents[j] {
                crate::node::TextNode::Text { node, offset_after, .. } => Some(
                    TextOrParagraphAnchor::TextAnchor(
                        TextAnchor { at_node: *node, at_index: *offset_after },
                    ),
                ),
                _ => None,
            }
        },
    }
}

/// Adopts the beginning-form anchor at the cursor's position, if it is
/// live.
fn adopt_following(doc: &DocumentState, it: &DocumentStateIter) -> (r: Option<
    TextOrParagraphAnchor,
>)
    ensures
        r == spec_adopt_following(doc@, it.spec_p(), it.spec_j()),
{
    if !entry_live(doc, it) {
        return None;
    }
    let pnode = &doc.paragraphs[it.paragraph_index];
    match it.text_node_index {
        None => Some(
            TextOrParagraphAnchor::ParagraphAnchor(
                ParagraphAnchor {
                    paragraph_id: *pnode.paragraph_id(),
                    paragraph_anchor_relativity: ParagraphAnchorRelativity::AtBeginning,
                },
            ),
        ),
        Some(j) => {
            let contents = pnode.contents();
            proof {
                assert(contents.deep_view()[j as int] == doc@.paragraphs[it.spec_p()].contents[
                    j as int
                ]);
            }
            match &contents[j] {
                crate::node::TextNode::Text { node, offset, .. } => Some(
                    TextOrParagraphAnchor::TextAnchor(
                        TextAnchor { at_node: *node, at_index: Some(*offset) },
                    ),
                ),
                _ => None,
            }
        },
    }
}

/// Returns the fallback anchor at the beginning of the origin paragraph.
fn origin_anchor() -> (r: TextOrParagraphAnchor)
    ensures
        r == spec_origin_anchor(),
{
    TextOrParagraphAnchor::ParagraphAnchor(
        ParagraphAnchor {
            paragraph_id: ParagraphId::origin_id(),
            paragraph_anchor_relativity: ParagraphAnchorRelativity::AtBeginning,
        },
    )
}

impl DocumentState {
    /// Projects one stored anchor onto live content.
    pub fn resolve_anchor(&self, anchor: &TextOrParagraphAnchor) -> (r: TextOrParagraphAnchor)
        requires
            self@.wf(),
        ensures
            r == spec_resolve_anchor(self@, *anchor),
    {
        match self.find(anchor) {
            None => origin_anchor(),
            Some(found) => {
                if entry_live(self, &found) {
                    return *anchor;
                }
                let mut back = found;
                back.skip_tombstone_decr(self);
                match adopt_previous(self, &back) {
                    Some(adopted) => adopted,
                    None => {
                        let mut fwd = found;
                        fwd.skip_tombstone_incr(self);
                        match adopt_following(self, &fwd) {
                            Some(adopted) => adopted,
                            None => origin_anchor(),
                        }
                    },
                }
            },
        }
    }

    /// Projects the stored selection onto live content: each stored anchor
    /// is kept when its direct target is live, else adopts the nearest live
    /// entry — backwards with end forms first, then forwards with beginning
    /// forms — and falls back to the beginning of the origin paragraph.
    pub fn get_non_tombstone_selection(&self) -> (r: ClientSelection)
        requires
            self@.wf(),
        ensures
            r == spec_non_tombstone_selection(self@),
    {
        match &self.client_selection {
            ClientSelection::NotSelected => ClientSelection::NotSelected,
            ClientSelection::Caret(a) => {
                let anchor = *a;
                ClientSelection::Caret(self.resolve_anchor(&anchor))
            },
            ClientSelection::Range { begin, end } => {
                let begin_anchor = *begin;
                let end_anchor = *end;
                ClientSelection::Range {
                    begin: self.resolve_anchor(&begin_anchor),
                    end: self.resolve_anchor(&end_anchor),
                }
            },
        }
    }
}

} // verus!
