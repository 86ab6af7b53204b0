//! Cursors over the document's iteration order.
//!
//! The document is iterated paragraph slot first, then that paragraph's text
//! nodes, then the next paragraph slot.  A cursor stores a paragraph index
//! and, optionally, a text-node index within it; `None` means the cursor
//! rests on the paragraph itself.  A cursor past the last paragraph stands
//! for "nowhere".  Cursors hold positions only and take the document they
//! walk as an argument.

use vstd::prelude::*;
use crate::anchor::ParagraphAnchorRelativity;
use crate::doc::DocumentState;
use crate::doc::DocumentStateView;
use crate::ids::{NodeId, ParagraphId};
use crate::node::{RelativePosition, TextNode, TextNodeView};
use crate::paragraph::ParagraphNode;

verus! {

/// A value summary of the entry a cursor rests on.
#[derive(Clone, Copy, Debug)]
pub enum ParagraphOrTextNode {
    Paragraph { paragraph_id: ParagraphId, tombstone: bool },
    Text { node: NodeId, offset: u32, offset_after: Option<u32> },
    Tombstone { node: NodeId, offset: u32, offset_after: Option<u32> },
    FormatChange,
}

/// The entry at position `(p, j)` of the document, if any: the paragraph
/// slot itself for `j == None`, else its `j`-th text node.
pub open spec fn spec_entry_at(d: DocumentStateView, p: int, j: Option<int>) -> Option<
    ParagraphOrTextNode,
> {
    if p < 0 || p >= d.paragraphs.len() {
        None
    } else {
        match j {
            None => Some(
                ParagraphOrTextNode::Paragraph {
                    paragraph_id: d.paragraphs[p].paragraph_id,
                    tombstone: d.paragraphs[p].tombstone,
                },
            ),
            Some(jj) => {
                let cs = d.paragraphs[p].contents;
                if jj < 0 || jj >= cs.len() {
                    None
                } else {
                    match cs[jj] {
                        TextNodeView::Text { node, offset, offset_after, .. } => Some(
                            ParagraphOrTextNode::Text { node, offset, offset_after },
                        ),
                        TextNodeView::Tombstone { node, offset, offset_after, .. } => Some(
                            ParagraphOrTextNode::Tombstone { node, offset, offset_after },
                        ),
                        TextNodeView::FormatChange(_) => Some(ParagraphOrTextNode::FormatChange),
                    }
                }
            },
        }
    }
}

/// Where a step backwards out of paragraph `p + 1` lands inside paragraph
/// `p`: on its last text node, or on the paragraph itself when it is empty.
pub open spec fn spec_last_entry_of(d: DocumentStateView, p: int) -> Option<int> {
    if 0 <= p < d.paragraphs.len() && d.paragraphs[p].contents.len() > 0 {
        Some(d.paragraphs[p].contents.len() - 1)
    } else {
        None
    }
}

/// One step forward in iteration order; a cursor past the end stays put.
pub open spec fn spec_next(d: DocumentStateView, p: int, j: Option<int>) -> (int, Option<int>) {
    if p < 0 || p >= d.paragraphs.len() {
        (p, j)
    } else {
        let cs = d.paragraphs[p].contents;
        match j {
            None => if cs.len() > 0 {
                (p, Some(0))
            } else {
                (p + 1, None)
            },
            Some(jj) => if jj + 1 < cs.len() {
                (p, Some(jj + 1))
            } else {
                (p + 1, None)
            },
        }
    }
}

/// One step backward in iteration order; stepping back from the very
/// beginning lands past the end, i.e. nowhere, and a cursor past the end
/// stays put.
pub open spec fn spec_prev(d: DocumentStateView, p: int, j: Option<int>) -> (int, Option<int>) {
    if p < 0 || p >= d.paragraphs.len() {
        (p, j)
    } else {
        match j {
            Some(jj) => if jj > 0 {
                (p, Some(jj - 1))
            } else {
                (p, None)
            },
            None => if p == 0 {
                (d.paragraphs.len() as int, None)
            } else {
                (p - 1, spec_last_entry_of(d, p - 1))
            },
        }
    }
}

/// The sub-measure that decreases while a skip stays inside one paragraph,
/// moving forward.
pub open spec fn skip_incr_measure(d: DocumentStateView, p: int, j: Option<int>) -> int {
    if 0 <= p < d.paragraphs.len() {
        match j {
            Some(jj) => if 0 <= jj <= d.paragraphs[p].contents.len() {
                d.paragraphs[p].contents.len() - jj
            } else {
                0
            },
            None => 0,
        }
    } else {
        0
    }
}

/// The position of the first entry, at or after `(p, j)` in iteration order,
/// that is neither a paragraph tombstone, nor inside one, nor a text-node
/// tombstone; past the end when the document ends first.  A whole tombstoned
/// paragraph is stepped over at once.
pub open spec fn spec_skip_incr(d: DocumentStateView, p: int, j: Option<int>) -> (int, Option<int>)
    decreases d.paragraphs.len() - p, skip_incr_measure(d, p, j),
{
    if p < 0 || p >= d.paragraphs.len() {
        (p, j)
    } else if d.paragraphs[p].tombstone {
        spec_skip_incr(d, p + 1, None)
    } else {
        let cs = d.paragraphs[p].contents;
        match j {
            None => (p, j),
            Some(jj) => if 0 <= jj < cs.len() && cs[jj] is Tombstone {
                if jj + 1 < cs.len() {
                    spec_skip_incr(d, p, Some(jj + 1))
                } else {
                    spec_skip_incr(d, p + 1, None)
                }
            } else {
                (p, j)
            },
        }
    }
}

/// The sub-measure that decreases while a skip stays inside one paragraph,
/// moving backward.
pub open spec fn skip_decr_measure(d: DocumentStateView, p: int, j: Option<int>) -> int {
    match j {
        Some(jj) => jj + 1,
        None => 0,
    }
}

/// The position of the first entry, at or before `(p, j)` in iteration
/// order, that is neither a paragraph tombstone, nor inside one, nor a
/// text-node tombstone; past the end (nowhere) when the beginning of the
/// document is reached first.
pub open spec fn spec_skip_decr(d: DocumentStateView, p: int, j: Option<int>) -> (int, Option<int>)
    decreases p, skip_decr_measure(d, p, j),
{
    if p < 0 || p >= d.paragraphs.len() {
        (p, j)
    } else if d.paragraphs[p].tombstone {
        if p == 0 {
            (d.paragraphs.len() as int, None)
        } else {
            spec_skip_decr(d, p - 1, spec_last_entry_of(d, p - 1))
        }
    } else {
        let cs = d.paragraphs[p].contents;
        match j {
            None => (p, j),
            Some(jj) => if 0 <= jj < cs.len() && cs[jj] is Tombstone {
                if jj == 0 {
                    (p, None)
                } else {
                    spec_skip_decr(d, p, Some(jj - 1))
                }
            } else {
                (p, j)
            },
        }
    }
}

/// A read-only cursor over the document's iteration order.
#[derive(Clone, Copy, Debug)]
pub struct DocumentStateIter {
    pub paragraph_index: usize,
    pub text_node_index: Option<usize>,
}

impl DocumentStateIter {
    /// This cursor's paragraph index as a mathematical integer.
    pub open spec fn spec_p(self) -> int {
        self.paragraph_index as int
    }

    /// This cursor's text-node index as a mathematical integer.
    pub open spec fn spec_j(self) -> Option<int> {
        match self.text_node_index {
            Some(j) => Some(j as int),
            None => None,
        }
    }

    /// Returns a summary of the entry this cursor rests on.
    pub fn current(&self, doc: &DocumentState) -> (r: Option<ParagraphOrTextNode>)
        ensures
            r == spec_entry_at(doc@, self.spec_p(), self.spec_j()),
    {
        if self.paragraph_index >= doc.paragraphs.len() {
            return None;
        }
        let pnode = &doc.paragraphs[self.paragraph_index];
        match self.text_node_index {
            None => Some(
                ParagraphOrTextNode::Paragraph {
                    paragraph_id: *pnode.paragraph_id(),
                    tombstone: pnode.is_tombstone(),
                },
            ),
            Some(j) => {
                let contents = pnode.contents();
                if j >= contents.len() {
                    return None;
                }
                proof {
                    assert(contents.deep_view()[j as int] == doc@.paragraphs[self.spec_p()].contents[j as int]);
                }
                match &contents[j] {
                    TextNode::Text { node, offset, offset_after, .. } => Some(
                        ParagraphOrTextNode::Text {
                            node: *node,
                            offset: *offset,
                            offset_after: *offset_after,
                        },
                    ),
                    TextNode::Tombstone { node, offset, offset_after, .. } => Some(
                        ParagraphOrTextNode::Tombstone {
                            node: *node,
                            offset: *offset,
                            offset_after: *offset_after,
                        },
                    ),
                    TextNode::FormatChange(_) => Some(ParagraphOrTextNode::FormatChange),
                }
            },
        }
    }

    /// Moves this cursor to the next paragraph slot.
    pub fn next_paragraph(&mut self, doc: &DocumentState)
        requires
            old(self).paragraph_index < doc@.paragraphs.len(),
        ensures
            final(self).spec_p() == old(self).spec_p() + 1,
            final(self).spec_j() is None,
    {
        let n = doc.paragraphs.len();
        proof {
            assert(self.paragraph_index < n);
        }
        self.paragraph_index = self.paragraph_index + 1;
        self.text_node_index = None;
    }

    /// Moves this cursor to the last entry of the previous paragraph.
    pub fn prev_paragraph(&mut self, doc: &DocumentState)
        requires
            0 < old(self).paragraph_index,
            old(self).paragraph_index <= doc@.paragraphs.len(),
        ensures
            final(self).spec_p() == old(self).spec_p() - 1,
            final(self).spec_j() == spec_last_entry_of(doc@, old(self).spec_p() - 1),
    {
        self.paragraph_index = self.paragraph_index - 1;
        let contents_len = doc.paragraphs[self.paragraph_index].contents().len();
        self.text_node_index = if contents_len > 0 {
            Some(contents_len - 1)
        } else {
            None
        };
    }

    /// Moves this cursor one step backward in iteration order.
    pub fn prev(&mut self, doc: &DocumentState)
        ensures
            (final(self).spec_p(), final(self).spec_j()) == spec_prev(
                doc@,
                old(self).spec_p(),
                old(self).spec_j(),
            ),
    {
        if self.paragraph_index >= doc.paragraphs.len() {
            return;
        }
        match self.text_node_index {
            Some(j) => {
                if j > 0 {
                    self.text_node_index = Some(j - 1);
                } else {
                    self.text_node_index = None;
                }
            },
            None => {
                if self.paragraph_index == 0 {
                    self.paragraph_index = doc.paragraphs.len();
                    self.text_node_index = None;
                } else {
                    self.prev_paragraph(doc);
                }
            },
        }
    }

    /// Moves this cursor one step forward in iteration order.
    pub fn next(&mut self, doc: &DocumentState)
        ensures
            (final(self).spec_p(), final(self).spec_j()) == spec_next(
                doc@,
                old(self).spec_p(),
                old(self).spec_j(),
            ),
    {
        if self.paragraph_index >= doc.paragraphs.len() {
            return;
        }
        let contents_len = doc.paragraphs[self.paragraph_index].contents().len();
        match self.text_node_index {
            Some(j) => {
                if contents_len > 0 && j < contents_len - 1 {
                    self.text_node_index = Some(j + 1);
                } else {
                    self.next_paragraph(doc);
                }
            },
            None => {
                if contents_len != 0 {
                    self.text_node_index = Some(0);
                } else {
                    self.next_paragraph(doc);
                }
            },
        }
    }

    /// Moves this cursor forward past tombstoned content to the first entry
    /// that is live (or a format marker), or past the end.
    pub fn skip_tombstone_incr(&mut self, doc: &DocumentState)
        ensures
            (final(self).spec_p(), final(self).spec_j()) == spec_skip_incr(
                doc@,
                old(self).spec_p(),
                old(self).spec_j(),
            ),
    {
        loop
            invariant
                spec_skip_incr(doc@, self.spec_p(), self.spec_j()) == spec_skip_incr(
                    doc@,
                    old(self).spec_p(),
                    old(self).spec_j(),
                ),
            decreases doc@.paragraphs.len() - self.spec_p(), skip_incr_measure(
                doc@,
                self.spec_p(),
                self.spec_j(),
            ),
        {
            if self.paragraph_index >= doc.paragraphs.len() {
                return;
            }
            if doc.paragraphs[self.paragraph_index].is_tombstone() {
                self.next_paragraph(doc);
                continue;
            }
            match self.text_node_index {
                None => {
                    return;
                },
                Some(j) => {
                    let contents = doc.paragraphs[self.paragraph_index].contents();
                    if j < contents.len() {
                        let is_tomb = match &contents[j] {
                            TextNode::Tombstone { .. } => true,
                            _ => false,
                        };
                        proof {
                            assert(contents.deep_view()[j as int]
                                == doc@.paragraphs[self.spec_p()].contents[j as int]);
                        }
                        if is_tomb {
                            if j + 1 < contents.len() {
                                self.text_node_index = Some(j + 1);
                            } else {
                                self.next_paragraph(doc);
                            }
                            continue;
                        }
                    }
                    return;
                },
            }
        }
    }

    /// Moves this cursor backward past tombstoned content to the first
    /// earlier entry that is live (or a format marker), or past the end when
    /// the beginning of the document is reached first.
    pub fn skip_tombstone_decr(&mut self, doc: &DocumentState)
        ensures
            (final(self).spec_p(), final(self).spec_j()) == spec_skip_decr(
                doc@,
                old(self).spec_p(),
                old(self).spec_j(),
            ),
    {
        loop
            invariant
                spec_skip_decr(doc@, self.spec_p(), self.spec_j()) == spec_skip_decr(
                    doc@,
                    old(self).spec_p(),
                    old(self).spec_j(),
                ),
            decreases self.spec_p(), skip_decr_measure(doc@, self.spec_p(), self.spec_j()),
        {
            if self.paragraph_index >= doc.paragraphs.len() {
                return;
            }
            if doc.paragraphs[self.paragraph_index].is_tombstone() {
                if self.paragraph_index == 0 {
                    self.paragraph_index = doc.paragraphs.len();
                    self.text_node_index = None;
                    return;
                }
                self.prev_paragraph(doc);
                continue;
            }
            match self.text_node_index {
                None => {
                    return;
                },
                Some(j) => {
                    let contents = doc.paragraphs[self.paragraph_index].contents();
                    if j < contents.len() {
                        let is_tomb = match &contents[j] {
                            TextNode::Tombstone { .. } => true,
                            _ => false,
                        };
                        proof {
                            assert(contents.deep_view()[j as int]
                                == doc@.paragraphs[self.spec_p()].contents[j as int]);
                        }
                        if is_tomb {
                            if j == 0 {
                                self.text_node_index = None;
                            } else {
                                self.text_node_index = Some(j - 1);
                            }
                            continue;
                        }
                    }
                    return;
                },
            }
        }
    }
}

/// A cursor used to edit the document at its position.
#[derive(Clone, Copy, Debug)]
pub struct DocumentStateMutIter {
    pub paragraph_index: usize,
    pub text_node_index: Option<usize>,
}

impl DocumentStateMutIter {
    /// This cursor's paragraph index as a mathematical integer.
    pub open spec fn spec_p(self) -> int {
        self.paragraph_index as int
    }

    /// This cursor's text-node index as a mathematical integer.
    pub open spec fn spec_j(self) -> Option<int> {
        match self.text_node_index {
            Some(j) => Some(j as int),
            None => None,
        }
    }

    /// Returns a summary of the entry this cursor rests on.
    pub fn current(&self, doc: &DocumentState) -> (r: Option<ParagraphOrTextNode>)
        ensures
            r == spec_entry_at(doc@, self.spec_p(), self.spec_j()),
    {
        let it = DocumentStateIter {
            paragraph_index: self.paragraph_index,
            text_node_index: self.text_node_index,
        };
        it.current(doc)
    }

    /// Moves this cursor to the next paragraph slot.
    pub fn next_paragraph(&mut self, doc: &DocumentState)
        requires
            old(self).paragraph_index < doc@.paragraphs.len(),
        ensures
            final(self).spec_p() == old(self).spec_p() + 1,
            final(self).spec_j() is None,
    {
        let n = doc.paragraphs.len();
        proof {
            assert(self.paragraph_index < n);
        }
        self.paragraph_index = self.paragraph_index + 1;
        self.text_node_index = None;
    }

    /// Moves this cursor one step forward in iteration order.
    pub fn next(&mut self, doc: &DocumentState)
        ensures
            (final(self).spec_p(), final(self).spec_j()) == spec_next(
                doc@,
                old(self).spec_p(),
                old(self).spec_j(),
            ),
    {
        let mut it = DocumentStateIter {
            paragraph_index: self.paragraph_index,
            text_node_index: self.text_node_index,
        };
        it.next(doc);
        self.paragraph_index = it.paragraph_index;
        self.text_node_index = it.text_node_index;
    }

    /// Inserts a node at a boundary of the paragraph this cursor rests on.
    pub fn insert_into_paragraph_at(
        &self,
        doc: &mut DocumentState,
        paragraph_anchor_relativity: ParagraphAnchorRelativity,
        node_to_insert: TextNode,
    )
        requires
            self.paragraph_index < old(doc)@.paragraphs.len(),
        ensures
            final(doc)@.paragraphs.len() == old(doc)@.paragraphs.len(),
            final(doc)@.client_selection == old(doc)@.client_selection,
            forall|p: int| 0 <= p < old(doc)@.paragraphs.len() && p != self.spec_p()
                ==> final(doc)@.paragraphs[p] == old(doc)@.paragraphs[p],
            final(doc)@.paragraphs[self.spec_p()].paragraph_id
                == old(doc)@.paragraphs[self.spec_p()].paragraph_id,
            final(doc)@.paragraphs[self.spec_p()].tombstone
                == old(doc)@.paragraphs[self.spec_p()].tombstone,
            final(doc)@.paragraphs[self.spec_p()].contents == match paragraph_anchor_relativity {
                ParagraphAnchorRelativity::AtBeginning => old(
                    doc,
                )@.paragraphs[self.spec_p()].contents.insert(0, node_to_insert@),
                ParagraphAnchorRelativity::AtEnd => old(
                    doc,
                )@.paragraphs[self.spec_p()].contents.push(node_to_insert@),
            },
    {
        let ghost old_ps = doc@.paragraphs;
        let pnode = doc.paragraphs.remove(self.paragraph_index);
        let (pid, tomb, mut cs): (ParagraphId, bool, Vec<TextNode>) = match pnode {
            ParagraphNode::Paragraph(p) => (p.paragraph_id, false, p.contents),
            ParagraphNode::ParagraphTombstone(p) => (p.paragraph_id, true, p.contents),
        };
        let ghost old_cs = cs.deep_view();
        match paragraph_anchor_relativity {
            ParagraphAnchorRelativity::AtBeginning => {
                cs.insert(0, node_to_insert);
                proof {
                    assert(cs.deep_view() =~= old_cs.insert(0, node_to_insert@));
                }
            },
            ParagraphAnchorRelativity::AtEnd => {
                cs.push(node_to_insert);
                proof {
                    assert(cs.deep_view() =~= old_cs.push(node_to_insert@));
                }
            },
        }
        let rebuilt = if tomb {
            ParagraphNode::ParagraphTombstone(
                crate::paragraph::ParagraphTombstone { paragraph_id: pid, contents: cs },
            )
        } else {
            ParagraphNode::Paragraph(
                crate::paragraph::Paragraph { paragraph_id: pid, contents: cs },
            )
        };
        doc.paragraphs.insert(self.paragraph_index, rebuilt);
        proof {
            assert(forall|p: int| 0 <= p < old_ps.len() && p != self.spec_p()
                ==> doc@.paragraphs[p] == old_ps[p]);
        }
    }

    /// Inserts a node at the given absolute offset of the fragment this
    /// cursor rests on: before it, after it, or splitting it in two.
    pub fn insert_into_current_text_node_at_offset(
        &self,
        doc: &mut DocumentState,
        offset: Option<u32>,
        node_to_insert: TextNode,
    )
        requires
            self.paragraph_index < old(doc)@.paragraphs.len(),
            old(doc)@.wf(),
            match self.spec_j() {
                Some(j) => 0 <= j < old(doc)@.paragraphs[self.spec_p()].contents.len()
                    && old(doc)@.paragraphs[self.spec_p()].contents[j].is_fragment() && match old(
                    doc,
                )@.paragraphs[self.spec_p()].contents[j].spec_relative_position(offset) {
                    RelativePosition::AtBeginning => true,
                    RelativePosition::Middle => offset is Some,
                    RelativePosition::AtEnd => true,
                    RelativePosition::Before => false,
                    RelativePosition::After => false,
                },
                None => false,
            },
        ensures
            final(doc)@.paragraphs.len() == old(doc)@.paragraphs.len(),
            final(doc)@.client_selection == old(doc)@.client_selection,
            forall|p: int| 0 <= p < old(doc)@.paragraphs.len() && p != self.spec_p()
                ==> final(doc)@.paragraphs[p] == old(doc)@.paragraphs[p],
            final(doc)@.paragraphs[self.spec_p()].paragraph_id
                == old(doc)@.paragraphs[self.spec_p()].paragraph_id,
            final(doc)@.paragraphs[self.spec_p()].tombstone
                == old(doc)@.paragraphs[self.spec_p()].tombstone,
            ({
                let cs = old(doc)@.paragraphs[self.spec_p()].contents;
                let j = self.spec_j()->Some_0;
                final(doc)@.paragraphs[self.spec_p()].contents == match cs[j].spec_relative_position(
                    offset,
                ) {
                    RelativePosition::AtBeginning => cs.insert(j, node_to_insert@),
                    RelativePosition::Middle => cs.subrange(0, j) + seq![
                        cs[j].spec_split_front(offset->Some_0),
                        node_to_insert@,
                        cs[j].spec_split_back(offset->Some_0),
                    ] + cs.subrange(j + 1, cs.len() as int),
                    _ => cs.insert(j + 1, node_to_insert@),
                }
            }),
    {
        let ghost old_ps = doc@.paragraphs;
        let current_index = match self.text_node_index {
            Some(j) => j,
            None => 0,
        };
        let pnode = doc.paragraphs.remove(self.paragraph_index);
        let (pid, tomb, mut cs): (ParagraphId, bool, Vec<TextNode>) = match pnode {
            ParagraphNode::Paragraph(p) => (p.paragraph_id, false, p.contents),
            ParagraphNode::ParagraphTombstone(p) => (p.paragraph_id, true, p.contents),
        };
        let ghost old_cs = cs.deep_view();
        let cs_len = cs.len();
        proof {
            assert(current_index < cs_len);
        }
        let text_node = &cs[current_index];
        match text_node.relative_positon(offset) {
            RelativePosition::AtBeginning => {
                cs.insert(current_index, node_to_insert);
                proof {
                    assert(cs.deep_view() =~= old_cs.insert(current_index as int, node_to_insert@));
                }
            },
            RelativePosition::Middle => {
                let original = cs.remove(current_index);
                let split_offset = match offset {
                    Some(k) => k,
                    None => 0,
                };
                let (before, after) = original.split_at(split_offset);
                cs.insert(current_index, after);
                cs.insert(current_index, node_to_insert);
                cs.insert(current_index, before);
                proof {
                    assert(cs.deep_view() =~= old_cs.subrange(0, current_index as int) + seq![
                        old_cs[current_index as int].spec_split_front(split_offset),
                        node_to_insert@,
                        old_cs[current_index as int].spec_split_back(split_offset),
                    ] + old_cs.subrange(current_index as int + 1, old_cs.len() as int));
                }
            },
            _ => {
                cs.insert(current_index + 1, node_to_insert);
                proof {
                    assert(cs.deep_view() =~= old_cs.insert(
                        current_index as int + 1,
                        node_to_insert@,
                    ));
                }
            },
        }
        let rebuilt = if tomb {
            ParagraphNode::ParagraphTombstone(
                crate::paragraph::ParagraphTombstone { paragraph_id: pid, contents: cs },
            )
        } else {
            ParagraphNode::Paragraph(
                crate::paragraph::Paragraph { paragraph_id: pid, contents: cs },
            )
        };
        doc.paragraphs.insert(self.paragraph_index, rebuilt);
        proof {
            assert(forall|p: int| 0 <= p < old_ps.len() && p != self.spec_p()
                ==> doc@.paragraphs[p] == old_ps[p]);
        }
    }

    /// Removes the entry this cursor rests on: a text node, or a whole
    /// paragraph slot when the cursor rests on the paragraph itself.  When
    /// the removed text node was the last of its paragraph, the cursor moves
    /// on to the next paragraph.
    pub fn erase_current(&mut self, doc: &mut DocumentState)
        ensures
            final(doc)@.client_selection == old(doc)@.client_selection,
            match (
                spec_entry_at(old(doc)@, old(self).spec_p(), old(self).spec_j()),
                old(self).spec_j(),
            ) {
                (None, _) => final(doc)@ == old(doc)@ && *final(self) == *old(self),
                (Some(_), None) => final(doc)@.paragraphs == old(doc)@.paragraphs.remove(
                    old(self).spec_p(),
                ) && *final(self) == *old(self),
                (Some(_), Some(j)) => {
                    &&& final(doc)@.paragraphs.len() == old(doc)@.paragraphs.len()
                    &&& forall|p: int| 0 <= p < old(doc)@.paragraphs.len() && p != old(
                        self,
                    ).spec_p() ==> final(doc)@.paragraphs[p] == old(doc)@.paragraphs[p]
                    &&& final(doc)@.paragraphs[old(self).spec_p()].contents == old(
                        doc,
                    )@.paragraphs[old(self).spec_p()].contents.remove(j)
                    &&& final(doc)@.paragraphs[old(self).spec_p()].paragraph_id == old(
                        doc,
                    )@.paragraphs[old(self).spec_p()].paragraph_id
                    &&& final(doc)@.paragraphs[old(self).spec_p()].tombstone == old(
                        doc,
                    )@.paragraphs[old(self).spec_p()].tombstone
                },
            },
    {
        let has_current = {
            let it = DocumentStateIter {
                paragraph_index: self.paragraph_index,
                text_node_index: self.text_node_index,
            };
            match it.current(doc) {
                Some(_) => true,
                None => false,
            }
        };
        if !has_current {
            return;
        }
        let ghost old_ps = doc@.paragraphs;
        match self.text_node_index {
            Some(j) => {
                let pnode = doc.paragraphs.remove(self.paragraph_index);
                let (pid, tomb, mut cs): (ParagraphId, bool, Vec<TextNode>) = match pnode {
                    ParagraphNode::Paragraph(p) => (p.paragraph_id, false, p.contents),
                    ParagraphNode::ParagraphTombstone(p) => (p.paragraph_id, true, p.contents),
                };
                let ghost old_cs = cs.deep_view();
                cs.remove(j);
                proof {
                    assert(cs.deep_view() =~= old_cs.remove(j as int));
                }
                let remaining = cs.len();
                let rebuilt = if tomb {
                    ParagraphNode::ParagraphTombstone(
                        crate::paragraph::ParagraphTombstone { paragraph_id: pid, contents: cs },
                    )
                } else {
                    ParagraphNode::Paragraph(
                        crate::paragraph::Paragraph { paragraph_id: pid, contents: cs },
                    )
                };
                doc.paragraphs.insert(self.paragraph_index, rebuilt);
                proof {
                    assert(forall|p: int| 0 <= p < old_ps.len() && p != old(self).spec_p()
                        ==> doc@.paragraphs[p] == old_ps[p]);
                }
                if j >= remaining {
                    let n = doc.paragraphs.len();
                    proof {
                        assert(self.paragraph_index < n);
                    }
                    self.paragraph_index = self.paragraph_index + 1;
                    self.text_node_index = None;
                }
            },
            None => {
                doc.paragraphs.remove(self.paragraph_index);
            },
        }
    }
}

} // verus!
