//! The materialized document: an ordered sequence of paragraph slots plus
//! the local selection.
//!
//! Every replica starts from the same empty document, which holds only the
//! live origin paragraph.  Anchor resolution walks the document in order —
//! each paragraph slot first, then its text nodes — and resolves against
//! tombstones as well as live content, so operations anchored into erased
//! content still find their place.

use vstd::prelude::*;
use crate::anchor::{ClientSelection, TextAnchor, TextOrParagraphAnchor};
use crate::ids::{NodeId, ParagraphId};
use crate::iter::{DocumentStateIter, DocumentStateMutIter};
use crate::node::TextNodeView;
use crate::paragraph::{Paragraph, ParagraphNode, ParagraphNodeView};

verus! {

/// The position of a text node inside the document.
#[derive(Clone, Copy, Debug, PartialEq, Eq, Structural)]
pub struct TextNodePosition {
    pub paragraph_index: usize,
    pub text_node_index: usize,
}

/// A replica's materialized document.
#[derive(Debug)]
pub struct DocumentState {
    pub paragraphs: Vec<ParagraphNode>,
    pub client_selection: ClientSelection,
}

/// The mathematical value of a [`DocumentState`].
#[verifier::ext_equal]
pub struct DocumentStateView {
    pub paragraphs: Seq<ParagraphNodeView>,
    pub client_selection: ClientSelection,
}

impl View for DocumentState {
    type V = DocumentStateView;

    open spec fn view(&self) -> DocumentStateView {
        DocumentStateView {
            paragraphs: self.paragraphs.deep_view(),
            client_selection: self.client_selection,
        }
    }
}

impl DocumentStateView {
    /// Validity of a document: it holds at least one paragraph, the first
    /// paragraph is the origin, and every text node is well formed.
    pub open spec fn wf(self) -> bool {
        &&& self.paragraphs.len() >= 1
        &&& self.paragraphs[0].paragraph_id == ParagraphId::spec_origin()
        &&& forall|p: int| 0 <= p < self.paragraphs.len() ==> (
        #[trigger] self.paragraphs[p]).wf()
    }

    /// The empty document: the live, empty origin paragraph and no
    /// selection.
    pub open spec fn spec_empty() -> DocumentStateView {
        DocumentStateView {
            paragraphs: seq![Paragraph::spec_origin()],
            client_selection: ClientSelection::NotSelected,
        }
    }
}

/// The first index at or after `p` whose paragraph has the given identifier.
pub open spec fn spec_find_paragraph_from(
    ps: Seq<ParagraphNodeView>,
    pid: ParagraphId,
    p: int,
) -> Option<int>
    decreases ps.len() - p,
{
    if p < 0 || p >= ps.len() {
        None
    } else if ps[p].paragraph_id == pid {
        Some(p)
    } else {
        spec_find_paragraph_from(ps, pid, p + 1)
    }
}

/// The first index at or after `j` whose node contains the anchor.
pub open spec fn spec_find_in_contents_from(
    cs: Seq<TextNodeView>,
    anchor: TextAnchor,
    j: int,
) -> Option<int>
    decreases cs.len() - j,
{
    if j < 0 || j >= cs.len() {
        None
    } else if cs[j].spec_contains(anchor) {
        Some(j)
    } else {
        spec_find_in_contents_from(cs, anchor, j + 1)
    }
}

/// The first position, in document order at or after paragraph `p`, of a
/// node that contains the anchor.
pub open spec fn spec_find_fragment_from(
    ps: Seq<ParagraphNodeView>,
    anchor: TextAnchor,
    p: int,
) -> Option<(int, int)>
    decreases ps.len() - p,
{
    if p < 0 || p >= ps.len() {
        None
    } else {
        match spec_find_in_contents_from(ps[p].contents, anchor, 0) {
            Some(j) => Some((p, j)),
            None => spec_find_fragment_from(ps, anchor, p + 1),
        }
    }
}

/// The first index at or after `j` whose node is a fragment of the given
/// insertion.
pub open spec fn spec_find_node_in_contents_from(
    cs: Seq<TextNodeView>,
    node_id: NodeId,
    j: int,
) -> Option<int>
    decreases cs.len() - j,
{
    if j < 0 || j >= cs.len() {
        None
    } else if cs[j].is_fragment() && cs[j].frag_node() == node_id {
        Some(j)
    } else {
        spec_find_node_in_contents_from(cs, node_id, j + 1)
    }
}

/// The first position, in document order at or after paragraph `p`, of a
/// fragment of the given insertion.
pub open spec fn spec_find_text_node_from(
    ps: Seq<ParagraphNodeView>,
    node_id: NodeId,
    p: int,
) -> Option<(int, int)>
    decreases ps.len() - p,
{
    if p < 0 || p >= ps.len() {
        None
    } else {
        match spec_find_node_in_contents_from(ps[p].contents, node_id, 0) {
            Some(j) => Some((p, j)),
            None => spec_find_text_node_from(ps, node_id, p + 1),
        }
    }
}

/// The position `find` resolves an anchor to, if any: for a paragraph
/// anchor, the first paragraph with its identifier; for a text anchor, the
/// first node containing it.
pub open spec fn spec_find(d: DocumentStateView, anchor: TextOrParagraphAnchor) -> Option<
    (int, Option<int>),
> {
    match anchor {
        TextOrParagraphAnchor::ParagraphAnchor(a) => match spec_find_paragraph_from(
            d.paragraphs,
            a.paragraph_id,
            0,
        ) {
            Some(p) => Some((p, None)),
            None => None,
        },
        TextOrParagraphAnchor::TextAnchor(a) => match spec_find_fragment_from(
            d.paragraphs,
            a,
            0,
        ) {
            Some((p, j)) => Some((p, Some(j))),
            None => None,
        },
    }
}

impl DocumentState {
    /// Creates the empty document.
    pub fn empty() -> (r: Self)
        ensures
            r@ =~= DocumentStateView::spec_empty(),
            r@.wf(),
    {
        let mut paragraphs: Vec<ParagraphNode> = Vec::new();
        paragraphs.push(ParagraphNode::Paragraph(Paragraph::origin()));
        let r = Self { paragraphs, client_selection: ClientSelection::NotSelected };
        proof {
            assert(r@.paragraphs =~= seq![Paragraph::spec_origin()]);
        }
        r
    }

    /// Replaces the stored selection.
    pub fn change_selection(&mut self, client_selection: ClientSelection)
        ensures
            final(self)@.paragraphs == old(self)@.paragraphs,
            final(self)@.client_selection == client_selection,
    {
        self.client_selection = client_selection;
    }

    /// Returns an iterator positioned at the beginning of the document.
    pub fn iter(&self) -> (r: DocumentStateIter)
        ensures
            r.paragraph_index == 0,
            r.text_node_index is None,
    {
        DocumentStateIter { paragraph_index: 0, text_node_index: None }
    }

    /// Returns a mutating iterator positioned at the beginning of the
    /// document.
    pub fn mut_iter(&self) -> (r: DocumentStateMutIter)
        ensures
            r.paragraph_index == 0,
            r.text_node_index is None,
    {
        DocumentStateMutIter { paragraph_index: 0, text_node_index: None }
    }

    /// Finds the first index of the paragraph with the given identifier.
    pub fn find_paragraph_index(&self, pid: &ParagraphId) -> (r: Option<usize>)
        ensures
            match r {
                Some(p) => Some(p as int) == spec_find_paragraph_from(self@.paragraphs, *pid, 0),
                None => spec_find_paragraph_from(self@.paragraphs, *pid, 0) is None,
            },
    {
        let mut p: usize = 0;
        while p < self.paragraphs.len()
            invariant
                p <= self@.paragraphs.len(),
                spec_find_paragraph_from(self@.paragraphs, *pid, 0) == spec_find_paragraph_from(
                    self@.paragraphs,
                    *pid,
                    p as int,
                ),
            decreases self@.paragraphs.len() - p,
        {
            if *self.paragraphs[p].paragraph_id() == *pid {
                return Some(p);
            }
            p = p + 1;
        }
        None
    }

    /// Finds the position of the first fragment of the given insertion, in
    /// document order.
    pub fn find_text_node(&self, node_id: &NodeId) -> (r: Option<TextNodePosition>)
        ensures
            match r {
                Some(pos) => Some((pos.paragraph_index as int, pos.text_node_index as int))
                    == spec_find_text_node_from(self@.paragraphs, *node_id, 0),
                None => spec_find_text_node_from(self@.paragraphs, *node_id, 0) is None,
            },
    {
        let mut p: usize = 0;
        while p < self.paragraphs.len()
            invariant
                p <= self@.paragraphs.len(),
                spec_find_text_node_from(self@.paragraphs, *node_id, 0) == spec_find_text_node_from(
                    self@.paragraphs,
                    *node_id,
                    p as int,
                ),
            decreases self@.paragraphs.len() - p,
        {
            let contents = self.paragraphs[p].contents();
            let mut j: usize = 0;
            while j < contents.len()
                invariant
                    j <= contents.deep_view().len(),
                    contents.deep_view() == self@.paragraphs[p as int].contents,
                    p < self@.paragraphs.len(),
                    spec_find_node_in_contents_from(contents.deep_view(), *node_id, 0)
                        == spec_find_node_in_contents_from(contents.deep_view(), *node_id, j as int),
                decreases contents.deep_view().len() - j,
            {
                let is_match: bool = match &contents[j] {
                    crate::node::TextNode::Text { node, .. } => *node == *node_id,
                    crate::node::TextNode::Tombstone { node, .. } => *node == *node_id,
                    crate::node::TextNode::FormatChange(_) => false,
                };
                if is_match {
                    return Some(TextNodePosition { paragraph_index: p, text_node_index: j });
                }
                j = j + 1;
            }
            p = p + 1;
        }
        None
    }

    /// Finds the position of the first fragment containing the text anchor,
    /// in document order.
    pub fn find_fragment(&self, anchor: &TextAnchor) -> (r: Option<TextNodePosition>)
        requires
            self@.wf(),
        ensures
            match r {
                Some(pos) => Some((pos.paragraph_index as int, pos.text_node_index as int))
                    == spec_find_fragment_from(self@.paragraphs, *anchor, 0),
                None => spec_find_fragment_from(self@.paragraphs, *anchor, 0) is None,
            },
    {
        let mut p: usize = 0;
        while p < self.paragraphs.len()
            invariant
                p <= self@.paragraphs.len(),
                spec_find_fragment_from(self@.paragraphs, *anchor, 0) == spec_find_fragment_from(
                    self@.paragraphs,
                    *anchor,
                    p as int,
                ),
            decreases self@.paragraphs.len() - p,
        {
            let contents = self.paragraphs[p].contents();
            let mut j: usize = 0;
            while j < contents.len()
                invariant
                    j <= contents.deep_view().len(),
                    contents.deep_view() == self@.paragraphs[p as int].contents,
                    p < self@.paragraphs.len(),
                    spec_find_in_contents_from(contents.deep_view(), *anchor, 0)
                        == spec_find_in_contents_from(contents.deep_view(), *anchor, j as int),
                decreases contents.deep_view().len() - j,
            {
                if contents[j].contains(anchor) {
                    return Some(TextNodePosition { paragraph_index: p, text_node_index: j });
                }
                j = j + 1;
            }
            p = p + 1;
        }
        None
    }

    /// Resolves an anchor to the position of its containing paragraph or
    /// node, searching tombstones as well as live content.
    pub fn find(&self, anchor: &TextOrParagraphAnchor) -> (r: Option<DocumentStateIter>)
        requires
            self@.wf(),
        ensures
            match r {
                Some(it) => {
                    &&& spec_find(self@, *anchor) == Some(
                        (
                            it.paragraph_index as int,
                            match it.text_node_index {
                                Some(j) => Some(j as int),
                                None => None::<int>,
                            },
                        ),
                    )
                },
                None => spec_find(self@, *anchor) is None,
            },
    {
        match anchor {
            TextOrParagraphAnchor::ParagraphAnchor(a) => match self.find_paragraph_index(
                &a.paragraph_id,
            ) {
                Some(p) => Some(DocumentStateIter { paragraph_index: p, text_node_index: None }),
                None => None,
            },
            TextOrParagraphAnchor::TextAnchor(a) => match self.find_fragment(a) {
                Some(pos) => Some(
                    DocumentStateIter {
                        paragraph_index: pos.paragraph_index,
                        text_node_index: Some(pos.text_node_index),
                    },
                ),
                None => None,
            },
        }
    }

    /// Resolves an anchor to a mutating iterator at its position.
    pub fn find_mutable(&self, anchor: &TextOrParagraphAnchor) -> (r: Option<DocumentStateMutIter>)
        requires
            self@.wf(),
        ensures
            match r {
                Some(it) => {
                    &&& spec_find(self@, *anchor) == Some(
                        (
                            it.paragraph_index as int,
                            match it.text_node_index {
                                Some(j) => Some(j as int),
                                None => None::<int>,
                            },
                        ),
                    )
                },
                None => spec_find(self@, *anchor) is None,
            },
    {
        match self.find(anchor) {
            Some(it) => Some(
                DocumentStateMutIter {
                    paragraph_index: it.paragraph_index,
                    text_node_index: it.text_node_index,
                },
            ),
            None => None,
        }
    }
}

} // verus!
