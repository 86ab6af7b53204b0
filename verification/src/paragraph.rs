//! Paragraphs: ordered sequences of text nodes, live or tombstoned.
//!
//! An erased paragraph becomes a tombstone with the same identifier and
//! retained contents, so anchors into it keep resolving.  The origin
//! paragraph, with identifier `(0, 0)`, exists in every replica from
//! creation.

use vstd::prelude::*;
use crate::format::{PartiallyFormattedText, PartiallyFormattedTextView};
use crate::ids::ParagraphId;
use crate::node::{TextNode, TextNodeView};

verus! {

/// The paragraphs a paragraph insertion creates: a fresh identifier and the
/// runs of text the paragraph starts with.
#[derive(Clone, Debug)]
pub struct NewParagraph {
    pub node_id: ParagraphId,
    pub text: Vec<PartiallyFormattedText>,
}

/// The mathematical value of a [`NewParagraph`].
#[verifier::ext_equal]
pub struct NewParagraphView {
    pub node_id: ParagraphId,
    pub text: Seq<PartiallyFormattedTextView>,
}

impl View for NewParagraph {
    type V = NewParagraphView;

    open spec fn view(&self) -> NewParagraphView {
        NewParagraphView { node_id: self.node_id, text: self.text.deep_view() }
    }
}

impl DeepView for NewParagraph {
    type V = NewParagraphView;

    open spec fn deep_view(&self) -> NewParagraphView {
        self.view()
    }
}

/// The complete live fragments that a sequence of text runs turns into, one
/// fragment per run, each covering its whole insertion.
pub open spec fn spec_nodes_of_runs(runs: Seq<PartiallyFormattedTextView>) -> Seq<TextNodeView> {
    Seq::new(
        runs.len(),
        |i: int| TextNodeView::Text {
            node: runs[i].node_id,
            offset: 0,
            offset_after: None,
            text: runs[i].text,
        },
    )
}

/// Turns a sequence of text runs into paragraph contents.
pub fn nodes_of_runs(runs: &Vec<PartiallyFormattedText>) -> (r: Vec<TextNode>)
    ensures
        r.deep_view() == spec_nodes_of_runs(runs.deep_view()),
{
    let mut result: Vec<TextNode> = Vec::new();
    let mut i: usize = 0;
    while i < runs.len()
        invariant
            i <= runs.len(),
            result.deep_view() =~= spec_nodes_of_runs(runs.deep_view().take(i as int)),
        decreases runs.len() - i,
    {
        let run = &runs[i];
        let text: String = run.text.clone();
        let ghost prev = result.deep_view();
        result.push(TextNode::Text { node: run.node_id, offset: 0, offset_after: None, text });
        i = i + 1;
        proof {
            assert(result.deep_view() =~= prev.push(
                TextNodeView::Text {
                    node: runs.deep_view()[i - 1].node_id,
                    offset: 0,
                    offset_after: None,
                    text: runs.deep_view()[i - 1].text,
                },
            ));
            assert(result.deep_view() =~= spec_nodes_of_runs(runs.deep_view().take(i as int)));
        }
    }
    proof {
        assert(runs.deep_view().take(runs.len() as int) =~= runs.deep_view());
        assert(result.deep_view() =~= spec_nodes_of_runs(runs.deep_view()));
    }
    result
}

/// A live paragraph.
#[derive(Debug)]
pub struct Paragraph {
    pub paragraph_id: ParagraphId,
    pub contents: Vec<TextNode>,
}

/// The grave of an erased paragraph; identifier and contents are retained so
/// anchors into it still resolve.
#[derive(Debug)]
pub struct ParagraphTombstone {
    pub paragraph_id: ParagraphId,
    pub contents: Vec<TextNode>,
}

/// A paragraph slot of the document: live or tombstoned.
#[derive(Debug)]
pub enum ParagraphNode {
    Paragraph(Paragraph),
    ParagraphTombstone(ParagraphTombstone),
}

/// The mathematical value of a paragraph slot.
#[verifier::ext_equal]
pub struct ParagraphNodeView {
    pub paragraph_id: ParagraphId,
    pub tombstone: bool,
    pub contents: Seq<TextNodeView>,
}

impl View for ParagraphNode {
    type V = ParagraphNodeView;

    open spec fn view(&self) -> ParagraphNodeView {
        match self {
            ParagraphNode::Paragraph(p) => ParagraphNodeView {
                paragraph_id: p.paragraph_id,
                tombstone: false,
                contents: p.contents.deep_view(),
            },
            ParagraphNode::ParagraphTombstone(pt) => ParagraphNodeView {
                paragraph_id: pt.paragraph_id,
                tombstone: true,
                contents: pt.contents.deep_view(),
            },
        }
    }
}

impl DeepView for ParagraphNode {
    type V = ParagraphNodeView;

    open spec fn deep_view(&self) -> ParagraphNodeView {
        self.view()
    }
}

impl ParagraphNodeView {
    /// Well-formedness of a paragraph slot: every node in it is well formed.
    pub open spec fn wf(self) -> bool {
        forall|i: int| 0 <= i < self.contents.len() ==> (#[trigger] self.contents[i]).wf()
    }

    /// A paragraph is empty when it contains no live characters: tombstones
    /// and format markers carry none, and a zero-length live fragment
    /// carries none either.
    pub open spec fn spec_is_empty(self) -> bool {
        forall|i: int| 0 <= i < self.contents.len() ==> !((#[trigger] self.contents[i]) is Text
            && self.contents[i]->Text_text.len() > 0)
    }
}

impl Paragraph {
    /// The paragraph a paragraph insertion describes: the fresh identifier
    /// and one complete fragment per text run.
    pub open spec fn spec_from_new_paragraph(p: NewParagraphView) -> ParagraphNodeView {
        ParagraphNodeView {
            paragraph_id: p.node_id,
            tombstone: false,
            contents: spec_nodes_of_runs(p.text),
        }
    }

    /// Materializes the paragraph a paragraph insertion describes.
    pub fn from_new_paragraph(p: &NewParagraph) -> (r: Self)
        ensures
            ParagraphNode::Paragraph(r)@ == Self::spec_from_new_paragraph(p@),
    {
        let contents = nodes_of_runs(&p.text);
        Self { paragraph_id: p.node_id, contents }
    }

    /// Returns whether this paragraph contains no live characters.
    pub fn is_empty(&self) -> (r: bool)
        ensures
            r == ParagraphNode::Paragraph(*self)@.spec_is_empty(),
    {
        let mut i: usize = 0;
        while i < self.contents.len()
            invariant
                i <= self.contents.len(),
                forall|j: int| 0 <= j < i ==> !((#[trigger] self.contents.deep_view()[j]) is Text
                    && self.contents.deep_view()[j]->Text_text.len() > 0),
            decreases self.contents.len() - i,
        {
            match &self.contents[i] {
                TextNode::Text { text, .. } => {
                    if !text.as_str().is_empty() {
                        proof {
                            assert(self.contents.deep_view()[i as int] is Text
                                && self.contents.deep_view()[i as int]->Text_text.len() > 0);
                        }
                        return false;
                    }
                    proof {
                        assert(self.contents.deep_view()[i as int]->Text_text.len() == 0);
                    }
                },
                _ => {
                    proof {
                        assert(!(self.contents.deep_view()[i as int] is Text));
                    }
                },
            }
            i = i + 1;
        }
        true
    }

    /// Turns this live paragraph into its tombstone, retaining identifier and
    /// contents.
    pub fn to_tombstone(self) -> (r: ParagraphTombstone)
        ensures
            r.paragraph_id == self.paragraph_id,
            r.contents.deep_view() == self.contents.deep_view(),
    {
        ParagraphTombstone { paragraph_id: self.paragraph_id, contents: self.contents }
    }

    /// The origin paragraph present in every replica from creation.
    pub open spec fn spec_origin() -> ParagraphNodeView {
        ParagraphNodeView {
            paragraph_id: ParagraphId::spec_origin(),
            tombstone: false,
            contents: Seq::empty(),
        }
    }

    /// Creates the origin paragraph.
    pub fn origin() -> (r: Self)
        ensures
            ParagraphNode::Paragraph(r)@ =~= Self::spec_origin(),
    {
        Self { paragraph_id: ParagraphId::origin_id(), contents: Vec::new() }
    }
}

impl ParagraphNode {
    /// Returns the identifier of this slot's paragraph.
    pub fn paragraph_id(&self) -> (r: &ParagraphId)
        ensures
            *r == self@.paragraph_id,
    {
        match self {
            ParagraphNode::Paragraph(p) => &p.paragraph_id,
            ParagraphNode::ParagraphTombstone(pt) => &pt.paragraph_id,
        }
    }

    /// Returns the ordered contents of this slot's paragraph.
    pub fn contents(&self) -> (r: &Vec<TextNode>)
        ensures
            r.deep_view() == self@.contents,
    {
        match self {
            ParagraphNode::Paragraph(p) => &p.contents,
            ParagraphNode::ParagraphTombstone(pt) => &pt.contents,
        }
    }

    /// Replaces the contents of this slot's paragraph, keeping its identifier
    /// and liveness.
    pub fn set_contents(&mut self, contents: Vec<TextNode>)
        ensures
            final(self)@.paragraph_id == old(self)@.paragraph_id,
            final(self)@.tombstone == old(self)@.tombstone,
            final(self)@.contents == contents.deep_view(),
    {
        match self {
            ParagraphNode::Paragraph(p) => {
                p.contents = contents;
            },
            ParagraphNode::ParagraphTombstone(pt) => {
                pt.contents = contents;
            },
        }
    }

    /// Returns whether this slot is a tombstone.
    pub fn is_tombstone(&self) -> (r: bool)
        ensures
            r == self@.tombstone,
    {
        match self {
            ParagraphNode::Paragraph(_) => false,
            ParagraphNode::ParagraphTombstone(_) => true,
        }
    }
}

} // verus!
