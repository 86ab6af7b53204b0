//! Rendering: the live textual content of the document.
//!
//! Rendering walks the live paragraphs; each yields its live text fragments
//! in order.  Tombstones contribute nothing, and format markers are skipped
//! in the textual output.  A rendered fragment remembers where the tail of
//! its insertion lies: `last_fragment` is true when the source fragment
//! extends to the logical end of its insertion, which is where a tail caret
//! attaches.

use vstd::prelude::*;
use vstd::string::StringExecFns;
use crate::doc::{DocumentState, DocumentStateView};
use crate::ids::{NodeId, ParagraphId};
use crate::node::{TextNode, TextNodeView};
use crate::paragraph::{ParagraphNode, ParagraphNodeView};

verus! {

/// A live text fragment as it appears in the rendered document.
#[derive(Debug)]
pub struct RenderedFormattedText {
    pub node: NodeId,
    pub offset: u32,
    pub text: String,
    pub last_fragment: bool,
}

/// The mathematical value of a [`RenderedFormattedText`].
#[verifier::ext_equal]
pub struct RenderedFormattedTextView {
    pub node: NodeId,
    pub offset: u32,
    pub text: Seq<char>,
    pub last_fragment: bool,
}

impl View for RenderedFormattedText {
    type V = RenderedFormattedTextView;

    open spec fn view(&self) -> RenderedFormattedTextView {
        RenderedFormattedTextView {
            node: self.node,
            offset: self.offset,
            text: self.text@,
            last_fragment: self.last_fragment,
        }
    }
}

impl DeepView for RenderedFormattedText {
    type V = RenderedFormattedTextView;

    open spec fn deep_view(&self) -> RenderedFormattedTextView {
        self.view()
    }
}

/// A live paragraph as it appears in the rendered document.
#[derive(Debug)]
pub struct RenderedParagraph {
    pub paragraph_id: ParagraphId,
    pub content: Vec<RenderedFormattedText>,
}

/// The mathematical value of a [`RenderedParagraph`].
#[verifier::ext_equal]
pub struct RenderedParagraphView {
    pub paragraph_id: ParagraphId,
    pub content: Seq<RenderedFormattedTextView>,
}

impl View for RenderedParagraph {
    type V = RenderedParagraphView;

    open spec fn view(&self) -> RenderedParagraphView {
        RenderedParagraphView { paragraph_id: self.paragraph_id, content: self.content.deep_view() }
    }
}

impl DeepView for RenderedParagraph {
    type V = RenderedParagraphView;

    open spec fn deep_view(&self) -> RenderedParagraphView {
        self.view()
    }
}

/// The rendered document: its live paragraphs in order.
#[derive(Debug)]
pub struct RenderedDocument {
    pub paragraphs: Vec<RenderedParagraph>,
}

impl View for RenderedDocument {
    type V = Seq<RenderedParagraphView>;

    open spec fn view(&self) -> Seq<RenderedParagraphView> {
        self.paragraphs.deep_view()
    }
}

/// The rendered fragments of paragraph contents, from position `j` on: the
/// live text fragments in order, everything else skipped.
pub open spec fn spec_render_nodes_from(cs: Seq<TextNodeView>, j: int) -> Seq<
    RenderedFormattedTextView,
>
    decreases cs.len() - j,
{
    if j < 0 || j >= cs.len() {
        Seq::empty()
    } else {
        match cs[j] {
            TextNodeView::Text { node, offset, offset_after, text } => seq![
                RenderedFormattedTextView {
                    node,
                    offset,
                    text,
                    last_fragment: offset_after is None,
                },
            ] + spec_render_nodes_from(cs, j + 1),
            _ => spec_render_nodes_from(cs, j + 1),
        }
    }
}

/// The rendered paragraphs of the document, from paragraph `p` on: the live
/// paragraphs in order, tombstones skipped.
pub open spec fn spec_render_from(d: DocumentStateView, p: int) -> Seq<RenderedParagraphView>
    decreases d.paragraphs.len() - p,
{
    if p < 0 || p >= d.paragraphs.len() {
        Seq::empty()
    } else {
        let rest = spec_render_from(d, p + 1);
        if d.paragraphs[p].tombstone {
            rest
        } else {
            seq![
                RenderedParagraphView {
                    paragraph_id: d.paragraphs[p].paragraph_id,
                    content: spec_render_nodes_from(d.paragraphs[p].contents, 0),
                },
            ] + rest
        }
    }
}

/// The concatenated text of a rendered paragraph, from fragment `i` on.
pub open spec fn spec_paragraph_text_from(content: Seq<RenderedFormattedTextView>, i: int) -> Seq<
    char,
>
    decreases content.len() - i,
{
    if i < 0 || i >= content.len() {
        Seq::empty()
    } else {
        content[i].text + spec_paragraph_text_from(content, i + 1)
    }
}

/// The text of the rendered document, from paragraph `i` on, the paragraphs
/// joined by a carriage return, as the serialization for assertions fixes.
pub open spec fn spec_document_text_from(ps: Seq<RenderedParagraphView>, i: int) -> Seq<char>
    decreases ps.len() - i,
{
    if i < 0 || i >= ps.len() {
        Seq::empty()
    } else if i == ps.len() - 1 {
        spec_paragraph_text_from(ps[i].content, 0)
    } else {
        spec_paragraph_text_from(ps[i].content, 0) + seq!['\r'] + spec_document_text_from(
            ps,
            i + 1,
        )
    }
}

/// Well-formedness of a rendered fragment: its span fits the machine range
/// of offsets.
pub open spec fn rendered_fragment_wf(f: RenderedFormattedTextView) -> bool {
    f.offset + f.text.len() <= u32::MAX
}

/// Well-formedness of a sequence of rendered fragments.
pub open spec fn rendered_nodes_wf(s: Seq<RenderedFormattedTextView>) -> bool {
    forall|i: int| 0 <= i < s.len() ==> rendered_fragment_wf(#[trigger] s[i])
}

/// Well-formedness of a rendered document: every fragment of every
/// paragraph keeps its span within the machine range of offsets.
pub open spec fn rendered_doc_wf(ps: Seq<RenderedParagraphView>) -> bool {
    forall|q: int| 0 <= q < ps.len() ==> rendered_nodes_wf((#[trigger] ps[q]).content)
}

/// Rendering well-formed contents yields well-formed fragments.
pub proof fn lemma_render_nodes_wf(cs: Seq<TextNodeView>, j: int)
    requires
        forall|i: int| 0 <= i < cs.len() ==> (#[trigger] cs[i]).wf(),
    ensures
        rendered_nodes_wf(spec_render_nodes_from(cs, j)),
    decreases cs.len() - j,
{
    if 0 <= j < cs.len() {
        lemma_render_nodes_wf(cs, j + 1);
        let r = spec_render_nodes_from(cs, j);
        let rest = spec_render_nodes_from(cs, j + 1);
        match cs[j] {
            TextNodeView::Text { .. } => {
                assert(cs[j].wf());
                assert(rendered_fragment_wf(r[0]));
                assert(forall|i: int| 1 <= i < r.len() ==> r[i] == rest[i - 1]);
            },
            _ => {
                assert(r == rest);
            },
        }
    }
}

/// Rendering a well-formed document yields well-formed fragments.
pub proof fn lemma_render_wf(d: DocumentStateView, p: int)
    requires
        d.wf(),
    ensures
        rendered_doc_wf(spec_render_from(d, p)),
    decreases d.paragraphs.len() - p,
{
    if 0 <= p < d.paragraphs.len() {
        lemma_render_wf(d, p + 1);
        lemma_render_nodes_wf(d.paragraphs[p].contents, 0);
        let r = spec_render_from(d, p);
        let rest = spec_render_from(d, p + 1);
        if !d.paragraphs[p].tombstone {
            assert(rendered_nodes_wf(r[0].content));
            assert(forall|q: int| 1 <= q < r.len() ==> r[q] == rest[q - 1]);
        }
    }
}

impl RenderedFormattedText {
    /// Returns this fragment's text.
    pub fn to_text(&self) -> (r: String)
        ensures
            r@ == self@.text,
    {
        self.text.clone()
    }
}

impl RenderedParagraph {
    /// Returns the concatenated text of this paragraph's fragments.
    pub fn to_text(&self) -> (r: String)
        ensures
            r@ == spec_paragraph_text_from(self@.content, 0),
    {
        let mut result = String::new();
        let mut i: usize = 0;
        while i < self.content.len()
            invariant
                i <= self@.content.len(),
                result@ + spec_paragraph_text_from(self@.content, i as int)
                    == spec_paragraph_text_from(self@.content, 0),
        decreases self@.content.len() - i,
        {
            result.append(self.content[i].text.as_str());
            proof {
                assert(self@.content[i as int].text == self.content.deep_view()[i as int].text);
            }
            i = i + 1;
        }
        result
    }
}

impl RenderedDocument {
    /// Returns the text of the document: the live paragraphs' texts joined
    /// by a carriage return.
    pub fn to_text(&self) -> (r: String)
        ensures
            r@ == spec_document_text_from(self@, 0),
    {
        let mut result = String::new();
        let mut i: usize = 0;
        while i < self.paragraphs.len()
            invariant
                i <= self@.len(),
                i < self@.len() ==> result@ + spec_document_text_from(self@, i as int)
                    == spec_document_text_from(self@, 0),
                i == self@.len() ==> result@ == spec_document_text_from(self@, 0),
            decreases self@.len() - i,
        {
            let paragraph_text = self.paragraphs[i].to_text();
            result.append(paragraph_text.as_str());
            if i + 1 < self.paragraphs.len() {
                result.append("\r");
                proof {
                    reveal_strlit("\r");
                    assert("\r"@ =~= seq!['\r']);
                }
            }
            proof {
                assert(self@[i as int] == self.paragraphs.deep_view()[i as int]);
            }
            i = i + 1;
        }
        result
    }
}

impl DocumentState {
    /// Renders the live content of this document.
    pub fn render(&self) -> (r: RenderedDocument)
        ensures
            r@ == spec_render_from(self@, 0),
    {
        let mut paragraphs: Vec<RenderedParagraph> = Vec::new();
        let mut p: usize = 0;
        while p < self.paragraphs.len()
            invariant
                p <= self@.paragraphs.len(),
                paragraphs.deep_view() + spec_render_from(self@, p as int) =~= spec_render_from(
                    self@,
                    0,
                ),
            decreases self@.paragraphs.len() - p,
        {
            let pnode = &self.paragraphs[p];
            if !pnode.is_tombstone() {
                let contents = pnode.contents();
                let mut content: Vec<RenderedFormattedText> = Vec::new();
                let mut j: usize = 0;
                while j < contents.len()
                    invariant
                        j <= contents.deep_view().len(),
                        contents.deep_view() == self@.paragraphs[p as int].contents,
                        p < self@.paragraphs.len(),
                        content.deep_view() + spec_render_nodes_from(
                            contents.deep_view(),
                            j as int,
                        ) =~= spec_render_nodes_from(contents.deep_view(), 0),
                    decreases contents.deep_view().len() - j,
                {
                    match &contents[j] {
                        TextNode::Text { node, offset, offset_after, text } => {
                            let rendered = RenderedFormattedText {
                                node: *node,
                                offset: *offset,
                                text: text.clone(),
                                last_fragment: offset_after.is_none(),
                            };
                            proof {
                                assert(contents.deep_view()[j as int] == contents@[j as int]@);
                            }
                            content.push(rendered);
                            proof {
                                assert(content.deep_view() + spec_render_nodes_from(
                                    contents.deep_view(),
                                    j + 1,
                                ) =~= spec_render_nodes_from(contents.deep_view(), 0));
                            }
                        },
                        _ => {
                            proof {
                                assert(contents.deep_view()[j as int] == contents@[j as int]@);
                            }
                        },
                    }
                    j = j + 1;
                }
                let rendered_paragraph = RenderedParagraph {
                    paragraph_id: *pnode.paragraph_id(),
                    content,
                };
                proof {
                    assert(rendered_paragraph@ == RenderedParagraphView {
                        paragraph_id: self@.paragraphs[p as int].paragraph_id,
                        content: spec_render_nodes_from(self@.paragraphs[p as int].contents, 0),
                    });
                }
                paragraphs.push(rendered_paragraph);
                proof {
                    assert(paragraphs.deep_view() + spec_render_from(self@, p + 1)
                        =~= spec_render_from(self@, 0));
                }
            }
            p = p + 1;
        }
        RenderedDocument { paragraphs }
    }
}

} // verus!
