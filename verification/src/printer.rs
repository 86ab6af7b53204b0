//! Serialization of the rendered document with cursors, for assertions.
//!
//! Paragraphs are joined by a carriage return; inside a paragraph the
//! fragments' texts are concatenated.  The local caret prints as `|` at its
//! resolved gap; a range prints `[` at its start gap and `|` at its end gap,
//! and when both boundaries collapse onto one point only the first symbol
//! seen is emitted.  A tail caret (`at_index == None`) attaches after the
//! fragment marked as the last of its insertion.

use vstd::prelude::*;
use vstd::string::{StrSliceExecFns, StringExecFns};
use crate::anchor::{ClientSelection, ParagraphAnchorRelativity, TextOrParagraphAnchor};
use crate::render::{
    rendered_fragment_wf, rendered_nodes_wf, RenderedFormattedText, RenderedFormattedTextView,
    RenderedParagraphView,
};

verus! {

/// A cursor boundary to print, with its gap's absolute offset (`None` for
/// the tail of the insertion).
#[derive(Clone, Copy, Debug)]
pub enum Cursor {
    Caret(Option<u32>),
    RangeBegin(Option<u32>),
    RangeEnd(Option<u32>),
}

impl View for Cursor {
    type V = Cursor;

    open spec fn view(&self) -> Cursor {
        *self
    }
}

impl DeepView for Cursor {
    type V = Cursor;

    open spec fn deep_view(&self) -> Cursor {
        *self
    }
}

impl Cursor {
    /// The gap offset this cursor points at.
    pub open spec fn spec_offset(self) -> Option<u32> {
        match self {
            Cursor::Caret(offset) => offset,
            Cursor::RangeBegin(offset) => offset,
            Cursor::RangeEnd(offset) => offset,
        }
    }

    /// Returns the gap offset this cursor points at.
    pub fn get_offset(&self) -> (r: Option<u32>)
        ensures
            r == self.spec_offset(),
    {
        match self {
            Cursor::Caret(offset) => *offset,
            Cursor::RangeBegin(offset) => *offset,
            Cursor::RangeEnd(offset) => *offset,
        }
    }
}

/// Whether cursor `a` must print strictly before cursor `b`: offsets order
/// ascending and a tail cursor comes last.
pub open spec fn cursor_less(a: Cursor, b: Cursor) -> bool {
    match (a.spec_offset(), b.spec_offset()) {
        (Some(_), None) => true,
        (Some(x), Some(y)) => x < y,
        _ => false,
    }
}

/// Where a stable insertion places `c` in the sorted prefix: before the
/// first cursor that must print strictly after it.
pub open spec fn spec_insert_cursor(s: Seq<Cursor>, c: Cursor, i: int) -> Seq<Cursor>
    decreases s.len() - i,
{
    if i < 0 || i >= s.len() {
        s.push(c)
    } else if cursor_less(c, s[i]) {
        s.insert(i, c)
    } else {
        spec_insert_cursor(s, c, i + 1)
    }
}

/// The cursors in printing order: sorted by gap offset, tail cursors last,
/// cursors at one gap keeping their given order.
pub open spec fn spec_sort_cursors(s: Seq<Cursor>) -> Seq<Cursor>
    decreases s.len(),
{
    if s.len() == 0 {
        Seq::empty()
    } else {
        spec_insert_cursor(spec_sort_cursors(s.drop_last()), s.last(), 0)
    }
}

/// Tracks which selection symbols were already printed, so that a collapsed
/// range prints each boundary only once.
#[derive(Clone, Copy, Debug)]
pub struct RangePrinter {
    pub saw_caret: bool,
    pub saw_start: bool,
    pub saw_end: bool,
}

impl Default for RangePrinter {
    /// A printer that has printed nothing yet.
    fn default() -> (r: Self)
        ensures
            !r.saw_caret && !r.saw_start && !r.saw_end,
    {
        RangePrinter { saw_caret: false, saw_start: false, saw_end: false }
    }
}

/// What printing a range start emits, and the printer afterwards.
pub open spec fn spec_print_start_range(rp: RangePrinter) -> (RangePrinter, Seq<char>) {
    if !rp.saw_start {
        (
            RangePrinter { saw_start: true, ..rp },
            if rp.saw_end {
                seq![']']
            } else {
                seq!['[']
            },
        )
    } else {
        (rp, Seq::empty())
    }
}

/// What printing a range end emits, and the printer afterwards.
pub open spec fn spec_print_end_range(rp: RangePrinter) -> (RangePrinter, Seq<char>) {
    if !rp.saw_end {
        (RangePrinter { saw_end: true, ..rp }, seq!['|'])
    } else {
        (rp, Seq::empty())
    }
}

/// What printing a caret emits, and the printer afterwards.
pub open spec fn spec_print_caret(rp: RangePrinter) -> (RangePrinter, Seq<char>) {
    if !rp.saw_caret {
        (RangePrinter { saw_caret: true, ..rp }, seq!['|'])
    } else {
        (rp, Seq::empty())
    }
}

/// What printing the given cursor emits, and the printer afterwards.
pub open spec fn spec_print_cursor(rp: RangePrinter, cursor: Cursor) -> (RangePrinter, Seq<char>) {
    match cursor {
        Cursor::Caret(_) => spec_print_caret(rp),
        Cursor::RangeBegin(_) => spec_print_start_range(rp),
        Cursor::RangeEnd(_) => spec_print_end_range(rp),
    }
}

impl RangePrinter {
    /// Prints a range start symbol, unless one was printed before.
    pub fn print_start_range(&mut self) -> (r: String)
        ensures
            (*final(self), r@) == spec_print_start_range(*old(self)),
    {
        if !self.saw_start {
            self.saw_start = true;
            let symbol = if self.saw_end {
                "]"
            } else {
                "["
            };
            proof {
                reveal_strlit("]");
                reveal_strlit("[");
                assert("]"@ =~= seq![']']);
                assert("["@ =~= seq!['[']);
            }
            String::from_str(symbol)
        } else {
            String::new()
        }
    }

    /// Prints a range end symbol, unless one was printed before.
    pub fn print_end_range(&mut self) -> (r: String)
        ensures
            (*final(self), r@) == spec_print_end_range(*old(self)),
    {
        if !self.saw_end {
            self.saw_end = true;
            proof {
                reveal_strlit("|");
                assert("|"@ =~= seq!['|']);
            }
            String::from_str("|")
        } else {
            String::new()
        }
    }

    /// Prints a caret symbol, unless one was printed before.
    pub fn print_caret(&mut self) -> (r: String)
        ensures
            (*final(self), r@) == spec_print_caret(*old(self)),
    {
        if !self.saw_caret {
            self.saw_caret = true;
            proof {
                reveal_strlit("|");
                assert("|"@ =~= seq!['|']);
            }
            String::from_str("|")
        } else {
            String::new()
        }
    }

    /// Prints the given cursor's symbol.
    pub fn print_cursor(&mut self, cursor: Cursor) -> (r: String)
        ensures
            (*final(self), r@) == spec_print_cursor(*old(self), cursor),
    {
        match cursor {
            Cursor::Caret(_) => self.print_caret(),
            Cursor::RangeBegin(_) => self.print_start_range(),
            Cursor::RangeEnd(_) => self.print_end_range(),
        }
    }
}

/// What printing the fragment's text with the sorted cursors, from cursor
/// `ci` on, emits.  `printed` is the absolute offset printed so far, within
/// the fragment's span.  Each cursor first flushes the text up to its gap
/// (clamped to the span), then prints its symbol when its gap lies exactly
/// there; a tail cursor flushes the whole rest and prints only after the
/// fragment marked last of its insertion.  The rest of the text follows the
/// final cursor.
pub open spec fn spec_print_cursors_loop(
    p: RenderedFormattedTextView,
    cursors: Seq<Cursor>,
    ci: int,
    printed: int,
    rp: RangePrinter,
) -> (RangePrinter, Seq<char>)
    decreases cursors.len() - ci,
{
    let endpos = p.offset + p.text.len();
    if ci < 0 || ci >= cursors.len() {
        (rp, p.text.subrange(printed - p.offset, p.text.len() as int))
    } else {
        match cursors[ci].spec_offset() {
            Some(off) => {
                let upto = if off > endpos {
                    endpos as int
                } else if off < printed {
                    printed
                } else {
                    off as int
                };
                let seg = p.text.subrange(printed - p.offset, upto - p.offset);
                if off == upto {
                    let rc = spec_print_cursor(rp, cursors[ci]);
                    let rest = spec_print_cursors_loop(p, cursors, ci + 1, upto, rc.0);
                    (rest.0, seg + rc.1 + rest.1)
                } else {
                    let rest = spec_print_cursors_loop(p, cursors, ci + 1, upto, rp);
                    (rest.0, seg + rest.1)
                }
            },
            None => {
                let seg = p.text.subrange(printed - p.offset, p.text.len() as int);
                let rc = if p.last_fragment {
                    spec_print_cursor(rp, cursors[ci])
                } else {
                    (rp, Seq::<char>::empty())
                };
                let rest = spec_print_cursors_loop(p, cursors, ci + 1, endpos as int, rc.0);
                (rest.0, seg + rc.1 + rest.1)
            },
        }
    }
}

/// What printing the fragment's text with the given cursors emits: the
/// cursors are put in printing order, then woven into the text.
pub open spec fn spec_print_text_and_cursors(
    p: RenderedFormattedTextView,
    cursors: Seq<Cursor>,
    rp: RangePrinter,
) -> (RangePrinter, Seq<char>) {
    spec_print_cursors_loop(p, spec_sort_cursors(cursors), 0, p.offset as int, rp)
}

/// Inserts a cursor into the sorted prefix, keeping printing order stable.
fn insert_cursor(sorted: &mut Vec<Cursor>, c: Cursor)
    ensures
        final(sorted).deep_view() == spec_insert_cursor(old(sorted).deep_view(), c, 0),
{
    let ghost s0 = sorted.deep_view();
    let mut i: usize = 0;
    while i < sorted.len()
        invariant
            i <= sorted.deep_view().len(),
            sorted.deep_view() == s0,
            spec_insert_cursor(s0, c, 0) == spec_insert_cursor(s0, c, i as int),
        decreases sorted.deep_view().len() - i,
    {
        let less = match (c.get_offset(), sorted[i].get_offset()) {
            (Some(_), None) => true,
            (Some(x), Some(y)) => x < y,
            _ => false,
        };
        if less {
            sorted.insert(i, c);
            proof {
                assert(sorted.deep_view() =~= s0.insert(i as int, c));
            }
            return;
        }
        i = i + 1;
    }
    sorted.push(c);
    proof {
        assert(sorted.deep_view() =~= s0.push(c));
    }
}

/// Puts the cursors into printing order.
fn sort_cursors(cursors: &Vec<Cursor>) -> (r: Vec<Cursor>)
    ensures
        r.deep_view() == spec_sort_cursors(cursors.deep_view()),
{
    let mut sorted: Vec<Cursor> = Vec::new();
    let mut k: usize = 0;
    while k < cursors.len()
        invariant
            k <= cursors.deep_view().len(),
            sorted.deep_view() == spec_sort_cursors(cursors.deep_view().take(k as int)),
        decreases cursors.deep_view().len() - k,
    {
        insert_cursor(&mut sorted, cursors[k]);
        k = k + 1;
        proof {
            assert(cursors.deep_view().take(k as int).drop_last() =~= cursors.deep_view().take(
                k - 1,
            ));
            assert(cursors.deep_view().take(k as int).last() == cursors.deep_view()[k - 1]);
        }
    }
    proof {
        assert(cursors.deep_view().take(cursors.deep_view().len() as int) =~= cursors.deep_view());
    }
    sorted
}

/// Prints the fragment's text with the given cursor boundaries woven in at
/// their gaps.
pub fn print_text_and_cursors(
    p: &RenderedFormattedText,
    cursor_positions: Vec<Cursor>,
    rp: &mut RangePrinter,
) -> (r: String)
    requires
        rendered_fragment_wf(p@),
    ensures
        (*final(rp), r@) == spec_print_text_and_cursors(
            p@,
            cursor_positions.deep_view(),
            *old(rp),
        ),
{
    let sorted = sort_cursors(&cursor_positions);
    let ghost sorted_v = sorted.deep_view();
    let ghost rp0 = *rp;
    let text_len = p.text.as_str().unicode_len();
    let mut result = String::new();
    let mut printed: usize = 0;
    let mut ci: usize = 0;
    proof {
        assert(p@.text.len() == text_len);
    }
    while ci < sorted.len()
        invariant
            ci <= sorted_v.len(),
            sorted_v == sorted.deep_view(),
            printed <= text_len,
            text_len == p@.text.len(),
            p@.offset + text_len <= u32::MAX,
            ({
                let total = spec_print_cursors_loop(p@, sorted_v, 0, p@.offset as int, rp0);
                let rest = spec_print_cursors_loop(
                    p@,
                    sorted_v,
                    ci as int,
                    p@.offset + printed,
                    *rp,
                );
                total.0 == rest.0 && total.1 == result@ + rest.1
            }),
        decreases sorted_v.len() - ci,
    {
        let cursor = sorted[ci];
        match cursor.get_offset() {
            Some(off) => {
                let endpos = p.offset + (text_len as u32);
                let upto_abs: u32 = if off > endpos {
                    endpos
                } else if (off as usize) < (p.offset as usize) + printed {
                    p.offset + (printed as u32)
                } else {
                    off
                };
                let seg_from = printed;
                let seg_to = (upto_abs - p.offset) as usize;
                let seg = p.text.as_str().substring_char(seg_from, seg_to);
                result.append(seg);
                printed = seg_to;
                if off == upto_abs {
                    let symbol = rp.print_cursor(cursor);
                    result.append(symbol.as_str());
                }
            },
            None => {
                let seg = p.text.as_str().substring_char(printed, text_len);
                result.append(seg);
                printed = text_len;
                if p.last_fragment {
                    let symbol = rp.print_cursor(cursor);
                    result.append(symbol.as_str());
                }
            },
        }
        ci = ci + 1;
    }
    let remainder = p.text.as_str().substring_char(printed, text_len);
    result.append(remainder);
    result
}

/// What printing one fragment under the given selection emits: its text,
/// with the selection's boundaries woven in where they anchor into this
/// fragment's insertion.
pub open spec fn spec_print_text(
    p: RenderedFormattedTextView,
    selection: ClientSelection,
    rp: RangePrinter,
) -> (RangePrinter, Seq<char>) {
    match selection {
        ClientSelection::Caret(TextOrParagraphAnchor::TextAnchor(a)) => if a.at_node == p.node {
            spec_print_text_and_cursors(p, seq![Cursor::Caret(a.at_index)], rp)
        } else {
            (rp, p.text)
        },
        ClientSelection::Range { begin, end } => if begin.spec_is_text_anchor_for(p.node)
            || end.spec_is_text_anchor_for(p.node) {
            let begin_cursors: Seq<Cursor> = match begin {
                TextOrParagraphAnchor::TextAnchor(b) => if b.at_node == p.node {
                    seq![Cursor::RangeBegin(b.at_index)]
                } else {
                    Seq::empty()
                },
                _ => Seq::empty(),
            };
            let end_cursors: Seq<Cursor> = match end {
                TextOrParagraphAnchor::TextAnchor(e) => if e.at_node == p.node {
                    seq![Cursor::RangeEnd(e.at_index)]
                } else {
                    Seq::empty()
                },
                _ => Seq::empty(),
            };
            spec_print_text_and_cursors(p, begin_cursors + end_cursors, rp)
        } else {
            (rp, p.text)
        },
        _ => (rp, p.text),
    }
}

/// Prints one fragment under the given selection.
pub fn print_text(
    p: &RenderedFormattedText,
    selection: &ClientSelection,
    rp: &mut RangePrinter,
) -> (r: String)
    requires
        rendered_fragment_wf(p@),
    ensures
        (*final(rp), r@) == spec_print_text(p@, *selection, *old(rp)),
{
    match selection {
        ClientSelection::Caret(TextOrParagraphAnchor::TextAnchor(a)) => {
            if a.at_node == p.node {
                let cursors = vec![Cursor::Caret(a.at_index)];
                proof {
                    assert(cursors.deep_view() =~= seq![Cursor::Caret(a.at_index)]);
                }
                print_text_and_cursors(p, cursors, rp)
            } else {
                p.text.clone()
            }
        },
        ClientSelection::Range { begin, end } => {
            if begin.is_text_anchor_for(&p.node) || end.is_text_anchor_for(&p.node) {
                let mut cursors: Vec<Cursor> = Vec::new();
                match begin {
                    TextOrParagraphAnchor::TextAnchor(b) => {
                        if b.at_node == p.node {
                            cursors.push(Cursor::RangeBegin(b.at_index));
                        }
                    },
                    _ => {},
                }
                match end {
                    TextOrParagraphAnchor::TextAnchor(e) => {
                        if e.at_node == p.node {
                            cursors.push(Cursor::RangeEnd(e.at_index));
                        }
                    },
                    _ => {},
                }
                proof {
                    let begin_cursors: Seq<Cursor> = match *begin {
                        TextOrParagraphAnchor::TextAnchor(b) => if b.at_node == p@.node {
                            seq![Cursor::RangeBegin(b.at_index)]
                        } else {
                            Seq::empty()
                        },
                        _ => Seq::empty(),
                    };
                    let end_cursors: Seq<Cursor> = match *end {
                        TextOrParagraphAnchor::TextAnchor(e) => if e.at_node == p@.node {
                            seq![Cursor::RangeEnd(e.at_index)]
                        } else {
                            Seq::empty()
                        },
                        _ => Seq::empty(),
                    };
                    assert(cursors.deep_view() =~= begin_cursors + end_cursors);
                }
                print_text_and_cursors(p, cursors, rp)
            } else {
                p.text.clone()
            }
        },
        _ => p.text.clone(),
    }
}

/// What printing a paragraph boundary emits: `|` for the local caret at
/// that boundary, a range symbol when a range boundary anchors there, else
/// nothing.
pub open spec fn spec_paragraph_boundary(
    selection: ClientSelection,
    pid: crate::ids::ParagraphId,
    relativity: ParagraphAnchorRelativity,
    rp: RangePrinter,
) -> (RangePrinter, Seq<char>) {
    match selection {
        ClientSelection::Caret(TextOrParagraphAnchor::ParagraphAnchor(a)) => if a.paragraph_id
            == pid && a.paragraph_anchor_relativity == relativity {
            (rp, seq!['|'])
        } else {
            (rp, Seq::empty())
        },
        ClientSelection::Range { begin, end } => {
            let begin_matches = match begin {
                TextOrParagraphAnchor::ParagraphAnchor(b) => b.paragraph_id == pid
                    && b.paragraph_anchor_relativity == relativity,
                _ => false,
            };
            let end_matches = match end {
                TextOrParagraphAnchor::ParagraphAnchor(e) => e.paragraph_id == pid
                    && e.paragraph_anchor_relativity == relativity,
                _ => false,
            };
            if begin_matches {
                spec_print_start_range(rp)
            } else if end_matches {
                spec_print_end_range(rp)
            } else {
                (rp, Seq::empty())
            }
        },
        _ => (rp, Seq::empty()),
    }
}

/// Prints a paragraph boundary under the given selection.
fn print_paragraph_boundary(
    selection: &ClientSelection,
    pid: &crate::ids::ParagraphId,
    relativity: ParagraphAnchorRelativity,
    rp: &mut RangePrinter,
) -> (r: String)
    ensures
        (*final(rp), r@) == spec_paragraph_boundary(*selection, *pid, relativity, *old(rp)),
{
    match selection {
        ClientSelection::Caret(TextOrParagraphAnchor::ParagraphAnchor(a)) => {
            if a.paragraph_id == *pid && a.paragraph_anchor_relativity == relativity {
                proof {
                    reveal_strlit("|");
                    assert("|"@ =~= seq!['|']);
                }
                String::from_str("|")
            } else {
                String::new()
            }
        },
        ClientSelection::Range { begin, end } => {
            let begin_matches = match begin {
                TextOrParagraphAnchor::ParagraphAnchor(b) => b.paragraph_id == *pid
                    && b.paragraph_anchor_relativity == relativity,
                _ => false,
            };
            let end_matches = match end {
                TextOrParagraphAnchor::ParagraphAnchor(e) => e.paragraph_id == *pid
                    && e.paragraph_anchor_relativity == relativity,
                _ => false,
            };
            if begin_matches {
                rp.print_start_range()
            } else if end_matches {
                rp.print_end_range()
            } else {
                String::new()
            }
        },
        _ => String::new(),
    }
}

/// What printing the fragments of a paragraph, from fragment `i` on, emits.
pub open spec fn spec_print_texts_from(
    content: Seq<RenderedFormattedTextView>,
    selection: ClientSelection,
    rp: RangePrinter,
    i: int,
) -> (RangePrinter, Seq<char>)
    decreases content.len() - i,
{
    if i < 0 || i >= content.len() {
        (rp, Seq::empty())
    } else {
        let first = spec_print_text(content[i], selection, rp);
        let rest = spec_print_texts_from(content, selection, first.0, i + 1);
        (rest.0, first.1 + rest.1)
    }
}

/// What printing one rendered paragraph under the given selection emits:
/// the symbols anchored at its beginning, its fragments with their woven
/// cursors, and the symbols anchored at its end.
pub open spec fn spec_print_paragraph(
    p: RenderedParagraphView,
    selection: ClientSelection,
    rp: RangePrinter,
) -> (RangePrinter, Seq<char>) {
    let before = spec_paragraph_boundary(
        selection,
        p.paragraph_id,
        ParagraphAnchorRelativity::AtBeginning,
        rp,
    );
    let middle = spec_print_texts_from(p.content, selection, before.0, 0);
    let after = spec_paragraph_boundary(
        selection,
        p.paragraph_id,
        ParagraphAnchorRelativity::AtEnd,
        middle.0,
    );
    (after.0, before.1 + middle.1 + after.1)
}

/// Prints one rendered paragraph under the given selection.
pub fn print_paragraph(
    p: &crate::render::RenderedParagraph,
    selection: &ClientSelection,
    rp: &mut RangePrinter,
) -> (r: String)
    requires
        rendered_nodes_wf(p@.content),
    ensures
        (*final(rp), r@) == spec_print_paragraph(p@, *selection, *old(rp)),
{
    let ghost rp0 = *rp;
    let mut result = print_paragraph_boundary(
        selection,
        &p.paragraph_id,
        ParagraphAnchorRelativity::AtBeginning,
        rp,
    );
    let ghost before = spec_paragraph_boundary(
        *selection,
        p@.paragraph_id,
        ParagraphAnchorRelativity::AtBeginning,
        rp0,
    );
    let mut i: usize = 0;
    while i < p.content.len()
        invariant
            i <= p@.content.len(),
            rendered_nodes_wf(p@.content),
            ({
                let middle = spec_print_texts_from(p@.content, *selection, before.0, 0);
                let rest = spec_print_texts_from(p@.content, *selection, *rp, i as int);
                middle.0 == rest.0 && before.1 + middle.1 == result@ + rest.1
            }),
        decreases p@.content.len() - i,
    {
        proof {
            assert(p@.content[i as int] == p.content.deep_view()[i as int]);
        }
        let piece = print_text(&p.content[i], selection, rp);
        result.append(piece.as_str());
        i = i + 1;
    }
    let after_piece = print_paragraph_boundary(
        selection,
        &p.paragraph_id,
        ParagraphAnchorRelativity::AtEnd,
        rp,
    );
    result.append(after_piece.as_str());
    result
}

/// What printing the whole rendered document, from paragraph `i` on, emits:
/// the paragraphs' prints joined by a carriage return.
pub open spec fn spec_print_paragraphs_from(
    ps: Seq<RenderedParagraphView>,
    selection: ClientSelection,
    rp: RangePrinter,
    i: int,
) -> (RangePrinter, Seq<char>)
    decreases ps.len() - i,
{
    if i < 0 || i >= ps.len() {
        (rp, Seq::empty())
    } else {
        let first = spec_print_paragraph(ps[i], selection, rp);
        let rest = spec_print_paragraphs_from(ps, selection, first.0, i + 1);
        let separator: Seq<char> = if i < ps.len() - 1 {
            seq!['\r']
        } else {
            Seq::empty()
        };
        (rest.0, first.1 + separator + rest.1)
    }
}

/// What serializing a client's document with its cursors emits: the live
/// selection projected onto the freshly folded document, woven into its
/// rendering.
pub open spec fn spec_print(client: crate::client::Client) -> Seq<char> {
    let sel = crate::selection::spec_non_tombstone_selection(client.document@);
    let rendered = crate::render::spec_render_from(
        crate::fold::spec_fold_from(
            crate::doc::DocumentStateView::spec_empty(),
            client.operations@,
            client.operations@,
        ).0,
        0,
    );
    let rp = RangePrinter { saw_caret: false, saw_start: false, saw_end: false };
    spec_print_paragraphs_from(rendered, sel, rp, 0).1
}

/// Serializes a client's document with its cursors: paragraphs joined by a
/// carriage return, the projected caret or range boundaries woven in at
/// their gaps.
pub fn print(client: &crate::client::Client) -> (r: String)
    requires
        client.wf(),
    ensures
        r@ == spec_print(*client),
{
    let selection = client.get_non_tombstone_selection();
    let doc = client.get_rendered_document();
    let ghost rendered = doc@;
    let mut rp = RangePrinter { saw_caret: false, saw_start: false, saw_end: false };
    let ghost rp0 = rp;
    let mut result = String::new();
    let mut i: usize = 0;
    while i < doc.paragraphs.len()
        invariant
            i <= rendered.len(),
            rendered == doc@,
            crate::render::rendered_doc_wf(rendered),
            ({
                let total = spec_print_paragraphs_from(rendered, selection, rp0, 0);
                let rest = spec_print_paragraphs_from(rendered, selection, rp, i as int);
                total.0 == rest.0 && total.1 == result@ + rest.1
            }),
        decreases rendered.len() - i,
    {
        proof {
            assert(rendered[i as int] == doc.paragraphs.deep_view()[i as int]);
        }
        let piece = print_paragraph(&doc.paragraphs[i], &selection, &mut rp);
        result.append(piece.as_str());
        if i + 1 < doc.paragraphs.len() {
            result.append("\r");
            proof {
                reveal_strlit("\r");
                assert("\r"@ =~= seq!['\r']);
            }
        }
        i = i + 1;
    }
    result
}

} // verus!
