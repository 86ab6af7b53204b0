//! Split contiguity as a document-wide invariant.
//!
//! For any insertion, the fragments that carry its identifier — live or
//! tombstoned, wherever they stand — partition the insertion's character
//! range: in document order their spans are consecutive, the first starts
//! at offset zero, and the last extends to the logical end.  Applying an
//! operation whose fresh identifiers are really fresh preserves this.

use vstd::prelude::*;
use vstd::seq_lib::group_seq_properties;
use crate::doc::DocumentStateView;
use crate::fold::{spec_apply_action, spec_insert_cut};
use crate::format::PartiallyFormattedTextView;
use crate::ids::NodeId;
use crate::node::TextNodeView;
use crate::ops::ActionView;
use crate::paragraph::{spec_nodes_of_runs, ParagraphNodeView};

verus! {

/// All text nodes of the document, in document order.
pub open spec fn flatten_paragraphs(ps: Seq<ParagraphNodeView>) -> Seq<TextNodeView>
    decreases ps.len(),
{
    if ps.len() == 0 {
        Seq::empty()
    } else {
        ps[0].contents + flatten_paragraphs(ps.drop_first())
    }
}

/// Whether a node is a fragment (live or tombstoned) of the insertion.
pub open spec fn frag_pred(nid: NodeId) -> spec_fn(TextNodeView) -> bool {
    |t: TextNodeView| t.is_fragment() && t.frag_node() == nid
}

/// The fragments of one insertion, in document order.
pub open spec fn node_fragments(d: DocumentStateView, nid: NodeId) -> Seq<TextNodeView> {
    flatten_paragraphs(d.paragraphs).filter(frag_pred(nid))
}

/// Whether a sequence of fragments partitions one contiguous range: the
/// first starts at offset zero, each records its successor's offset as its
/// upper bound, and the last extends to the logical end of the insertion.
pub open spec fn frags_contiguous(fs: Seq<TextNodeView>) -> bool {
    fs.len() > 0 ==> {
        &&& fs[0].frag_offset() == 0
        &&& fs[fs.len() - 1].frag_offset_after() is None
        &&& forall|i: int| 0 <= i < fs.len() - 1 ==> (#[trigger] fs[i]).frag_offset_after()
            == Some(fs[i + 1].frag_offset())
    }
}

/// The document-wide invariant: every insertion's fragments partition one
/// contiguous range starting at offset zero.
pub open spec fn doc_spans_contiguous(d: DocumentStateView) -> bool {
    forall|nid: NodeId| frags_contiguous(#[trigger] node_fragments(d, nid))
}

/// No two runs of the action carry the same fresh identifier.
pub open spec fn runs_distinct(runs: Seq<PartiallyFormattedTextView>) -> bool {
    forall|i: int, j: int| 0 <= i < j < runs.len() ==> (#[trigger] runs[i]).node_id != (
    #[trigger] runs[j]).node_id
}

/// The identifiers the runs mint are absent from the document.
pub open spec fn runs_fresh(d: DocumentStateView, runs: Seq<PartiallyFormattedTextView>) -> bool {
    forall|i: int| 0 <= i < runs.len() ==> node_fragments(
        d,
        (#[trigger] runs[i]).node_id,
    ).len() == 0
}

/// Flattening distributes over concatenation of paragraph sequences.
proof fn lemma_flatten_add(a: Seq<ParagraphNodeView>, b: Seq<ParagraphNodeView>)
    ensures
        flatten_paragraphs(a + b) == flatten_paragraphs(a) + flatten_paragraphs(b),
    decreases a.len(),
{
    broadcast use group_seq_properties;

    if a.len() == 0 {
        assert(a + b =~= b);
        assert(flatten_paragraphs(a) + flatten_paragraphs(b) =~= flatten_paragraphs(b));
    } else {
        assert((a + b).drop_first() =~= a.drop_first() + b);
        lemma_flatten_add(a.drop_first(), b);
        assert((a + b)[0] == a[0]);
        assert(flatten_paragraphs(a + b) == a[0].contents + (flatten_paragraphs(a.drop_first())
            + flatten_paragraphs(b)));
        assert(a[0].contents + (flatten_paragraphs(a.drop_first()) + flatten_paragraphs(b)) =~= (
        a[0].contents + flatten_paragraphs(a.drop_first())) + flatten_paragraphs(b));
    }
}

/// Flattening one paragraph yields its contents.
proof fn lemma_flatten_single(x: ParagraphNodeView)
    ensures
        flatten_paragraphs(seq![x]) == x.contents,
{
    assert(seq![x].drop_first() =~= Seq::<ParagraphNodeView>::empty());
    assert(flatten_paragraphs(seq![x].drop_first()) == Seq::<TextNodeView>::empty());
    assert(seq![x][0] == x);
    assert(flatten_paragraphs(seq![x]) == x.contents + Seq::<TextNodeView>::empty());
    assert(x.contents + Seq::<TextNodeView>::empty() =~= x.contents);
}

/// A sequence is its prefix, the element in between, and its suffix.
proof fn lemma_three_way_split(ps: Seq<ParagraphNodeView>, i: int)
    requires
        0 <= i < ps.len(),
    ensures
        ps =~= ps.take(i) + seq![ps[i]] + ps.skip(i + 1),
{
}

/// Filtering a single node keeps it exactly when it matches.
proof fn lemma_filter_single(t: TextNodeView, pred: spec_fn(TextNodeView) -> bool)
    ensures
        seq![t].filter(pred) == if pred(t) {
            seq![t]
        } else {
            Seq::<TextNodeView>::empty()
        },
{
    reveal_with_fuel(Seq::filter, 2);
    assert(seq![t].drop_last() =~= Seq::<TextNodeView>::empty());
    if pred(t) {
        assert(seq![t].filter(pred) =~= seq![t]);
    } else {
        assert(seq![t].filter(pred) =~= Seq::<TextNodeView>::empty());
    }
}

/// Filtering keeps nothing when nothing matches.
proof fn lemma_filter_none(s: Seq<TextNodeView>, pred: spec_fn(TextNodeView) -> bool)
    requires
        forall|i: int| 0 <= i < s.len() ==> !pred(#[trigger] s[i]),
    ensures
        s.filter(pred) == Seq::<TextNodeView>::empty(),
    decreases s.len(),
{
    reveal(Seq::filter);
    if s.len() > 0 {
        assert(forall|i: int| 0 <= i < s.drop_last().len() ==> s.drop_last()[i] == s[i]);
        lemma_filter_none(s.drop_last(), pred);
    }
}

/// What filtering the materialized runs for one identifier yields: the one
/// complete fragment minted for it, or nothing.
proof fn lemma_filter_runs(runs: Seq<PartiallyFormattedTextView>, nid: NodeId)
    requires
        runs_distinct(runs),
    ensures
        ({
            let fs = spec_nodes_of_runs(runs).filter(frag_pred(nid));
            if exists|k: int| 0 <= k < runs.len() && (#[trigger] runs[k]).node_id == nid {
                fs =~= seq![
                    TextNodeView::Text {
                        node: nid,
                        offset: 0,
                        offset_after: None,
                        text: runs[choose|k: int|
                            0 <= k < runs.len() && (#[trigger] runs[k]).node_id == nid].text,
                    },
                ]
            } else {
                fs =~= Seq::<TextNodeView>::empty()
            }
        }),
    decreases runs.len(),
{
    reveal(Seq::filter);
    let nodes = spec_nodes_of_runs(runs);
    if runs.len() == 0 {
        assert(nodes =~= Seq::<TextNodeView>::empty());
    } else {
        let shorter = runs.drop_last();
        assert(runs_distinct(shorter)) by {
            assert(forall|i: int| 0 <= i < shorter.len() ==> shorter[i] == runs[i]);
        }
        lemma_filter_runs(shorter, nid);
        assert(nodes.drop_last() =~= spec_nodes_of_runs(shorter));
        assert(nodes.last() == TextNodeView::Text {
            node: runs.last().node_id,
            offset: 0,
            offset_after: None,
            text: runs.last().text,
        });
        if runs.last().node_id == nid {
            assert(forall|k: int| 0 <= k < shorter.len() ==> (#[trigger] shorter[k]).node_id
                != nid);
            assert(spec_nodes_of_runs(shorter).filter(frag_pred(nid))
                =~= Seq::<TextNodeView>::empty());
            let kw = choose|k: int| 0 <= k < runs.len() && (#[trigger] runs[k]).node_id == nid;
            assert(kw == runs.len() - 1);
        } else {
            if exists|k: int| 0 <= k < shorter.len() && (#[trigger] shorter[k]).node_id == nid {
                let ks = choose|k: int|
                    0 <= k < shorter.len() && (#[trigger] shorter[k]).node_id == nid;
                assert(runs[ks].node_id == nid);
                let kw = choose|k: int| 0 <= k < runs.len() && (#[trigger] runs[k]).node_id
                    == nid;
                assert(kw < runs.len() - 1);
                assert(shorter[kw].node_id == nid);
                assert(runs[kw].text == shorter[kw].text);
            } else {
                if exists|k: int| 0 <= k < runs.len() && (#[trigger] runs[k]).node_id == nid {
                    let kw = choose|k: int|
                        0 <= k < runs.len() && (#[trigger] runs[k]).node_id == nid;
                    assert(kw < runs.len() - 1);
                    assert(shorter[kw].node_id == nid);
                    assert(false);
                }
            }
        }
    }
}

/// A paragraph sequence's flattening, parted at one paragraph.
proof fn lemma_flatten_three_way(ps: Seq<ParagraphNodeView>, i: int)
    requires
        0 <= i < ps.len(),
    ensures
        flatten_paragraphs(ps) == flatten_paragraphs(ps.take(i)) + ps[i].contents
            + flatten_paragraphs(ps.skip(i + 1)),
{
    lemma_three_way_split(ps, i);
    lemma_flatten_add(ps.take(i) + seq![ps[i]], ps.skip(i + 1));
    lemma_flatten_add(ps.take(i), seq![ps[i]]);
    lemma_flatten_single(ps[i]);
}

/// A paragraph sequence's flattening, parted at one boundary.
proof fn lemma_flatten_two_way(ps: Seq<ParagraphNodeView>, i: int)
    requires
        0 <= i <= ps.len(),
    ensures
        flatten_paragraphs(ps) == flatten_paragraphs(ps.take(i)) + flatten_paragraphs(ps.skip(i)),
{
    assert(ps =~= ps.take(i) + ps.skip(i));
    lemma_flatten_add(ps.take(i), ps.skip(i));
}

/// Replacing one fragment of a contiguous partition by the two halves of
/// its split keeps the partition contiguous.
proof fn lemma_contiguous_split(
    x: Seq<TextNodeView>,
    t: TextNodeView,
    t1: TextNodeView,
    t2: TextNodeView,
    y: Seq<TextNodeView>,
    k: u32,
)
    requires
        frags_contiguous(x + seq![t] + y),
        t1.frag_offset() == t.frag_offset(),
        t1.frag_offset_after() == Some(k),
        t2.frag_offset() == k,
        t2.frag_offset_after() == t.frag_offset_after(),
    ensures
        frags_contiguous(x + seq![t1, t2] + y),
{
    let olds = x + seq![t] + y;
    let news = x + seq![t1, t2] + y;
    assert(olds.len() == x.len() + 1 + y.len());
    assert(news.len() == x.len() + 2 + y.len());
    assert(forall|i: int| 0 <= i < x.len() ==> olds[i] == x[i] && news[i] == x[i]);
    assert(olds[x.len() as int] == t);
    assert(news[x.len() as int] == t1);
    assert(news[(x.len() + 1) as int] == t2);
    assert(forall|i: int| 0 <= i < y.len() ==> olds[x.len() + 1 + i] == y[i] && news[x.len() + 2
        + i] == y[i]);
    assert(news[0].frag_offset() == 0) by {
        if x.len() > 0 {
            assert(olds[0].frag_offset() == 0);
        } else {
            assert(olds[0] == t);
        }
    }
    assert(news[news.len() - 1].frag_offset_after() is None) by {
        if y.len() > 0 {
            assert(olds[olds.len() - 1] == y[y.len() - 1]);
        } else {
            assert(olds[olds.len() - 1] == t);
        }
    }
    assert forall|i: int| 0 <= i < news.len() - 1 implies (#[trigger] news[i]).frag_offset_after()
        == Some(news[i + 1].frag_offset()) by {
        if i < x.len() - 1 {
            assert(olds[i].frag_offset_after() == Some(olds[i + 1].frag_offset()));
        } else if i == x.len() - 1 {
            assert(olds[i].frag_offset_after() == Some(olds[i + 1].frag_offset()));
            assert(olds[i + 1] == t);
        } else if i == x.len() {
        } else if i == x.len() + 1 {
            if y.len() > 0 {
                assert(olds[x.len() as int].frag_offset_after() == Some(
                    olds[(x.len() + 1) as int].frag_offset(),
                ));
            }
        } else {
            assert(olds[i - 1].frag_offset_after() == Some(olds[i].frag_offset()));
        }
    }
}

/// Split contiguity is preserved by a paragraph insertion whose fresh
/// identifiers are fresh and pairwise distinct.
#[verifier::rlimit(100)]
proof fn lemma_pi_preserves_contiguity(
    d: DocumentStateView,
    a: ActionView,
    log: Seq<(NodeId, ActionView)>,
)
    requires
        a is ParagraphInsert,
        a->ParagraphInsert_additional_paragraphs.len() == 0,
        spec_apply_action(d, a, log) is Ok,
        doc_spans_contiguous(d),
        runs_distinct(a->ParagraphInsert_first_paragraph.text),
        runs_fresh(d, a->ParagraphInsert_first_paragraph.text),
    ensures
        doc_spans_contiguous(spec_apply_action(d, a, log)->Ok_0),
{
    let d2 = spec_apply_action(d, a, log)->Ok_0;
    let anchor = a->ParagraphInsert_anchor;
    let first_paragraph = a->ParagraphInsert_first_paragraph;
    let ps = d.paragraphs;
    let i = crate::doc::spec_find_paragraph_from(ps, anchor, 0)->Some_0;
    crate::fold::lemma_find_paragraph_props(ps, anchor, 0);
    let ps1 = if !ps[i].tombstone && ps[i].spec_is_empty() {
        ps.update(
            i,
            ParagraphNodeView {
                paragraph_id: ps[i].paragraph_id,
                tombstone: true,
                contents: ps[i].contents,
            },
        )
    } else {
        ps
    };
    assert(flatten_paragraphs(ps1) == flatten_paragraphs(ps)) by {
        if !ps[i].tombstone && ps[i].spec_is_empty() {
            lemma_flatten_three_way(ps, i);
            lemma_flatten_three_way(ps1, i);
            assert(ps1.take(i) =~= ps.take(i));
            assert(ps1.skip(i + 1) =~= ps.skip(i + 1));
        }
    }
    let jx = crate::fold::spec_pi_skip_from(ps1, log, anchor, i + 1);
    crate::fold::lemma_pi_skip_bounds(ps1, log, anchor, i + 1);
    let newp = crate::paragraph::Paragraph::spec_from_new_paragraph(first_paragraph);
    assert(d2.paragraphs =~= ps1.insert(jx, newp)) by {
        assert(crate::fold::spec_pi_new_paragraphs(
            first_paragraph,
            a->ParagraphInsert_additional_paragraphs,
        ) =~= seq![newp]);
    }
    let fa = flatten_paragraphs(ps1.take(jx));
    let fb = flatten_paragraphs(ps1.skip(jx));
    let newx = newp.contents;
    assert(flatten_paragraphs(d2.paragraphs) == fa + newx + fb) by {
        assert(ps1.insert(jx, newp) =~= ps1.take(jx) + seq![newp] + ps1.skip(jx));
        lemma_flatten_add(ps1.take(jx) + seq![newp], ps1.skip(jx));
        lemma_flatten_add(ps1.take(jx), seq![newp]);
        lemma_flatten_single(newp);
    }
    lemma_flatten_two_way(ps1, jx);
    assert forall|nid: NodeId| frags_contiguous(#[trigger] node_fragments(d2, nid)) by {
        let pred = frag_pred(nid);
        Seq::filter_distributes_over_add(fa + newx, fb, pred);
        Seq::filter_distributes_over_add(fa, newx, pred);
        Seq::filter_distributes_over_add(fa, fb, pred);
        assert(node_fragments(d, nid) == fa.filter(pred) + fb.filter(pred));
        assert(node_fragments(d2, nid) == fa.filter(pred) + newx.filter(pred) + fb.filter(
            pred,
        ));
        lemma_filter_runs(first_paragraph.text, nid);
        if exists|k: int| 0 <= k < first_paragraph.text.len() && (
        #[trigger] first_paragraph.text[k]).node_id == nid {
            let k = choose|k: int|
                0 <= k < first_paragraph.text.len() && (
                #[trigger] first_paragraph.text[k]).node_id == nid;
            assert(node_fragments(d, nid).len() == 0);
            assert(fa.filter(pred) =~= Seq::<TextNodeView>::empty());
            assert(fb.filter(pred) =~= Seq::<TextNodeView>::empty());
            assert(node_fragments(d2, nid) =~= newx.filter(pred));
            assert(frags_contiguous(node_fragments(d2, nid)));
        } else {
            assert(newx.filter(pred) =~= Seq::<TextNodeView>::empty());
            assert(node_fragments(d2, nid) =~= node_fragments(d, nid));
            assert(frags_contiguous(node_fragments(d, nid)));
        }
    }
}

/// One insertion step at a boundary between two parts of the contents:
/// the fragments of `nid` stay a contiguous partition.
proof fn lemma_nid_straight(
    fa: Seq<TextNodeView>,
    cut0: Seq<TextNodeView>,
    cut1: Seq<TextNodeView>,
    fb: Seq<TextNodeView>,
    runs: Seq<PartiallyFormattedTextView>,
    nid: NodeId,
)
    requires
        runs_distinct(runs),
        frags_contiguous((fa + (cut0 + cut1) + fb).filter(frag_pred(nid))),
        (exists|k: int| 0 <= k < runs.len() && (#[trigger] runs[k]).node_id == nid) ==> (fa + (
        cut0 + cut1) + fb).filter(frag_pred(nid)).len() == 0,
    ensures
        frags_contiguous(
            (fa + (cut0 + spec_nodes_of_runs(runs) + cut1) + fb).filter(frag_pred(nid)),
        ),
{
    let pred = frag_pred(nid);
    let new_nodes = spec_nodes_of_runs(runs);
    let olds = (fa + (cut0 + cut1) + fb).filter(pred);
    let news = (fa + (cut0 + new_nodes + cut1) + fb).filter(pred);
    Seq::filter_distributes_over_add(fa + (cut0 + cut1), fb, pred);
    Seq::filter_distributes_over_add(fa, cut0 + cut1, pred);
    Seq::filter_distributes_over_add(cut0, cut1, pred);
    Seq::filter_distributes_over_add(fa + (cut0 + new_nodes + cut1), fb, pred);
    Seq::filter_distributes_over_add(fa, cut0 + new_nodes + cut1, pred);
    Seq::filter_distributes_over_add(cut0 + new_nodes, cut1, pred);
    Seq::filter_distributes_over_add(cut0, new_nodes, pred);
    lemma_filter_runs(runs, nid);
    if exists|k: int| 0 <= k < runs.len() && (#[trigger] runs[k]).node_id == nid {
        assert(fa.filter(pred) =~= Seq::<TextNodeView>::empty());
        assert(fb.filter(pred) =~= Seq::<TextNodeView>::empty());
        assert(cut0.filter(pred) =~= Seq::<TextNodeView>::empty());
        assert(cut1.filter(pred) =~= Seq::<TextNodeView>::empty());
        assert(news =~= new_nodes.filter(pred));
        assert(frags_contiguous(news));
    } else {
        assert(new_nodes.filter(pred) =~= Seq::<TextNodeView>::empty());
        assert(news =~= olds);
    }
}

/// One insertion step strictly inside a fragment: the fragment is replaced
/// by its two halves around the new content, and the fragments of `nid`
/// stay a contiguous partition.
#[verifier::rlimit(100)]
proof fn lemma_nid_middle(
    fa: Seq<TextNodeView>,
    csl: Seq<TextNodeView>,
    t: TextNodeView,
    csr: Seq<TextNodeView>,
    fb: Seq<TextNodeView>,
    runs: Seq<PartiallyFormattedTextView>,
    nid: NodeId,
    k: u32,
)
    requires
        runs_distinct(runs),
        t.is_fragment(),
        frags_contiguous((fa + (csl + seq![t] + csr) + fb).filter(frag_pred(nid))),
        (exists|kk: int| 0 <= kk < runs.len() && (#[trigger] runs[kk]).node_id == nid) ==> (fa + (
        csl + seq![t] + csr) + fb).filter(frag_pred(nid)).len() == 0,
    ensures
        frags_contiguous(
            (fa + ((csl.push(t.spec_split_front(k)) + spec_nodes_of_runs(runs)) + (seq![
                t.spec_split_back(k),
            ] + csr)) + fb).filter(frag_pred(nid)),
        ),
{
    let pred = frag_pred(nid);
    let new_nodes = spec_nodes_of_runs(runs);
    let t1 = t.spec_split_front(k);
    let t2 = t.spec_split_back(k);
    let olds = (fa + (csl + seq![t] + csr) + fb).filter(pred);
    let news = (fa + ((csl.push(t1) + new_nodes) + (seq![t2] + csr)) + fb).filter(pred);
    Seq::filter_distributes_over_add(fa + (csl + seq![t] + csr), fb, pred);
    Seq::filter_distributes_over_add(fa, csl + seq![t] + csr, pred);
    Seq::filter_distributes_over_add(csl + seq![t], csr, pred);
    Seq::filter_distributes_over_add(csl, seq![t], pred);
    lemma_filter_single(t, pred);
    assert(csl.push(t1) =~= csl + seq![t1]);
    Seq::filter_distributes_over_add(fa + ((csl.push(t1) + new_nodes) + (seq![t2] + csr)), fb, pred);
    Seq::filter_distributes_over_add(fa, (csl.push(t1) + new_nodes) + (seq![t2] + csr), pred);
    Seq::filter_distributes_over_add(csl.push(t1) + new_nodes, seq![t2] + csr, pred);
    Seq::filter_distributes_over_add(csl.push(t1), new_nodes, pred);
    Seq::filter_distributes_over_add(csl, seq![t1], pred);
    Seq::filter_distributes_over_add(seq![t2], csr, pred);
    lemma_filter_single(t1, pred);
    lemma_filter_single(t2, pred);
    lemma_filter_runs(runs, nid);
    assert(t1.is_fragment() && t1.frag_node() == t.frag_node());
    assert(t2.is_fragment() && t2.frag_node() == t.frag_node());
    if exists|kk: int| 0 <= kk < runs.len() && (#[trigger] runs[kk]).node_id == nid {
        assert(olds.len() == 0);
        assert(fa.filter(pred) =~= Seq::<TextNodeView>::empty());
        assert(fb.filter(pred) =~= Seq::<TextNodeView>::empty());
        assert(csl.filter(pred) =~= Seq::<TextNodeView>::empty());
        assert(csr.filter(pred) =~= Seq::<TextNodeView>::empty());
        assert(!pred(t));
        assert(!pred(t1) && !pred(t2));
        assert(news =~= new_nodes.filter(pred));
        assert(frags_contiguous(news));
    } else {
        assert(new_nodes.filter(pred) =~= Seq::<TextNodeView>::empty());
        if nid == t.frag_node() {
            assert(pred(t) && pred(t1) && pred(t2));
            let x = fa.filter(pred) + csl.filter(pred);
            let y = csr.filter(pred) + fb.filter(pred);
            assert(olds =~= x + seq![t] + y);
            assert(news =~= x + seq![t1, t2] + y);
            assert(t1.frag_offset() == t.frag_offset());
            assert(t1.frag_offset_after() == Some(k));
            assert(t2.frag_offset() == k);
            assert(t2.frag_offset_after() == t.frag_offset_after());
            lemma_contiguous_split(x, t, t1, t2, y, k);
        } else {
            assert(!pred(t) && !pred(t1) && !pred(t2));
            assert(news =~= olds);
        }
    }
}

/// Split contiguity is preserved by a text insertion (without a paragraph
/// split) whose fresh identifiers are fresh and pairwise distinct.
#[verifier::rlimit(100)]
proof fn lemma_insert_preserves_contiguity(
    d: DocumentStateView,
    a: ActionView,
    log: Seq<(NodeId, ActionView)>,
)
    requires
        a is Insert,
        a->Insert_paragraphs is None,
        spec_apply_action(d, a, log) is Ok,
        doc_spans_contiguous(d),
        runs_distinct(a->Insert_before_paragraphs),
        runs_fresh(d, a->Insert_before_paragraphs),
    ensures
        doc_spans_contiguous(spec_apply_action(d, a, log)->Ok_0),
{
    let d2 = spec_apply_action(d, a, log)->Ok_0;
    let anchor = a->Insert_anchor;
    let before_paragraphs = a->Insert_before_paragraphs;
    let ps = d.paragraphs;
    let pf = crate::doc::spec_find_fragment_from(ps, anchor, 0)->Some_0;
    let p = pf.0;
    let f = pf.1;
    crate::fold::lemma_find_fragment_props(ps, anchor, 0);
    let cs = ps[p].contents;
    let cut = spec_insert_cut(cs, anchor, f, log);
    let new_nodes = spec_nodes_of_runs(before_paragraphs);
    assert(d2.paragraphs == ps.update(
        p,
        ParagraphNodeView {
            paragraph_id: ps[p].paragraph_id,
            tombstone: ps[p].tombstone,
            contents: cut.0 + new_nodes + cut.1,
        },
    ));
    lemma_flatten_three_way(ps, p);
    lemma_flatten_three_way(d2.paragraphs, p);
    assert(d2.paragraphs.take(p) =~= ps.take(p));
    assert(d2.paragraphs.skip(p + 1) =~= ps.skip(p + 1));
    let fa = flatten_paragraphs(ps.take(p));
    let fb = flatten_paragraphs(ps.skip(p + 1));
    assert(flatten_paragraphs(ps) == fa + cs + fb);
    assert(flatten_paragraphs(d2.paragraphs) == fa + (cut.0 + new_nodes + cut.1) + fb);
    let is_middle = cs[f].spec_relative_position(anchor.at_index)
        == crate::node::RelativePosition::Middle;
    crate::fold::lemma_text_skip_bounds(cs, log, anchor, f + 1);
    assert forall|nid: NodeId| frags_contiguous(#[trigger] node_fragments(d2, nid)) by {
        let pred = frag_pred(nid);
        if is_middle {
            let k = anchor.at_index->Some_0;
            let csl = cs.take(f);
            let csr = cs.skip(f + 1);
            assert(cs =~= csl + seq![cs[f]] + csr);
            assert(fa + cs + fb == fa + (csl + seq![cs[f]] + csr) + fb);
            assert(node_fragments(d, nid) == (fa + (csl + seq![cs[f]] + csr) + fb).filter(pred));
            assert(cut.0 + new_nodes + cut.1 == (csl.push(cs[f].spec_split_front(k)) + new_nodes)
                + (seq![cs[f].spec_split_back(k)] + csr)) by {
                assert(cut.0 == csl.push(cs[f].spec_split_front(k)));
                assert(cut.1 == seq![cs[f].spec_split_back(k)] + csr);
                assert(cut.0 + new_nodes + cut.1 =~= (csl.push(cs[f].spec_split_front(k))
                    + new_nodes) + (seq![cs[f].spec_split_back(k)] + csr));
            }
            lemma_nid_middle(fa, csl, cs[f], csr, fb, before_paragraphs, nid, k);
            assert(node_fragments(d2, nid) == (fa + ((csl.push(cs[f].spec_split_front(k))
                + new_nodes) + (seq![cs[f].spec_split_back(k)] + csr)) + fb).filter(pred));
        } else {
            assert(cs =~= cut.0 + cut.1) by {
                match cs[f].spec_relative_position(anchor.at_index) {
                    crate::node::RelativePosition::AtBeginning => {
                        assert(cut.0 == cs.take(f) && cut.1 == cs.skip(f));
                    },
                    _ => {
                        if anchor.at_index is None {
                            let js = crate::fold::spec_text_skip_from(cs, log, anchor, f + 1);
                            assert(cut.0 == cs.take(js) && cut.1 == cs.skip(js));
                        } else {
                            assert(cut.0 == cs.take(f + 1) && cut.1 == cs.skip(f + 1));
                        }
                    },
                }
            }
            assert(fa + cs + fb == fa + (cut.0 + cut.1) + fb);
            assert(node_fragments(d, nid) == (fa + (cut.0 + cut.1) + fb).filter(pred));
            lemma_nid_straight(fa, cut.0, cut.1, fb, before_paragraphs, nid);
            assert(node_fragments(d2, nid) == (fa + (cut.0 + new_nodes + cut.1) + fb).filter(
                pred,
            ));
        }
    }
}

/// The empty document satisfies the invariant: it holds no fragment at
/// all.
pub proof fn lemma_empty_doc_contiguous()
    ensures
        doc_spans_contiguous(DocumentStateView::spec_empty()),
{
    let d = DocumentStateView::spec_empty();
    assert(d.paragraphs =~= seq![crate::paragraph::Paragraph::spec_origin()]);
    lemma_flatten_single(crate::paragraph::Paragraph::spec_origin());
    assert forall|nid: NodeId| frags_contiguous(#[trigger] node_fragments(d, nid)) by {
        lemma_filter_none(flatten_paragraphs(d.paragraphs), frag_pred(nid));
    }
}

/// Split contiguity: applying a shipped operation whose fresh identifiers
/// are fresh and pairwise distinct keeps every insertion's fragments a
/// contiguous partition of its range.  (A text insertion that also splits
/// its paragraph, and a paragraph insertion carrying additional
/// paragraphs, are not covered here.)
pub proof fn lemma_split_contiguity_preserved(
    d: DocumentStateView,
    a: ActionView,
    log: Seq<(NodeId, ActionView)>,
)
    requires
        spec_apply_action(d, a, log) is Ok,
        doc_spans_contiguous(d),
        match a {
            ActionView::Insert { before_paragraphs, paragraphs, .. } => paragraphs is None
                && runs_distinct(before_paragraphs) && runs_fresh(d, before_paragraphs),
            ActionView::ParagraphInsert { first_paragraph, additional_paragraphs, .. } =>
                additional_paragraphs.len() == 0 && runs_distinct(first_paragraph.text)
                && runs_fresh(d, first_paragraph.text),
            _ => false,
        },
    ensures
        doc_spans_contiguous(spec_apply_action(d, a, log)->Ok_0),
{
    match a {
        ActionView::ParagraphInsert { .. } => {
            lemma_pi_preserves_contiguity(d, a, log);
        },
        ActionView::Insert { .. } => {
            lemma_insert_preserves_contiguity(d, a, log);
        },
        _ => {},
    }
}


} // verus!
