//! The replication laws: what holds of every replica, proved once and for
//! all over the specification functions of the fold, the log and the
//! resolver.

use vstd::prelude::*;
use crate::anchor::{ClientSelection, TextAnchor, TextOrParagraphAnchor};
use crate::client::Client;
use crate::doc::{
    spec_find_paragraph_from, spec_find_text_node_from, DocumentStateView,
};
use crate::fold::{
    spec_action_shipped, spec_apply_action, spec_fold_from, spec_text_skip_from, spec_text_tied,
    ApplyError,
};
use crate::ids::{NodeId, ParagraphId};
use crate::node::{RelativePosition, TextNodeView};
use crate::ops::{ops_map, ops_sorted, lemma_ops_map_entries, ActionView};
use crate::render::{spec_document_text_from, spec_render_from};
use crate::selection::{
    spec_adopt_following, spec_adopt_previous, spec_entry_live, spec_non_tombstone_selection,
    spec_origin_anchor, spec_resolve_anchor,
};

verus! {

/// Two ordered logs that hold the same mapping from identifiers to actions
/// are the same log, entry for entry.
pub proof fn lemma_sorted_log_determined(
    l1: Seq<(NodeId, ActionView)>,
    l2: Seq<(NodeId, ActionView)>,
)
    requires
        ops_sorted(l1),
        ops_sorted(l2),
        ops_map(l1) == ops_map(l2),
    ensures
        l1 == l2,
    decreases l1.len(),
{
    lemma_ops_map_entries(l1);
    lemma_ops_map_entries(l2);
    let m = ops_map(l1);
    if l1.len() == 0 {
        if l2.len() > 0 {
            assert(m.dom().contains(l2[0].0));
            assert(false);
        }
        assert(l1 =~= l2);
    } else {
        if l2.len() == 0 {
            assert(ops_map(l2).dom().contains(l1[0].0));
            assert(false);
        }
        let k1 = l1.last().0;
        let k2 = l2.last().0;
        assert(m.dom().contains(k2));
        let i1 = choose|i: int| 0 <= i < l1.len() && (#[trigger] l1[i]).0 == k2;
        assert(ops_map(l2).dom().contains(k1));
        let i2 = choose|i: int| 0 <= i < l2.len() && (#[trigger] l2[i]).0 == k1;
        if i1 < l1.len() - 1 && i2 < l2.len() - 1 {
            assert(k2.spec_lt(k1));
            assert(k1.spec_lt(k2));
            assert(false);
        }
        assert(k1 == k2);
        assert(l1.last().1 == m[k1]);
        assert(l2.last().1 == m[k1]);
        assert(l1.last() == l2.last());
        let d1 = l1.drop_last();
        let d2 = l2.drop_last();
        assert(ops_sorted(d1) && ops_sorted(d2)) by {
            assert(forall|i: int| 0 <= i < d1.len() ==> d1[i] == l1[i]);
            assert(forall|i: int| 0 <= i < d2.len() ==> d2[i] == l2[i]);
        }
        lemma_ops_map_entries(d1);
        lemma_ops_map_entries(d2);
        assert(ops_map(d1) == ops_map(d2)) by {
            assert(!ops_map(d1).dom().contains(k1)) by {
                assert(forall|i: int| 0 <= i < d1.len() ==> (#[trigger] d1[i]).0.spec_lt(k1));
            }
            assert(!ops_map(d2).dom().contains(k1)) by {
                assert(forall|i: int| 0 <= i < d2.len() ==> (#[trigger] d2[i]).0.spec_lt(k1));
            }
            assert(ops_map(d1) =~= ops_map(l1).remove(k1));
            assert(ops_map(d2) =~= ops_map(l2).remove(k1));
        }
        lemma_sorted_log_determined(d1, d2);
        assert(l1 =~= l2);
    }
}

/// Convergence: two replicas that received the same set of operations, in
/// whatever order, hold the same ordered log, fold to the same document,
/// and render the same text.
pub proof fn lemma_convergence(c1: Client, c2: Client)
    requires
        c1.wf(),
        c2.wf(),
        ops_map(c1.operations@) == ops_map(c2.operations@),
    ensures
        c1.operations@ == c2.operations@,
        spec_fold_from(
            DocumentStateView::spec_empty(),
            c1.operations@,
            c1.operations@,
        ) == spec_fold_from(DocumentStateView::spec_empty(), c2.operations@, c2.operations@),
        spec_document_text_from(
            spec_render_from(
                spec_fold_from(
                    DocumentStateView::spec_empty(),
                    c1.operations@,
                    c1.operations@,
                ).0,
                0,
            ),
            0,
        ) == spec_document_text_from(
            spec_render_from(
                spec_fold_from(
                    DocumentStateView::spec_empty(),
                    c2.operations@,
                    c2.operations@,
                ).0,
                0,
            ),
            0,
        ),
{
    lemma_sorted_log_determined(c1.operations@, c2.operations@);
}

/// Idempotence: delivering an operation whose identifier and action are
/// already in the ordered log leaves the log — and with it the folded
/// document — unchanged.
pub proof fn lemma_idempotence(
    log: Seq<(NodeId, ActionView)>,
    log2: Seq<(NodeId, ActionView)>,
    id: NodeId,
    a: ActionView,
)
    requires
        ops_sorted(log),
        ops_sorted(log2),
        ops_map(log).contains_pair(id, a),
        ops_map(log2) == ops_map(log).insert(id, a),
    ensures
        log2 == log,
        spec_fold_from(DocumentStateView::spec_empty(), log2, log2) == spec_fold_from(
            DocumentStateView::spec_empty(),
            log,
            log,
        ),
{
    assert(ops_map(log).insert(id, a) =~= ops_map(log));
    lemma_sorted_log_determined(log2, log);
}

/// Causal readiness: a shipped operation whose anchor names an insertion or
/// a paragraph that is absent from the document — even among tombstones —
/// does not apply; it is deferred.
pub proof fn lemma_causal_readiness(
    d: DocumentStateView,
    a: ActionView,
    log: Seq<(NodeId, ActionView)>,
)
    requires
        spec_action_shipped(a),
        match a {
            ActionView::Insert { anchor, .. } => spec_find_text_node_from(
                d.paragraphs,
                anchor.at_node,
                0,
            ) is None,
            ActionView::ParagraphInsert { anchor, .. } => spec_find_paragraph_from(
                d.paragraphs,
                anchor,
                0,
            ) is None,
            _ => false,
        },
    ensures
        spec_apply_action(d, a, log) == Err::<DocumentStateView, ApplyError>(
            ApplyError::LookupFailure,
        ),
{
}

/// A deferred operation leaves the replay exactly where it was: the fold of
/// the remaining operations continues from the same document.
pub proof fn lemma_deferred_skipped(
    d: DocumentStateView,
    rest: Seq<(NodeId, ActionView)>,
    log: Seq<(NodeId, ActionView)>,
)
    requires
        rest.len() > 0,
        spec_apply_action(d, rest[0].1, log) == Err::<DocumentStateView, ApplyError>(
            ApplyError::LookupFailure,
        ),
    ensures
        spec_fold_from(d, rest, log) == spec_fold_from(d, rest.drop_first(), log),
{
}

/// A replay splits at any boundary: folding a run of operations and then
/// the rest, from wherever the first part left off, is folding them all —
/// provided the first part replayed cleanly.
pub proof fn lemma_fold_split(
    d: DocumentStateView,
    r1: Seq<(NodeId, ActionView)>,
    r2: Seq<(NodeId, ActionView)>,
    log: Seq<(NodeId, ActionView)>,
)
    requires
        spec_fold_from(d, r1, log).1 is None,
    ensures
        spec_fold_from(d, r1 + r2, log) == spec_fold_from(spec_fold_from(d, r1, log).0, r2, log),
    decreases r1.len(),
{
    if r1.len() == 0 {
        assert(r1 + r2 =~= r2);
    } else {
        assert((r1 + r2)[0] == r1[0]);
        assert((r1 + r2).drop_first() =~= r1.drop_first() + r2);
        match spec_apply_action(d, r1[0].1, log) {
            Ok(d2) => {
                lemma_fold_split(d2, r1.drop_first(), r2, log);
            },
            Err(ApplyError::LookupFailure) => {
                lemma_fold_split(d, r1.drop_first(), r2, log);
            },
            Err(_) => {
            },
        }
    }
}

/// Causal readiness, at any position of the replay: when the operations
/// before an operation replay cleanly and the operation's anchor is still
/// unresolvable in the document they produce, the whole replay equals the
/// replay without that operation — it contributes nothing until the
/// operation it references is present.
pub proof fn lemma_deferred_at_position(
    d: DocumentStateView,
    pre: Seq<(NodeId, ActionView)>,
    x: (NodeId, ActionView),
    post: Seq<(NodeId, ActionView)>,
    log: Seq<(NodeId, ActionView)>,
)
    requires
        spec_fold_from(d, pre, log).1 is None,
        spec_apply_action(spec_fold_from(d, pre, log).0, x.1, log) == Err::<
            DocumentStateView,
            ApplyError,
        >(ApplyError::LookupFailure),
    ensures
        spec_fold_from(d, pre + seq![x] + post, log) == spec_fold_from(d, pre + post, log),
{
    let mid = spec_fold_from(d, pre, log).0;
    lemma_fold_split(d, pre, seq![x] + post, log);
    lemma_fold_split(d, pre, post, log);
    assert((seq![x] + post)[0] == x);
    assert((seq![x] + post).drop_first() =~= post);
    assert(spec_fold_from(mid, seq![x] + post, log) == spec_fold_from(mid, post, log));
    assert(pre + seq![x] + post =~= pre + (seq![x] + post));
    assert(spec_fold_from(d, pre + seq![x] + post, log) == spec_fold_from(
        d,
        pre + (seq![x] + post),
        log,
    ));
}

/// Causal readiness, round trip: delivering two distinct operations in
/// either order leaves a replica with the same ordered log, and so with
/// the same folded document.  With deferral (above), an operation that
/// arrived before the operation it references contributes nothing until
/// the reference arrives; once both are in the log, the fold no longer
/// depends on which came first.
pub proof fn lemma_delivery_order_irrelevant(
    log0: Seq<(NodeId, ActionView)>,
    log_first_second: Seq<(NodeId, ActionView)>,
    log_second_first: Seq<(NodeId, ActionView)>,
    id1: NodeId,
    a1: ActionView,
    id2: NodeId,
    a2: ActionView,
)
    requires
        ops_sorted(log_first_second),
        ops_sorted(log_second_first),
        id1 != id2,
        ops_map(log_first_second) == ops_map(log0).insert(id1, a1).insert(id2, a2),
        ops_map(log_second_first) == ops_map(log0).insert(id2, a2).insert(id1, a1),
    ensures
        log_first_second == log_second_first,
        spec_fold_from(
            DocumentStateView::spec_empty(),
            log_first_second,
            log_first_second,
        ) == spec_fold_from(
            DocumentStateView::spec_empty(),
            log_second_first,
            log_second_first,
        ),
{
    assert(ops_map(log0).insert(id1, a1).insert(id2, a2) =~= ops_map(log0).insert(
        id2,
        a2,
    ).insert(id1, a1));
    lemma_sorted_log_determined(log_first_second, log_second_first);
}

/// Split contiguity, at the splitting step: splitting a fragment anywhere
/// within its closed span yields two fragments of the same insertion whose
/// spans are contiguous, partition the original span exactly, and record
/// their boundary; a boundary split leaves one half empty.
pub proof fn lemma_split_contiguity(t: TextNodeView, k: u32)
    requires
        t.is_fragment(),
        t.wf(),
        match t.spec_relative_position(Some(k)) {
            RelativePosition::AtBeginning => true,
            RelativePosition::Middle => true,
            RelativePosition::AtEnd => true,
            RelativePosition::Before => false,
            RelativePosition::After => false,
        },
    ensures
        t.spec_split_front(k).frag_node() == t.frag_node(),
        t.spec_split_back(k).frag_node() == t.frag_node(),
        t.spec_split_front(k).frag_offset() == t.frag_offset(),
        t.spec_split_front(k).frag_offset() + t.spec_split_front(k).frag_len() == k,
        t.spec_split_front(k).frag_offset_after() == Some(k),
        t.spec_split_back(k).frag_offset() == k,
        t.spec_split_back(k).frag_offset() + t.spec_split_back(k).frag_len() == t.frag_offset()
            + t.frag_len(),
        t.spec_split_back(k).frag_offset_after() == t.frag_offset_after(),
        t.spec_split_front(k).frag_len() + t.spec_split_back(k).frag_len() == t.frag_len(),
        t.spec_split_front(k).wf(),
        t.spec_split_back(k).wf(),
{
}

/// Whether some live paragraph of the document carries this identifier.
pub open spec fn paragraph_live(d: DocumentStateView, pid: ParagraphId) -> bool {
    exists|p: int| 0 <= p < d.paragraphs.len() && (#[trigger] d.paragraphs[p]).paragraph_id == pid
        && !d.paragraphs[p].tombstone
}

/// Whether some live text fragment of this insertion stands in the
/// document.
pub open spec fn node_live(d: DocumentStateView, nid: NodeId) -> bool {
    exists|p: int, j: int| 0 <= p < d.paragraphs.len() && 0 <= j < (
    #[trigger] d.paragraphs[p]).contents.len() && (#[trigger] d.paragraphs[p].contents[j])
        is Text && d.paragraphs[p].contents[j].frag_node() == nid
}

/// Whether the anchor points at live content.
pub open spec fn anchor_live(d: DocumentStateView, a: TextOrParagraphAnchor) -> bool {
    match a {
        TextOrParagraphAnchor::ParagraphAnchor(pa) => paragraph_live(d, pa.paragraph_id),
        TextOrParagraphAnchor::TextAnchor(ta) => node_live(d, ta.at_node),
    }
}

/// An end-form anchor adopted from a live entry points at live content.
pub proof fn lemma_adopt_previous_live(d: DocumentStateView, p: int, j: Option<int>)
    ensures
        match spec_adopt_previous(d, p, j) {
            Some(adopted) => anchor_live(d, adopted),
            None => true,
        },
{
    if spec_entry_live(d, p, j) {
        match j {
            None => {
                assert(paragraph_live(d, d.paragraphs[p].paragraph_id));
            },
            Some(jj) => {
                assert(d.paragraphs[p].contents[jj] is Text);
                assert(node_live(d, d.paragraphs[p].contents[jj].frag_node()));
            },
        }
    }
}

/// A beginning-form anchor adopted from a live entry points at live
/// content.
pub proof fn lemma_adopt_following_live(d: DocumentStateView, p: int, j: Option<int>)
    ensures
        match spec_adopt_following(d, p, j) {
            Some(adopted) => anchor_live(d, adopted),
            None => true,
        },
{
    if spec_entry_live(d, p, j) {
        match j {
            None => {
                assert(paragraph_live(d, d.paragraphs[p].paragraph_id));
            },
            Some(jj) => {
                assert(d.paragraphs[p].contents[jj] is Text);
                assert(node_live(d, d.paragraphs[p].contents[jj].frag_node()));
            },
        }
    }
}

/// Every resolved anchor points at live content, or is the origin
/// fallback.  (Only in a document whose every paragraph is tombstoned with
/// nothing live to adopt does the fallback point at a tombstone.)
pub proof fn lemma_resolve_anchor_live_general(d: DocumentStateView, a: TextOrParagraphAnchor)
    ensures
        anchor_live(d, spec_resolve_anchor(d, a)) || spec_resolve_anchor(d, a)
            == spec_origin_anchor(),
{
    match crate::doc::spec_find(d, a) {
        None => {
        },
        Some((p, j)) => {
            if spec_entry_live(d, p, j) {
                match a {
                    TextOrParagraphAnchor::TextAnchor(ta) => {
                        crate::fold::lemma_find_fragment_props(d.paragraphs, ta, 0);
                        let jj = j->Some_0;
                        assert(d.paragraphs[p].contents[jj].spec_contains(ta));
                        assert(d.paragraphs[p].contents[jj] is Text);
                        assert(node_live(d, ta.at_node));
                    },
                    TextOrParagraphAnchor::ParagraphAnchor(pa) => {
                        crate::fold::lemma_find_paragraph_props(d.paragraphs, pa.paragraph_id, 0);
                        assert(paragraph_live(d, pa.paragraph_id));
                    },
                }
            } else {
                let back = crate::iter::spec_skip_decr(d, p, j);
                lemma_adopt_previous_live(d, back.0, back.1);
                let fwd = crate::iter::spec_skip_incr(d, p, j);
                lemma_adopt_following_live(d, fwd.0, fwd.1);
            }
        },
    }
}

/// Selection liveness: in a document whose origin paragraph is live, the
/// projection of any stored selection points only at live paragraphs or
/// live text fragments.  (Without a live origin the fallback itself would
/// point at the tombstoned origin; such documents are excluded here, and
/// the lemma below covers them.)
pub proof fn lemma_selection_liveness(d: DocumentStateView)
    requires
        d.wf(),
        !d.paragraphs[0].tombstone,
    ensures
        match spec_non_tombstone_selection(d) {
            ClientSelection::NotSelected => d.client_selection is NotSelected,
            ClientSelection::Caret(a) => anchor_live(d, a),
            ClientSelection::Range { begin, end } => anchor_live(d, begin) && anchor_live(
                d,
                end,
            ),
        },
{
    assert(paragraph_live(d, ParagraphId::spec_origin())) by {
        assert(d.paragraphs[0].paragraph_id == ParagraphId::spec_origin()
            && !d.paragraphs[0].tombstone);
    }
    match d.client_selection {
        ClientSelection::NotSelected => {
        },
        ClientSelection::Caret(a) => {
            lemma_resolve_anchor_live_general(d, a);
        },
        ClientSelection::Range { begin, end } => {
            lemma_resolve_anchor_live_general(d, begin);
            lemma_resolve_anchor_live_general(d, end);
        },
    }
}

/// Selection liveness, in general: every anchor of the projected selection
/// either points at live content or is the fallback anchor at the origin
/// paragraph.
pub proof fn lemma_selection_liveness_general(d: DocumentStateView)
    ensures
        match spec_non_tombstone_selection(d) {
            ClientSelection::NotSelected => d.client_selection is NotSelected,
            ClientSelection::Caret(a) => anchor_live(d, a) || a == spec_origin_anchor(),
            ClientSelection::Range { begin, end } => (anchor_live(d, begin) || begin
                == spec_origin_anchor()) && (anchor_live(d, end) || end
                == spec_origin_anchor()),
        },
{
    match d.client_selection {
        ClientSelection::NotSelected => {
        },
        ClientSelection::Caret(a) => {
            lemma_resolve_anchor_live_general(d, a);
        },
        ClientSelection::Range { begin, end } => {
            lemma_resolve_anchor_live_general(d, begin);
            lemma_resolve_anchor_live_general(d, end);
        },
    }
}

/// Whether some paragraph of the document, live or tombstoned, carries
/// this identifier.
pub open spec fn doc_has_paragraph(d: DocumentStateView, pid: ParagraphId) -> bool {
    exists|p: int| 0 <= p < d.paragraphs.len() && (#[trigger] d.paragraphs[p]).paragraph_id == pid
}

/// Whether some fragment of this insertion, live or tombstoned, stands in
/// the given contents.
pub open spec fn contents_has_node(cs: Seq<TextNodeView>, nid: NodeId) -> bool {
    exists|j: int| 0 <= j < cs.len() && (#[trigger] cs[j]).is_fragment() && cs[j].frag_node()
        == nid
}

/// Whether some fragment of this insertion, live or tombstoned, stands in
/// the document.
pub open spec fn doc_has_node(d: DocumentStateView, nid: NodeId) -> bool {
    exists|p: int| 0 <= p < d.paragraphs.len() && contents_has_node(
        (#[trigger] d.paragraphs[p]).contents,
        nid,
    )
}

/// Parting paragraph contents around an insertion point loses no
/// insertion: every node of the contents stands in one of the two halves.
proof fn lemma_cut_keeps_nodes(
    cs: Seq<TextNodeView>,
    anchor: TextAnchor,
    f: int,
    log: Seq<(NodeId, ActionView)>,
    nid: NodeId,
)
    requires
        0 <= f < cs.len(),
        cs[f].spec_contains(anchor),
        contents_has_node(cs, nid),
    ensures
        contents_has_node(crate::fold::spec_insert_cut(cs, anchor, f, log).0, nid)
            || contents_has_node(crate::fold::spec_insert_cut(cs, anchor, f, log).1, nid),
{
    let cut = crate::fold::spec_insert_cut(cs, anchor, f, log);
    let j = choose|j: int|
        0 <= j < cs.len() && (#[trigger] cs[j]).is_fragment() && cs[j].frag_node() == nid;
    match cs[f].spec_relative_position(anchor.at_index) {
        RelativePosition::AtBeginning => {
            if j < f {
                assert(cut.0[j] == cs[j]);
            } else {
                assert(cut.1[j - f] == cs[j]);
            }
        },
        RelativePosition::Middle => {
            let k = anchor.at_index->Some_0;
            if j < f {
                assert(cut.0[j] == cs[j]);
            } else if j == f {
                assert(cut.0[f] == cs[f].spec_split_front(k));
                assert(cut.0[f].is_fragment() && cut.0[f].frag_node() == nid);
            } else {
                assert(cut.1[1 + (j - f - 1)] == cs[j]);
            }
        },
        _ => {
            if anchor.at_index is None {
                let js = spec_text_skip_from(cs, log, anchor, f + 1);
                lemma_tie_break_placement(cs, log, anchor, f + 1);
                if j < js {
                    assert(cut.0[j] == cs[j]);
                } else {
                    assert(cut.1[j - js] == cs[j]);
                }
            } else {
                if j < f + 1 {
                    assert(cut.0[j] == cs[j]);
                } else {
                    assert(cut.1[j - (f + 1)] == cs[j]);
                }
            }
        },
    }
}

/// Tombstone stability: an operation that applies never removes a
/// paragraph or an insertion from the document.  Every identifier that was
/// locatable before — live or as a tombstone — is locatable afterwards.
pub proof fn lemma_tombstone_stability(
    d: DocumentStateView,
    a: ActionView,
    log: Seq<(NodeId, ActionView)>,
)
    requires
        spec_apply_action(d, a, log) is Ok,
    ensures
        forall|pid: ParagraphId| doc_has_paragraph(d, pid) ==> #[trigger] doc_has_paragraph(
            spec_apply_action(d, a, log)->Ok_0,
            pid,
        ),
        forall|nid: NodeId| doc_has_node(d, nid) ==> #[trigger] doc_has_node(
            spec_apply_action(d, a, log)->Ok_0,
            nid,
        ),
{
    let d2 = spec_apply_action(d, a, log)->Ok_0;
    match a {
        ActionView::ParagraphInsert { anchor, position, first_paragraph, additional_paragraphs } => {
            let i = crate::doc::spec_find_paragraph_from(d.paragraphs, anchor, 0)->Some_0;
            crate::fold::lemma_find_paragraph_props(d.paragraphs, anchor, 0);
            let ps1 = if !d.paragraphs[i].tombstone && d.paragraphs[i].spec_is_empty() {
                d.paragraphs.update(
                    i,
                    crate::paragraph::ParagraphNodeView {
                        paragraph_id: d.paragraphs[i].paragraph_id,
                        tombstone: true,
                        contents: d.paragraphs[i].contents,
                    },
                )
            } else {
                d.paragraphs
            };
            let jx = crate::fold::spec_pi_skip_from(ps1, log, anchor, i + 1);
            crate::fold::lemma_pi_skip_bounds(ps1, log, anchor, i + 1);
            let news = crate::fold::spec_pi_new_paragraphs(
                first_paragraph,
                additional_paragraphs,
            );
            assert(d2.paragraphs == ps1.take(jx) + news + ps1.skip(jx));
            assert(forall|q: int| 0 <= q < jx ==> d2.paragraphs[q] == ps1[q]);
            assert(forall|q: int| jx <= q < ps1.len() ==> d2.paragraphs[q + news.len()]
                == ps1[q]);
            assert(forall|q: int| 0 <= q < ps1.len() ==> (#[trigger] ps1[q]).paragraph_id
                == d.paragraphs[q].paragraph_id && ps1[q].contents == d.paragraphs[q].contents);
            assert forall|pid: ParagraphId| doc_has_paragraph(d, pid) implies #[trigger] doc_has_paragraph(
                d2,
                pid,
            ) by {
                let q = choose|q: int|
                    0 <= q < d.paragraphs.len() && (#[trigger] d.paragraphs[q]).paragraph_id
                        == pid;
                if q < jx {
                    assert(d2.paragraphs[q] == ps1[q]);
                } else {
                    assert(d2.paragraphs[q + news.len()] == ps1[q]);
                }
            }
            assert forall|nid: NodeId| doc_has_node(d, nid) implies #[trigger] doc_has_node(
                d2,
                nid,
            ) by {
                let q = choose|q: int|
                    0 <= q < d.paragraphs.len() && contents_has_node(
                        (#[trigger] d.paragraphs[q]).contents,
                        nid,
                    );
                if q < jx {
                    assert(d2.paragraphs[q] == ps1[q]);
                    assert(contents_has_node(d2.paragraphs[q].contents, nid));
                } else {
                    assert(d2.paragraphs[q + news.len()] == ps1[q]);
                    assert(contents_has_node(d2.paragraphs[q + news.len()].contents, nid));
                }
            }
        },
        ActionView::Insert { anchor, before_paragraphs, paragraphs } => {
            let pf = crate::doc::spec_find_fragment_from(d.paragraphs, anchor, 0)->Some_0;
            let p = pf.0;
            let f = pf.1;
            crate::fold::lemma_find_fragment_props(d.paragraphs, anchor, 0);
            let cs = d.paragraphs[p].contents;
            let cut = crate::fold::spec_insert_cut(cs, anchor, f, log);
            match paragraphs {
                None => {
                    assert forall|pid: ParagraphId| doc_has_paragraph(d, pid)
                        implies #[trigger] doc_has_paragraph(d2, pid) by {
                        let q = choose|q: int|
                            0 <= q < d.paragraphs.len() && (
                            #[trigger] d.paragraphs[q]).paragraph_id == pid;
                        assert(d2.paragraphs[q].paragraph_id == pid);
                    }
                    assert forall|nid: NodeId| doc_has_node(d, nid)
                        implies #[trigger] doc_has_node(d2, nid) by {
                        let q = choose|q: int|
                            0 <= q < d.paragraphs.len() && contents_has_node(
                                (#[trigger] d.paragraphs[q]).contents,
                                nid,
                            );
                        if q != p {
                            assert(d2.paragraphs[q] == d.paragraphs[q]);
                        } else {
                            lemma_cut_keeps_nodes(cs, anchor, f, log, nid);
                            let combined = d2.paragraphs[p].contents;
                            let new_nodes = crate::paragraph::spec_nodes_of_runs(
                                before_paragraphs,
                            );
                            assert(combined == cut.0 + new_nodes + cut.1);
                            if contents_has_node(cut.0, nid) {
                                let j = choose|j: int|
                                    0 <= j < cut.0.len() && (#[trigger] cut.0[j]).is_fragment()
                                        && cut.0[j].frag_node() == nid;
                                assert(combined[j] == cut.0[j]);
                            } else {
                                let j = choose|j: int|
                                    0 <= j < cut.1.len() && (#[trigger] cut.1[j]).is_fragment()
                                        && cut.1[j].frag_node() == nid;
                                assert(combined[cut.0.len() + new_nodes.len() + j] == cut.1[j]);
                            }
                            assert(contents_has_node(combined, nid));
                        }
                    }
                },
                Some((mids, after_pid, after_texts)) => {
                    let mids_seq = Seq::new(
                        mids.len(),
                        |i: int| crate::paragraph::Paragraph::spec_from_new_paragraph(mids[i]),
                    );
                    let left_len = p + 1;
                    let after_index = p + 1 + mids.len();
                    assert(d2.paragraphs.len() == d.paragraphs.len() + mids.len() + 1);
                    assert(forall|q: int| 0 <= q < p ==> d2.paragraphs[q] == d.paragraphs[q]);
                    assert(forall|q: int| p < q < d.paragraphs.len() ==> d2.paragraphs[q
                        + mids.len() + 1] == d.paragraphs[q]);
                    assert(d2.paragraphs[p as int].paragraph_id == d.paragraphs[p].paragraph_id);
                    assert forall|pid: ParagraphId| doc_has_paragraph(d, pid)
                        implies #[trigger] doc_has_paragraph(d2, pid) by {
                        let q = choose|q: int|
                            0 <= q < d.paragraphs.len() && (
                            #[trigger] d.paragraphs[q]).paragraph_id == pid;
                        if q < p {
                            assert(d2.paragraphs[q].paragraph_id == pid);
                        } else if q == p {
                            assert(d2.paragraphs[p as int].paragraph_id == pid);
                        } else {
                            assert(d2.paragraphs[q + mids.len() + 1].paragraph_id == pid);
                        }
                    }
                    assert forall|nid: NodeId| doc_has_node(d, nid)
                        implies #[trigger] doc_has_node(d2, nid) by {
                        let q = choose|q: int|
                            0 <= q < d.paragraphs.len() && contents_has_node(
                                (#[trigger] d.paragraphs[q]).contents,
                                nid,
                            );
                        if q < p {
                            assert(d2.paragraphs[q] == d.paragraphs[q]);
                        } else if q > p {
                            assert(d2.paragraphs[q + mids.len() + 1] == d.paragraphs[q]);
                        } else {
                            lemma_cut_keeps_nodes(cs, anchor, f, log, nid);
                            let new_nodes = crate::paragraph::spec_nodes_of_runs(
                                before_paragraphs,
                            );
                            let after_runs = crate::paragraph::spec_nodes_of_runs(after_texts);
                            if contents_has_node(cut.0, nid) {
                                let j = choose|j: int|
                                    0 <= j < cut.0.len() && (#[trigger] cut.0[j]).is_fragment()
                                        && cut.0[j].frag_node() == nid;
                                assert(d2.paragraphs[p as int].contents == cut.0 + new_nodes);
                                assert(d2.paragraphs[p as int].contents[j] == cut.0[j]);
                                assert(contents_has_node(d2.paragraphs[p as int].contents, nid));
                            } else {
                                let j = choose|j: int|
                                    0 <= j < cut.1.len() && (#[trigger] cut.1[j]).is_fragment()
                                        && cut.1[j].frag_node() == nid;
                                assert(d2.paragraphs[after_index].contents == after_runs + cut.1);
                                assert(d2.paragraphs[after_index].contents[after_runs.len() + j]
                                    == cut.1[j]);
                                assert(contents_has_node(d2.paragraphs[after_index].contents, nid));
                            }
                        }
                    }
                },
            }
        },
        _ => {},
    }
}

/// The other half of tombstone stability: every identifier an applied
/// operation introduces — the paragraphs it creates and the insertions its
/// runs mint — is locatable in the resulting document.
pub proof fn lemma_applied_ids_locatable(
    d: DocumentStateView,
    a: ActionView,
    log: Seq<(NodeId, ActionView)>,
)
    requires
        spec_apply_action(d, a, log) is Ok,
    ensures
        ({
            let d2 = spec_apply_action(d, a, log)->Ok_0;
            match a {
                ActionView::ParagraphInsert { first_paragraph, additional_paragraphs, .. } => {
                    &&& doc_has_paragraph(d2, first_paragraph.node_id)
                    &&& forall|k: int| 0 <= k < additional_paragraphs.len()
                        ==> doc_has_paragraph(d2, (#[trigger] additional_paragraphs[k]).0)
                    &&& forall|j: int| 0 <= j < first_paragraph.text.len() ==> doc_has_node(
                        d2,
                        (#[trigger] first_paragraph.text[j]).node_id,
                    )
                    &&& forall|k: int, j: int|
                        #![trigger additional_paragraphs[k].1.text[j]]
                        0 <= k < additional_paragraphs.len() && 0 <= j
                            < additional_paragraphs[k].1.text.len() ==> doc_has_node(
                            d2,
                            additional_paragraphs[k].1.text[j].node_id,
                        )
                },
                ActionView::Insert { before_paragraphs, paragraphs, .. } => {
                    &&& forall|j: int| 0 <= j < before_paragraphs.len() ==> doc_has_node(
                        d2,
                        (#[trigger] before_paragraphs[j]).node_id,
                    )
                    &&& match paragraphs {
                        Some((mids, after_pid, texts)) => {
                            &&& doc_has_paragraph(d2, after_pid)
                            &&& forall|k: int| 0 <= k < mids.len() ==> doc_has_paragraph(
                                d2,
                                (#[trigger] mids[k]).node_id,
                            )
                            &&& forall|k: int, j: int|
                                #![trigger mids[k].text[j]]
                                0 <= k < mids.len() && 0 <= j < mids[k].text.len()
                                    ==> doc_has_node(d2, mids[k].text[j].node_id)
                            &&& forall|j: int| 0 <= j < texts.len() ==> doc_has_node(
                                d2,
                                (#[trigger] texts[j]).node_id,
                            )
                        },
                        None => true,
                    }
                },
                _ => true,
            }
        }),
{
    let d2 = spec_apply_action(d, a, log)->Ok_0;
    match a {
        ActionView::ParagraphInsert { anchor, position, first_paragraph, additional_paragraphs } => {
            let i = crate::doc::spec_find_paragraph_from(d.paragraphs, anchor, 0)->Some_0;
            crate::fold::lemma_find_paragraph_props(d.paragraphs, anchor, 0);
            let ps1 = if !d.paragraphs[i].tombstone && d.paragraphs[i].spec_is_empty() {
                d.paragraphs.update(
                    i,
                    crate::paragraph::ParagraphNodeView {
                        paragraph_id: d.paragraphs[i].paragraph_id,
                        tombstone: true,
                        contents: d.paragraphs[i].contents,
                    },
                )
            } else {
                d.paragraphs
            };
            let jx = crate::fold::spec_pi_skip_from(ps1, log, anchor, i + 1);
            crate::fold::lemma_pi_skip_bounds(ps1, log, anchor, i + 1);
            let news = crate::fold::spec_pi_new_paragraphs(first_paragraph, additional_paragraphs);
            assert(d2.paragraphs == ps1.take(jx) + news + ps1.skip(jx));
            assert(d2.paragraphs[jx] == news[0]);
            assert(doc_has_paragraph(d2, first_paragraph.node_id));
            assert forall|k: int| 0 <= k < additional_paragraphs.len()
                implies doc_has_paragraph(d2, (#[trigger] additional_paragraphs[k]).0) by {
                assert(d2.paragraphs[jx + 1 + k] == news[1 + k]);
            }
            assert forall|j: int| 0 <= j < first_paragraph.text.len() implies doc_has_node(
                d2,
                (#[trigger] first_paragraph.text[j]).node_id,
            ) by {
                assert(d2.paragraphs[jx].contents[j] == crate::paragraph::spec_nodes_of_runs(
                    first_paragraph.text,
                )[j]);
                assert(contents_has_node(
                    d2.paragraphs[jx].contents,
                    first_paragraph.text[j].node_id,
                ));
            }
            assert forall|k: int, j: int|
                #![trigger additional_paragraphs[k].1.text[j]]
                0 <= k < additional_paragraphs.len() && 0 <= j
                    < additional_paragraphs[k].1.text.len() implies doc_has_node(
                d2,
                additional_paragraphs[k].1.text[j].node_id,
            ) by {
                assert(d2.paragraphs[jx + 1 + k] == news[1 + k]);
                assert(d2.paragraphs[jx + 1 + k].contents[j]
                    == crate::paragraph::spec_nodes_of_runs(additional_paragraphs[k].1.text)[j]);
                assert(contents_has_node(
                    d2.paragraphs[jx + 1 + k].contents,
                    additional_paragraphs[k].1.text[j].node_id,
                ));
            }
        },
        ActionView::Insert { anchor, before_paragraphs, paragraphs } => {
            let pf = crate::doc::spec_find_fragment_from(d.paragraphs, anchor, 0)->Some_0;
            let p = pf.0;
            let f = pf.1;
            crate::fold::lemma_find_fragment_props(d.paragraphs, anchor, 0);
            let cs = d.paragraphs[p].contents;
            let cut = crate::fold::spec_insert_cut(cs, anchor, f, log);
            let new_nodes = crate::paragraph::spec_nodes_of_runs(before_paragraphs);
            match paragraphs {
                None => {
                    assert forall|j: int| 0 <= j < before_paragraphs.len() implies doc_has_node(
                        d2,
                        (#[trigger] before_paragraphs[j]).node_id,
                    ) by {
                        assert(d2.paragraphs[p].contents == cut.0 + new_nodes + cut.1);
                        assert(d2.paragraphs[p].contents[cut.0.len() + j] == new_nodes[j]);
                        assert(contents_has_node(
                            d2.paragraphs[p].contents,
                            before_paragraphs[j].node_id,
                        ));
                    }
                },
                Some((mids, after_pid, texts)) => {
                    let mids_seq = Seq::new(
                        mids.len(),
                        |k: int| crate::paragraph::Paragraph::spec_from_new_paragraph(mids[k]),
                    );
                    let after_index = p + 1 + mids.len();
                    assert(d2.paragraphs.len() == d.paragraphs.len() + mids.len() + 1);
                    assert(d2.paragraphs[p].contents == cut.0 + new_nodes);
                    assert(d2.paragraphs[after_index].paragraph_id == after_pid);
                    assert(doc_has_paragraph(d2, after_pid));
                    assert forall|k: int| 0 <= k < mids.len() implies doc_has_paragraph(
                        d2,
                        (#[trigger] mids[k]).node_id,
                    ) by {
                        assert(d2.paragraphs[p + 1 + k] == mids_seq[k]);
                    }
                    assert forall|j: int| 0 <= j < before_paragraphs.len() implies doc_has_node(
                        d2,
                        (#[trigger] before_paragraphs[j]).node_id,
                    ) by {
                        assert(d2.paragraphs[p].contents[cut.0.len() + j] == new_nodes[j]);
                        assert(contents_has_node(
                            d2.paragraphs[p].contents,
                            before_paragraphs[j].node_id,
                        ));
                    }
                    assert forall|k: int, j: int|
                        #![trigger mids[k].text[j]]
                        0 <= k < mids.len() && 0 <= j < mids[k].text.len()
                        implies doc_has_node(d2, mids[k].text[j].node_id) by {
                        assert(d2.paragraphs[p + 1 + k] == mids_seq[k]);
                        assert(d2.paragraphs[p + 1 + k].contents[j]
                            == crate::paragraph::spec_nodes_of_runs(mids[k].text)[j]);
                        assert(contents_has_node(
                            d2.paragraphs[p + 1 + k].contents,
                            mids[k].text[j].node_id,
                        ));
                    }
                    assert forall|j: int| 0 <= j < texts.len() implies doc_has_node(
                        d2,
                        (#[trigger] texts[j]).node_id,
                    ) by {
                        assert(d2.paragraphs[after_index].contents
                            == crate::paragraph::spec_nodes_of_runs(texts) + cut.1);
                        assert(d2.paragraphs[after_index].contents[j]
                            == crate::paragraph::spec_nodes_of_runs(texts)[j]);
                        assert(contents_has_node(
                            d2.paragraphs[after_index].contents,
                            texts[j].node_id,
                        ));
                    }
                },
            }
        },
        _ => {},
    }
}

/// Tombstone stability, over a whole replay: every paragraph and every
/// insertion locatable when the replay starts is still locatable in
/// whatever document the replay produces, however many operations apply,
/// defer, or stop it.
pub proof fn lemma_fold_tombstone_stability(
    d: DocumentStateView,
    rest: Seq<(NodeId, ActionView)>,
    log: Seq<(NodeId, ActionView)>,
)
    ensures
        forall|pid: ParagraphId| doc_has_paragraph(d, pid) ==> #[trigger] doc_has_paragraph(
            spec_fold_from(d, rest, log).0,
            pid,
        ),
        forall|nid: NodeId| doc_has_node(d, nid) ==> #[trigger] doc_has_node(
            spec_fold_from(d, rest, log).0,
            nid,
        ),
    decreases rest.len(),
{
    if rest.len() > 0 {
        match spec_apply_action(d, rest[0].1, log) {
            Ok(d2) => {
                lemma_tombstone_stability(d, rest[0].1, log);
                lemma_fold_tombstone_stability(d2, rest.drop_first(), log);
                assert(spec_fold_from(d, rest, log) == spec_fold_from(
                    d2,
                    rest.drop_first(),
                    log,
                ));
                assert forall|pid: ParagraphId| doc_has_paragraph(d, pid)
                    implies #[trigger] doc_has_paragraph(spec_fold_from(d, rest, log).0, pid) by {
                    assert(doc_has_paragraph(d2, pid));
                    assert(doc_has_paragraph(spec_fold_from(d2, rest.drop_first(), log).0, pid));
                }
                assert forall|nid: NodeId| doc_has_node(d, nid) implies #[trigger] doc_has_node(
                    spec_fold_from(d, rest, log).0,
                    nid,
                ) by {
                    assert(doc_has_node(d2, nid));
                    assert(doc_has_node(spec_fold_from(d2, rest.drop_first(), log).0, nid));
                }
            },
            Err(ApplyError::LookupFailure) => {
                lemma_fold_tombstone_stability(d, rest.drop_first(), log);
                assert(spec_fold_from(d, rest, log) == spec_fold_from(
                    d,
                    rest.drop_first(),
                    log,
                ));
                assert forall|pid: ParagraphId| doc_has_paragraph(d, pid)
                    implies #[trigger] doc_has_paragraph(spec_fold_from(d, rest, log).0, pid) by {
                    assert(doc_has_paragraph(spec_fold_from(d, rest.drop_first(), log).0, pid));
                }
                assert forall|nid: NodeId| doc_has_node(d, nid) implies #[trigger] doc_has_node(
                    spec_fold_from(d, rest, log).0,
                    nid,
                ) by {
                    assert(doc_has_node(spec_fold_from(d, rest.drop_first(), log).0, nid));
                }
            },
            Err(_) => {
                assert(spec_fold_from(d, rest, log).0 == d);
            },
        }
    }
}

/// Tie-break determinism, at the placement step: an insertion at the tail
/// of an insertion lands past exactly the run of fragments that the log
/// ties to the same anchor, so content inserted by an earlier operation —
/// already adjacent to the anchor when a later operation is replayed —
/// stays between the anchor and the later operation's content.  Together
/// with the fold being a function of the ordered log alone, every replica
/// orders concurrent insertions at one anchor identically, ascending by
/// operation identifier.
pub proof fn lemma_tie_break_placement(
    cs: Seq<TextNodeView>,
    log: Seq<(NodeId, ActionView)>,
    anchor: TextAnchor,
    j0: int,
)
    requires
        0 <= j0 <= cs.len(),
    ensures
        j0 <= spec_text_skip_from(cs, log, anchor, j0) <= cs.len(),
        forall|jj: int| j0 <= jj < spec_text_skip_from(cs, log, anchor, j0) ==> (
        #[trigger] cs[jj]).is_fragment() && spec_text_tied(log, cs[jj].frag_node(), anchor),
        spec_text_skip_from(cs, log, anchor, j0) < cs.len() ==> !(cs[spec_text_skip_from(
            cs,
            log,
            anchor,
            j0,
        )].is_fragment() && spec_text_tied(
            log,
            cs[spec_text_skip_from(cs, log, anchor, j0)].frag_node(),
            anchor,
        )),
    decreases cs.len() - j0,
{
    if j0 < cs.len() && cs[j0].is_fragment() && spec_text_tied(log, cs[j0].frag_node(), anchor) {
        lemma_tie_break_placement(cs, log, anchor, j0 + 1);
    }
}

/// Tie-break determinism: when two text insertions at the same tail anchor
/// are replayed in ascending identifier order — as the fold replays them —
/// the later one lands on the far side of the earlier one.  The anchor's
/// paragraph ends up holding its content up to the anchor's gap, then the
/// earlier insertion's fragments, then the later insertion's fragments,
/// then the rest; so the earlier operation's content stays adjacent to the
/// anchor on every replica.
pub proof fn lemma_tie_break_two_inserts(
    d: DocumentStateView,
    anchor: TextAnchor,
    runs1: Seq<crate::format::PartiallyFormattedTextView>,
    runs2: Seq<crate::format::PartiallyFormattedTextView>,
    log: Seq<(NodeId, ActionView)>,
)
    requires
        anchor.at_index is None,
        crate::fold::spec_apply_insert(d, anchor, runs1, None, log) is Ok,
        forall|k: int| 0 <= k < runs1.len() ==> spec_text_tied(
            log,
            (#[trigger] runs1[k]).node_id,
            anchor,
        ),
        forall|k: int| 0 <= k < runs1.len() ==> (#[trigger] runs1[k]).node_id != anchor.at_node,
    ensures
        ({
            let d1 = crate::fold::spec_apply_insert(d, anchor, runs1, None, log)->Ok_0;
            let r2 = crate::fold::spec_apply_insert(d1, anchor, runs2, None, log);
            let pf = crate::doc::spec_find_fragment_from(d.paragraphs, anchor, 0)->Some_0;
            let cs = d.paragraphs[pf.0].contents;
            let js = spec_text_skip_from(cs, log, anchor, pf.1 + 1);
            r2 is Ok && r2->Ok_0.paragraphs == d.paragraphs.update(
                pf.0,
                crate::paragraph::ParagraphNodeView {
                    paragraph_id: d.paragraphs[pf.0].paragraph_id,
                    tombstone: d.paragraphs[pf.0].tombstone,
                    contents: cs.take(js) + crate::paragraph::spec_nodes_of_runs(runs1)
                        + crate::paragraph::spec_nodes_of_runs(runs2) + cs.skip(js),
                },
            )
        }),
{
    let d1 = crate::fold::spec_apply_insert(d, anchor, runs1, None, log)->Ok_0;
    let pf = crate::doc::spec_find_fragment_from(d.paragraphs, anchor, 0)->Some_0;
    let p = pf.0;
    let f = pf.1;
    crate::fold::lemma_find_fragment_props(d.paragraphs, anchor, 0);
    let cs = d.paragraphs[p].contents;
    let n1 = crate::paragraph::spec_nodes_of_runs(runs1);
    let n2 = crate::paragraph::spec_nodes_of_runs(runs2);
    assert(cs[f].spec_relative_position(anchor.at_index) == RelativePosition::AtEnd);
    let js = spec_text_skip_from(cs, log, anchor, f + 1);
    lemma_tie_break_placement(cs, log, anchor, f + 1);
    let cut = crate::fold::spec_insert_cut(cs, anchor, f, log);
    assert(cut.0 == cs.take(js) && cut.1 == cs.skip(js));
    let cs1 = cut.0 + n1 + cut.1;
    assert(d1.paragraphs == d.paragraphs.update(
        p,
        crate::paragraph::ParagraphNodeView {
            paragraph_id: d.paragraphs[p].paragraph_id,
            tombstone: d.paragraphs[p].tombstone,
            contents: cs1,
        },
    ));
    // The anchor still resolves at the same fragment: everything before it
    // is unchanged.
    assert(f < js && js <= cs.len());
    assert(forall|jj: int| 0 <= jj < js ==> cs1[jj] == cs[jj]);
    assert(cs1[f] == cs[f]);
    crate::fold::lemma_find_in_contents_props(cs, anchor, 0);
    assert(forall|jj: int| 0 <= jj < f ==> !(#[trigger] cs1[jj]).spec_contains(anchor));
    crate::fold::lemma_find_in_contents_unique(cs1, anchor, 0, f);
    assert(forall|q: int| 0 <= q < p ==> d1.paragraphs[q] == d.paragraphs[q]);
    crate::fold::lemma_find_fragment_unique(d1.paragraphs, anchor, 0, p, f);
    assert(crate::doc::spec_find_fragment_from(d1.paragraphs, anchor, 0) == Some((p, f)));
    // The anchor's insertion is present, so the second operation is not
    // deferred.
    assert(cs1[f].is_fragment() && cs1[f].frag_node() == anchor.at_node);
    if spec_find_text_node_from(d1.paragraphs, anchor.at_node, 0) is None {
        crate::fold::lemma_find_text_node_none(d1.paragraphs, anchor.at_node, 0);
        assert(false);
    }
    // The second insertion skips the earlier insertion's fragments as well.
    let m = js + n1.len();
    assert forall|jj: int| f + 1 <= jj < m implies (#[trigger] cs1[jj]).is_fragment()
        && spec_text_tied(log, cs1[jj].frag_node(), anchor) by {
        if jj < js {
            assert(cs1[jj] == cs[jj]);
        } else {
            assert(cs1[jj] == n1[jj - js]);
            assert(n1[jj - js] == TextNodeView::Text {
                node: runs1[jj - js].node_id,
                offset: 0,
                offset_after: None,
                text: runs1[jj - js].text,
            });
        }
    }
    assert(m < cs1.len() ==> !(cs1[m].is_fragment() && spec_text_tied(
        log,
        cs1[m].frag_node(),
        anchor,
    ))) by {
        if m < cs1.len() {
            assert(cs1[m] == cs[js]);
        }
    }
    crate::fold::lemma_text_skip_unique(cs1, log, anchor, f + 1, m);
    let cut2 = crate::fold::spec_insert_cut(cs1, anchor, f, log);
    assert(cs1[f].spec_relative_position(anchor.at_index) == RelativePosition::AtEnd);
    assert(cut2.0 == cs1.take(m) && cut2.1 == cs1.skip(m));
    assert(cs1.take(m) =~= cs.take(js) + n1);
    assert(cs1.skip(m) =~= cs.skip(js));
    let r2 = crate::fold::spec_apply_insert(d1, anchor, runs2, None, log);
    assert(r2 is Ok);
    assert(r2->Ok_0.paragraphs == d1.paragraphs.update(
        p,
        crate::paragraph::ParagraphNodeView {
            paragraph_id: d1.paragraphs[p].paragraph_id,
            tombstone: d1.paragraphs[p].tombstone,
            contents: cut2.0 + n2 + cut2.1,
        },
    ));
    assert(cut2.0 + n2 + cut2.1 =~= cs.take(js) + n1 + n2 + cs.skip(js));
    assert(r2->Ok_0.paragraphs =~= d.paragraphs.update(
        p,
        crate::paragraph::ParagraphNodeView {
            paragraph_id: d.paragraphs[p].paragraph_id,
            tombstone: d.paragraphs[p].tombstone,
            contents: cs.take(js) + n1 + n2 + cs.skip(js),
        },
    ));
}

} // verus!
