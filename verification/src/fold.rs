//! The folder: deterministic application of the ordered operation log.
//!
//! Folding replays every operation, in ascending identifier order, against a
//! document that starts empty.  An operation whose anchor cannot be resolved
//! even among tombstones is deferred: it is skipped by this fold and will
//! apply once the operation it references has arrived, which the full replay
//! performs on the next fold.  A malformed anchor is a fatal error, as is an
//! action whose semantics are not shipped; neither mutates the document
//! half-way: each operation applies atomically or not at all.
//!
//! Concurrent insertions at one anchor are ordered deterministically: the
//! replay applies them in ascending identifier order, and an insertion at a
//! paragraph anchor or at the tail of an insertion first steps over content
//! that earlier operations placed at the same anchor, so the earlier
//! operation's content stays adjacent to the anchor on every replica.

use vstd::prelude::*;
use crate::anchor::TextAnchor;
use crate::doc::{
    spec_find_fragment_from, spec_find_in_contents_from, spec_find_node_in_contents_from,
    spec_find_paragraph_from, spec_find_text_node_from, DocumentState, DocumentStateView,
};
use crate::format::{PartiallyFormattedText, PartiallyFormattedTextView};
use crate::ids::{ActionId, NodeId, ParagraphId};
use crate::node::{RelativePosition, TextNode, TextNodeView};
use crate::ops::{paragraphs_opt_view, Action, ActionView, Operations, ParagraphInsertPosition};
use crate::paragraph::{
    nodes_of_runs, spec_nodes_of_runs, NewParagraph, NewParagraphView, Paragraph, ParagraphNode,
    ParagraphNodeView, ParagraphTombstone,
};

verus! {

/// Why an operation did not apply.
#[derive(Clone, Copy, Debug, PartialEq, Eq, Structural)]
pub enum ApplyError {
    /// An anchor could not be resolved even among tombstones; the operation
    /// is deferred until the referenced identifier is known.
    LookupFailure,
    /// A text anchor's index lies outside its node's span: the operation is
    /// malformed.
    AnchorOutOfRange,
    /// Applying the operation would break a document invariant.
    InvariantViolation,
    /// The action's semantics are not shipped; the operation is refused
    /// without mutating state.
    UnsupportedAction,
}

/// Every run's text fits the machine range of offsets.
pub open spec fn runs_wf(runs: Seq<PartiallyFormattedTextView>) -> bool {
    forall|i: int| 0 <= i < runs.len() ==> (#[trigger] runs[i]).text.len() <= u32::MAX
}

/// Every run of the new paragraph fits the machine range of offsets.
pub open spec fn new_paragraph_wf(p: NewParagraphView) -> bool {
    runs_wf(p.text)
}

/// Well-formedness of an action: the text it carries fits the machine range
/// of offsets.
pub open spec fn action_wf(a: ActionView) -> bool {
    match a {
        ActionView::Insert { before_paragraphs, paragraphs, .. } => {
            &&& runs_wf(before_paragraphs)
            &&& match paragraphs {
                Some((ps, _, texts)) => runs_wf(texts) && forall|i: int|
                    0 <= i < ps.len() ==> new_paragraph_wf(#[trigger] ps[i]),
                None => true,
            }
        },
        ActionView::ParagraphInsert { first_paragraph, additional_paragraphs, .. } => {
            &&& new_paragraph_wf(first_paragraph)
            &&& forall|i: int| 0 <= i < additional_paragraphs.len() ==> new_paragraph_wf(
                (#[trigger] additional_paragraphs[i]).1,
            )
        },
        _ => true,
    }
}

/// Every action of the log is well formed.
pub open spec fn log_wf(s: Seq<(NodeId, ActionView)>) -> bool {
    forall|i: int| 0 <= i < s.len() ==> action_wf((#[trigger] s[i]).1)
}

/// Checks that every run's text fits the machine range of offsets.
pub fn check_runs_wf(runs: &Vec<PartiallyFormattedText>) -> (r: bool)
    ensures
        r == runs_wf(runs.deep_view()),
{
    let mut i: usize = 0;
    while i < runs.len()
        invariant
            i <= runs.len(),
            forall|j: int| 0 <= j < i ==> (#[trigger] runs.deep_view()[j]).text.len() <= u32::MAX,
        decreases runs.len() - i,
    {
        if runs[i].text.as_str().unicode_len() > u32::MAX as usize {
            proof {
                assert(runs.deep_view()[i as int].text.len() > u32::MAX);
            }
            return false;
        }
        proof {
            assert(runs.deep_view()[i as int].text.len() <= u32::MAX);
        }
        i = i + 1;
    }
    true
}

/// Checks that an action is well formed.
pub fn check_action_wf(a: &Action) -> (r: bool)
    ensures
        r == action_wf(a@),
{
    match a {
        Action::Insert { before_paragraphs, paragraphs, .. } => {
            if !check_runs_wf(before_paragraphs) {
                return false;
            }
            match paragraphs {
                Some((ps, _, texts)) => {
                    if !check_runs_wf(texts) {
                        return false;
                    }
                    let mut i: usize = 0;
                    while i < ps.len()
                        invariant
                            i <= ps.len(),
                            forall|j: int| 0 <= j < i ==> new_paragraph_wf(
                                #[trigger] ps.deep_view()[j],
                            ),
                        decreases ps.len() - i,
                    {
                        if !check_runs_wf(&ps[i].text) {
                            proof {
                                assert(a@->Insert_paragraphs->Some_0.0 == ps.deep_view());
                                assert(!new_paragraph_wf(ps.deep_view()[i as int]));
                                assert(!action_wf(a@));
                            }
                            return false;
                        }
                        proof {
                            assert(new_paragraph_wf(ps.deep_view()[i as int]));
                        }
                        i = i + 1;
                    }
                    true
                },
                None => true,
            }
        },
        Action::ParagraphInsert { first_paragraph, additional_paragraphs, .. } => {
            if !check_runs_wf(&first_paragraph.text) {
                return false;
            }
            let mut i: usize = 0;
            while i < additional_paragraphs.len()
                invariant
                    i <= additional_paragraphs.len(),
                    forall|j: int| 0 <= j < i ==> new_paragraph_wf(
                        (#[trigger] additional_paragraphs.deep_view()[j]).1,
                    ),
                decreases additional_paragraphs.len() - i,
            {
                if !check_runs_wf(&additional_paragraphs[i].1.text) {
                    proof {
                        assert(a@->ParagraphInsert_additional_paragraphs
                            == additional_paragraphs.deep_view());
                        assert(!new_paragraph_wf(additional_paragraphs.deep_view()[i as int].1));
                        assert(!action_wf(a@));
                    }
                    return false;
                }
                proof {
                    assert(new_paragraph_wf(additional_paragraphs.deep_view()[i as int].1));
                }
                i = i + 1;
            }
            true
        },
        _ => true,
    }
}

/// Whether the action's semantics are shipped: text insertions, and
/// paragraph insertions at an emptied anchor.
pub open spec fn spec_action_shipped(a: ActionView) -> bool {
    match a {
        ActionView::Insert { .. } => true,
        ActionView::ParagraphInsert { position, .. } => position
            == ParagraphInsertPosition::EraseAnchorIfEmpty,
        _ => false,
    }
}

/// Checks whether the action's semantics are shipped.
pub fn check_action_shipped(a: &Action) -> (r: bool)
    ensures
        r == spec_action_shipped(a@),
{
    match a {
        Action::Insert { .. } => true,
        Action::ParagraphInsert { position, .. } => {
            match position {
                ParagraphInsertPosition::EraseAnchorIfEmpty => true,
                _ => false,
            }
        },
        _ => false,
    }
}

/// The node identifiers of a sequence of runs, in order.
pub open spec fn spec_run_nodes(runs: Seq<PartiallyFormattedTextView>) -> Seq<NodeId> {
    Seq::new(runs.len(), |i: int| runs[i].node_id)
}

/// The node identifiers minted by a sequence of new paragraphs, from
/// paragraph `i` on.
pub open spec fn spec_new_paragraphs_nodes(ps: Seq<NewParagraphView>, i: int) -> Seq<NodeId>
    decreases ps.len() - i,
{
    if i < 0 || i >= ps.len() {
        Seq::empty()
    } else {
        spec_run_nodes(ps[i].text) + spec_new_paragraphs_nodes(ps, i + 1)
    }
}

/// The node identifiers minted by the additional paragraphs, from entry
/// `i` on.
pub open spec fn spec_additional_nodes(
    adds: Seq<(ParagraphId, NewParagraphView)>,
    i: int,
) -> Seq<NodeId>
    decreases adds.len() - i,
{
    if i < 0 || i >= adds.len() {
        Seq::empty()
    } else {
        spec_run_nodes(adds[i].1.text) + spec_additional_nodes(adds, i + 1)
    }
}

/// The node identifiers an action mints: every run it materializes carries
/// a fresh insertion identifier.
pub open spec fn spec_created_nodes(a: ActionView) -> Seq<NodeId> {
    match a {
        ActionView::Insert { before_paragraphs, paragraphs, .. } => spec_run_nodes(
            before_paragraphs,
        ) + match paragraphs {
            Some((mids, _, texts)) => spec_new_paragraphs_nodes(mids, 0) + spec_run_nodes(texts),
            None => Seq::empty(),
        },
        ActionView::ParagraphInsert { first_paragraph, additional_paragraphs, .. } =>
            spec_run_nodes(first_paragraph.text) + spec_additional_nodes(additional_paragraphs, 0),
        _ => Seq::empty(),
    }
}

/// Appends the node identifiers of the runs.
fn push_run_nodes(out: &mut Vec<NodeId>, runs: &Vec<PartiallyFormattedText>)
    ensures
        final(out).deep_view() == old(out).deep_view() + spec_run_nodes(runs.deep_view()),
{
    let ghost base = out.deep_view();
    let mut i: usize = 0;
    while i < runs.len()
        invariant
            i <= runs.len(),
            out.deep_view() =~= base + spec_run_nodes(runs.deep_view()).take(i as int),
        decreases runs.len() - i,
    {
        let ghost prev = out.deep_view();
        out.push(runs[i].node_id);
        i = i + 1;
        proof {
            assert(runs.deep_view()[i - 1] == runs@[i - 1]@);
            assert(out.deep_view() =~= prev.push(runs.deep_view()[i - 1].node_id));
            assert(spec_run_nodes(runs.deep_view())[i - 1] == runs.deep_view()[i - 1].node_id);
            assert(out.deep_view() =~= base + spec_run_nodes(runs.deep_view()).take(i as int));
        }
    }
    proof {
        assert(spec_run_nodes(runs.deep_view()).take(runs.deep_view().len() as int)
            =~= spec_run_nodes(runs.deep_view()));
    }
}

/// Returns the node identifiers the action mints, in order.
fn created_nodes(a: &Action) -> (r: Vec<NodeId>)
    ensures
        r.deep_view() == spec_created_nodes(a@),
{
    let mut out: Vec<NodeId> = Vec::new();
    match a {
        Action::Insert { before_paragraphs, paragraphs, .. } => {
            push_run_nodes(&mut out, before_paragraphs);
            match paragraphs {
                Some((mids, _, texts)) => {
                    let ghost mids_v = mids.deep_view();
                    let ghost after_bp = out.deep_view();
                    let mut mi: usize = 0;
                    while mi < mids.len()
                        invariant
                            mi <= mids_v.len(),
                            mids_v == mids.deep_view(),
                            out.deep_view() =~= after_bp + spec_new_paragraphs_nodes(mids_v, 0)
                                .take(spec_new_paragraphs_nodes(mids_v, 0).len() as int
                                - spec_new_paragraphs_nodes(mids_v, mi as int).len() as int),
                            spec_new_paragraphs_nodes(mids_v, mi as int).len()
                                <= spec_new_paragraphs_nodes(mids_v, 0).len(),
                            spec_new_paragraphs_nodes(mids_v, 0)
                                =~= spec_new_paragraphs_nodes(mids_v, 0).take(
                                spec_new_paragraphs_nodes(mids_v, 0).len() as int
                                    - spec_new_paragraphs_nodes(mids_v, mi as int).len() as int,
                            ) + spec_new_paragraphs_nodes(mids_v, mi as int),
                        decreases mids_v.len() - mi,
                    {
                        push_run_nodes(&mut out, &mids[mi].text);
                        mi = mi + 1;
                        proof {
                            lemma_new_paragraphs_nodes_step(mids_v, mi - 1);
                        }
                    }
                    proof {
                        assert(spec_new_paragraphs_nodes(mids_v, mids_v.len() as int)
                            =~= Seq::<NodeId>::empty());
                        assert(out.deep_view() =~= after_bp + spec_new_paragraphs_nodes(
                            mids_v,
                            0,
                        ));
                    }
                    push_run_nodes(&mut out, texts);
                    proof {
                        assert(out.deep_view() =~= spec_created_nodes(a@)) by {
                            assert(a@->Insert_paragraphs == paragraphs_opt_view(*paragraphs));
                            assert(a@->Insert_before_paragraphs
                                == before_paragraphs.deep_view());
                        }
                    }
                },
                None => {
                    proof {
                        assert(a@->Insert_paragraphs == paragraphs_opt_view(*paragraphs));
                        assert(out.deep_view() =~= spec_created_nodes(a@));
                    }
                },
            }
        },
        Action::ParagraphInsert { first_paragraph, additional_paragraphs, .. } => {
            push_run_nodes(&mut out, &first_paragraph.text);
            let ghost adds_v = additional_paragraphs.deep_view();
            let ghost after_first = out.deep_view();
            let mut k: usize = 0;
            while k < additional_paragraphs.len()
                invariant
                    k <= adds_v.len(),
                    adds_v == additional_paragraphs.deep_view(),
                    out.deep_view() =~= after_first + spec_additional_nodes(adds_v, 0).take(
                        spec_additional_nodes(adds_v, 0).len() as int - spec_additional_nodes(
                            adds_v,
                            k as int,
                        ).len() as int,
                    ),
                    spec_additional_nodes(adds_v, k as int).len() <= spec_additional_nodes(
                        adds_v,
                        0,
                    ).len(),
                    spec_additional_nodes(adds_v, 0) =~= spec_additional_nodes(adds_v, 0).take(
                        spec_additional_nodes(adds_v, 0).len() as int - spec_additional_nodes(
                            adds_v,
                            k as int,
                        ).len() as int,
                    ) + spec_additional_nodes(adds_v, k as int),
                decreases adds_v.len() - k,
            {
                push_run_nodes(&mut out, &additional_paragraphs[k].1.text);
                k = k + 1;
                proof {
                    lemma_additional_nodes_step(adds_v, k - 1);
                }
            }
            proof {
                assert(spec_additional_nodes(adds_v, adds_v.len() as int)
                    =~= Seq::<NodeId>::empty());
                assert(a@->ParagraphInsert_additional_paragraphs
                    == additional_paragraphs.deep_view());
                assert(out.deep_view() =~= spec_created_nodes(a@));
            }
        },
        _ => {
            proof {
                assert(out.deep_view() =~= spec_created_nodes(a@));
            }
        },
    }
    out
}

/// One step of the minted-identifier concatenation over new paragraphs.
proof fn lemma_new_paragraphs_nodes_step(ps: Seq<NewParagraphView>, i: int)
    requires
        0 <= i < ps.len(),
    ensures
        spec_new_paragraphs_nodes(ps, i) == spec_run_nodes(ps[i].text)
            + spec_new_paragraphs_nodes(ps, i + 1),
{
}

/// One step of the minted-identifier concatenation over additional
/// paragraphs.
proof fn lemma_additional_nodes_step(adds: Seq<(ParagraphId, NewParagraphView)>, i: int)
    requires
        0 <= i < adds.len(),
    ensures
        spec_additional_nodes(adds, i) == spec_run_nodes(adds[i].1.text)
            + spec_additional_nodes(adds, i + 1),
{
}

/// Every identifier occurring in a new paragraph: its own identifier and
/// its runs' insertion identifiers.
pub open spec fn spec_new_paragraph_ids(p: NewParagraphView) -> Seq<NodeId> {
    seq![p.node_id.spec_as_node_id()] + spec_run_nodes(p.text)
}

/// Every identifier occurring in a sequence of new paragraphs, from
/// paragraph `i` on.
pub open spec fn spec_new_paragraphs_ids(ps: Seq<NewParagraphView>, i: int) -> Seq<NodeId>
    decreases ps.len() - i,
{
    if i < 0 || i >= ps.len() {
        Seq::empty()
    } else {
        spec_new_paragraph_ids(ps[i]) + spec_new_paragraphs_ids(ps, i + 1)
    }
}

/// Every identifier occurring in the additional paragraphs, from entry `i`
/// on: the pre-assigned identifier and the paragraph's own identifiers.
pub open spec fn spec_additional_ids(
    adds: Seq<(ParagraphId, NewParagraphView)>,
    i: int,
) -> Seq<NodeId>
    decreases adds.len() - i,
{
    if i < 0 || i >= adds.len() {
        Seq::empty()
    } else {
        seq![adds[i].0.spec_as_node_id()] + spec_new_paragraph_ids(adds[i].1)
            + spec_additional_ids(adds, i + 1)
    }
}

/// A sequence of paragraph identifiers, as node-identifier pairs.
pub open spec fn spec_paragraph_id_seq_ids(ps: Seq<ParagraphId>) -> Seq<NodeId> {
    Seq::new(ps.len(), |i: int| ps[i].spec_as_node_id())
}

/// A sequence of action identifiers, as node-identifier pairs.
pub open spec fn spec_action_id_seq_ids(s: Seq<ActionId>) -> Seq<NodeId> {
    Seq::new(s.len(), |i: int| s[i].spec_as_node_id())
}

/// Every identifier occurring in the action, as node-identifier pairs: its
/// anchors, the actions it references, the paragraph identifiers it
/// pre-assigns, and the insertion identifiers of every run it carries.
pub open spec fn spec_action_ids(a: ActionView) -> Seq<NodeId> {
    match a {
        ActionView::Insert { anchor, before_paragraphs, paragraphs } => seq![anchor.at_node]
            + spec_run_nodes(before_paragraphs) + match paragraphs {
            Some((mids, after_pid, texts)) => spec_new_paragraphs_ids(mids, 0) + seq![
                after_pid.spec_as_node_id(),
            ] + spec_run_nodes(texts),
            None => Seq::empty(),
        },
        ActionView::ParagraphInsert { anchor, position, first_paragraph, additional_paragraphs } =>
            seq![anchor.spec_as_node_id()] + spec_new_paragraph_ids(first_paragraph)
            + spec_additional_ids(additional_paragraphs, 0),
        ActionView::FormatChange { begin_anchor, end_anchor, .. } => seq![
            begin_anchor.at_node,
            end_anchor.at_node,
        ],
        ActionView::ParagraphStyleChange { paragraphs, known_paragraph_splices, .. } =>
            spec_paragraph_id_seq_ids(paragraphs) + spec_action_id_seq_ids(
            known_paragraph_splices,
        ),
        ActionView::Erase { begin_anchor, end_anchor, known_splices } => seq![
            begin_anchor.at_node,
            end_anchor.at_node,
        ] + spec_action_id_seq_ids(known_splices),
        ActionView::SpliceInsert { anchor, erase_id, new_node_ids_if_necessary } => seq![
            anchor.at_node,
            erase_id.spec_as_node_id(),
        ] + new_node_ids_if_necessary,
        ActionView::SpliceParagraphInsert {
            anchor,
            position,
            erase_id,
            new_node_ids_if_necessary,
            ..
        } => seq![anchor.spec_as_node_id(), erase_id.spec_as_node_id()]
            + new_node_ids_if_necessary,
        ActionView::UndoRedo { edit_id, .. } => seq![edit_id.spec_as_node_id()],
    }
}

/// The greatest `operation_id` among the identifiers, or `0` when there
/// are none.
pub open spec fn spec_ids_max(ids: Seq<NodeId>) -> u64
    decreases ids.len(),
{
    if ids.len() == 0 {
        0
    } else {
        let rest = spec_ids_max(ids.drop_last());
        if ids.last().operation_id > rest {
            ids.last().operation_id
        } else {
            rest
        }
    }
}

/// Every identifier's `operation_id` is bounded by the maximum.
pub proof fn lemma_ids_max_bounds(ids: Seq<NodeId>)
    ensures
        forall|k: int| 0 <= k < ids.len() ==> (#[trigger] ids[k]).operation_id <= spec_ids_max(
            ids,
        ),
    decreases ids.len(),
{
    if ids.len() > 0 {
        lemma_ids_max_bounds(ids.drop_last());
        assert(forall|k: int| 0 <= k < ids.len() - 1 ==> ids[k] == ids.drop_last()[k]);
    }
}

/// The greatest `operation_id` among every identifier occurring in the
/// action.
pub open spec fn spec_action_max_id(a: ActionView) -> u64 {
    spec_ids_max(spec_action_ids(a))
}

/// One step of the identifier concatenation over new paragraphs.
proof fn lemma_new_paragraphs_ids_step(ps: Seq<NewParagraphView>, i: int)
    requires
        0 <= i < ps.len(),
    ensures
        spec_new_paragraphs_ids(ps, i) == spec_new_paragraph_ids(ps[i])
            + spec_new_paragraphs_ids(ps, i + 1),
{
}

/// One step of the identifier concatenation over additional paragraphs.
proof fn lemma_additional_ids_step(adds: Seq<(ParagraphId, NewParagraphView)>, i: int)
    requires
        0 <= i < adds.len(),
    ensures
        spec_additional_ids(adds, i) == seq![adds[i].0.spec_as_node_id()]
            + spec_new_paragraph_ids(adds[i].1) + spec_additional_ids(adds, i + 1),
{
}

/// Appends one identifier.
fn push_id(out: &mut Vec<NodeId>, id: NodeId)
    ensures
        final(out).deep_view() == old(out).deep_view() + seq![id],
{
    let ghost base = out.deep_view();
    out.push(id);
    proof {
        assert(out.deep_view() =~= base + seq![id]);
    }
}

/// Appends every identifier of a new paragraph.
fn push_new_paragraph_ids(out: &mut Vec<NodeId>, p: &NewParagraph)
    ensures
        final(out).deep_view() == old(out).deep_view() + spec_new_paragraph_ids(p.deep_view()),
{
    let ghost base = out.deep_view();
    push_id(out, crate::ids::NodeId {
        operation_id: p.node_id.operation_id,
        client_id: p.node_id.client_id,
    });
    push_run_nodes(out, &p.text);
    proof {
        assert(out.deep_view() =~= base + spec_new_paragraph_ids(p.deep_view()));
    }
}

/// Appends a vector of identifiers.
fn push_ids(out: &mut Vec<NodeId>, ids: &Vec<NodeId>)
    ensures
        final(out).deep_view() == old(out).deep_view() + ids.deep_view(),
{
    let ghost base = out.deep_view();
    let mut i: usize = 0;
    while i < ids.len()
        invariant
            i <= ids.len(),
            out.deep_view() =~= base + ids.deep_view().take(i as int),
        decreases ids.len() - i,
    {
        let ghost prev = out.deep_view();
        out.push(ids[i]);
        i = i + 1;
        proof {
            assert(out.deep_view() =~= prev.push(ids.deep_view()[i - 1]));
            assert(out.deep_view() =~= base + ids.deep_view().take(i as int));
        }
    }
    proof {
        assert(ids.deep_view().take(ids.deep_view().len() as int) =~= ids.deep_view());
    }
}

/// Appends a vector of paragraph identifiers, in node-identifier form.
fn push_paragraph_id_seq(out: &mut Vec<NodeId>, ids: &Vec<ParagraphId>)
    ensures
        final(out).deep_view() == old(out).deep_view() + spec_paragraph_id_seq_ids(
            ids.deep_view(),
        ),
{
    let ghost base = out.deep_view();
    let mut i: usize = 0;
    while i < ids.len()
        invariant
            i <= ids.len(),
            out.deep_view() =~= base + spec_paragraph_id_seq_ids(ids.deep_view()).take(i as int),
        decreases ids.len() - i,
    {
        let ghost prev = out.deep_view();
        let p = ids[i];
        out.push(crate::ids::NodeId { operation_id: p.operation_id, client_id: p.client_id });
        i = i + 1;
        proof {
            assert(out.deep_view() =~= prev.push(ids.deep_view()[i - 1].spec_as_node_id()));
            assert(spec_paragraph_id_seq_ids(ids.deep_view())[i - 1] == ids.deep_view()[
                i - 1
            ].spec_as_node_id());
            assert(out.deep_view() =~= base + spec_paragraph_id_seq_ids(ids.deep_view()).take(
                i as int,
            ));
        }
    }
    proof {
        assert(spec_paragraph_id_seq_ids(ids.deep_view()).take(ids.deep_view().len() as int)
            =~= spec_paragraph_id_seq_ids(ids.deep_view()));
    }
}

/// Appends a vector of action identifiers, in node-identifier form.
fn push_action_id_seq(out: &mut Vec<NodeId>, ids: &Vec<ActionId>)
    ensures
        final(out).deep_view() == old(out).deep_view() + spec_action_id_seq_ids(ids.deep_view()),
{
    let ghost base = out.deep_view();
    let mut i: usize = 0;
    while i < ids.len()
        invariant
            i <= ids.len(),
            out.deep_view() =~= base + spec_action_id_seq_ids(ids.deep_view()).take(i as int),
        decreases ids.len() - i,
    {
        let ghost prev = out.deep_view();
        let p = ids[i];
        out.push(crate::ids::NodeId { operation_id: p.operation_id, client_id: p.client_id });
        i = i + 1;
        proof {
            assert(out.deep_view() =~= prev.push(ids.deep_view()[i - 1].spec_as_node_id()));
            assert(spec_action_id_seq_ids(ids.deep_view())[i - 1] == ids.deep_view()[
                i - 1
            ].spec_as_node_id());
            assert(out.deep_view() =~= base + spec_action_id_seq_ids(ids.deep_view()).take(
                i as int,
            ));
        }
    }
    proof {
        assert(spec_action_id_seq_ids(ids.deep_view()).take(ids.deep_view().len() as int)
            =~= spec_action_id_seq_ids(ids.deep_view()));
    }
}

/// Returns every identifier occurring in the action, in order.
fn action_ids(a: &Action) -> (r: Vec<NodeId>)
    ensures
        r.deep_view() == spec_action_ids(a@),
{
    let mut out: Vec<NodeId> = Vec::new();
    match a {
        Action::Insert { anchor, before_paragraphs, paragraphs } => {
            push_id(&mut out, anchor.at_node);
            push_run_nodes(&mut out, before_paragraphs);
            match paragraphs {
                Some((mids, after_pid, texts)) => {
                    let ghost mids_v = mids.deep_view();
                    let ghost after_bp = out.deep_view();
                    let mut mi: usize = 0;
                    while mi < mids.len()
                        invariant
                            mi <= mids_v.len(),
                            mids_v == mids.deep_view(),
                            out.deep_view() =~= after_bp + spec_new_paragraphs_ids(mids_v, 0)
                                .take(spec_new_paragraphs_ids(mids_v, 0).len() as int
                                - spec_new_paragraphs_ids(mids_v, mi as int).len() as int),
                            spec_new_paragraphs_ids(mids_v, mi as int).len()
                                <= spec_new_paragraphs_ids(mids_v, 0).len(),
                            spec_new_paragraphs_ids(mids_v, 0) =~= spec_new_paragraphs_ids(
                                mids_v,
                                0,
                            ).take(
                                spec_new_paragraphs_ids(mids_v, 0).len() as int
                                    - spec_new_paragraphs_ids(mids_v, mi as int).len() as int,
                            ) + spec_new_paragraphs_ids(mids_v, mi as int),
                        decreases mids_v.len() - mi,
                    {
                        push_new_paragraph_ids(&mut out, &mids[mi]);
                        mi = mi + 1;
                        proof {
                            lemma_new_paragraphs_ids_step(mids_v, mi - 1);
                        }
                    }
                    proof {
                        assert(spec_new_paragraphs_ids(mids_v, mids_v.len() as int)
                            =~= Seq::<NodeId>::empty());
                        assert(out.deep_view() =~= after_bp + spec_new_paragraphs_ids(mids_v, 0));
                    }
                    push_id(&mut out, crate::ids::NodeId {
                        operation_id: after_pid.operation_id,
                        client_id: after_pid.client_id,
                    });
                    push_run_nodes(&mut out, texts);
                    proof {
                        assert(a@->Insert_paragraphs == paragraphs_opt_view(*paragraphs));
                        assert(a@->Insert_before_paragraphs == before_paragraphs.deep_view());
                        assert(out.deep_view() =~= spec_action_ids(a@));
                    }
                },
                None => {
                    proof {
                        assert(a@->Insert_paragraphs == paragraphs_opt_view(*paragraphs));
                        assert(out.deep_view() =~= spec_action_ids(a@));
                    }
                },
            }
        },
        Action::ParagraphInsert { anchor, position, first_paragraph, additional_paragraphs } => {
            push_id(&mut out, crate::ids::NodeId {
                operation_id: anchor.operation_id,
                client_id: anchor.client_id,
            });
            push_new_paragraph_ids(&mut out, first_paragraph);
            let ghost adds_v = additional_paragraphs.deep_view();
            let ghost after_first = out.deep_view();
            let mut k: usize = 0;
            while k < additional_paragraphs.len()
                invariant
                    k <= adds_v.len(),
                    adds_v == additional_paragraphs.deep_view(),
                    out.deep_view() =~= after_first + spec_additional_ids(adds_v, 0).take(
                        spec_additional_ids(adds_v, 0).len() as int - spec_additional_ids(
                            adds_v,
                            k as int,
                        ).len() as int,
                    ),
                    spec_additional_ids(adds_v, k as int).len() <= spec_additional_ids(
                        adds_v,
                        0,
                    ).len(),
                    spec_additional_ids(adds_v, 0) =~= spec_additional_ids(adds_v, 0).take(
                        spec_additional_ids(adds_v, 0).len() as int - spec_additional_ids(
                            adds_v,
                            k as int,
                        ).len() as int,
                    ) + spec_additional_ids(adds_v, k as int),
                decreases adds_v.len() - k,
            {
                let entry = &additional_paragraphs[k];
                push_id(&mut out, crate::ids::NodeId {
                    operation_id: entry.0.operation_id,
                    client_id: entry.0.client_id,
                });
                push_new_paragraph_ids(&mut out, &entry.1);
                k = k + 1;
                proof {
                    assert(adds_v[k - 1] == (additional_paragraphs@[k - 1].0,
                        additional_paragraphs@[k - 1].1@));
                    lemma_additional_ids_step(adds_v, k - 1);
                }
            }
            proof {
                assert(spec_additional_ids(adds_v, adds_v.len() as int)
                    =~= Seq::<NodeId>::empty());
                assert(a@->ParagraphInsert_additional_paragraphs
                    == additional_paragraphs.deep_view());
                assert(a@->ParagraphInsert_first_paragraph == first_paragraph.deep_view());
                assert(out.deep_view() =~= spec_action_ids(a@));
            }
        },
        Action::FormatChange { begin_anchor, end_anchor, .. } => {
            push_id(&mut out, begin_anchor.at_node);
            push_id(&mut out, end_anchor.at_node);
            proof {
                assert(out.deep_view() =~= spec_action_ids(a@));
            }
        },
        Action::ParagraphStyleChange { paragraphs, known_paragraph_splices, .. } => {
            push_paragraph_id_seq(&mut out, paragraphs);
            push_action_id_seq(&mut out, known_paragraph_splices);
            proof {
                assert(a@->ParagraphStyleChange_paragraphs == paragraphs.deep_view());
                assert(a@->ParagraphStyleChange_known_paragraph_splices
                    == known_paragraph_splices.deep_view());
                assert(out.deep_view() =~= spec_action_ids(a@));
            }
        },
        Action::Erase { begin_anchor, end_anchor, known_splices } => {
            push_id(&mut out, begin_anchor.at_node);
            push_id(&mut out, end_anchor.at_node);
            push_action_id_seq(&mut out, known_splices);
            proof {
                assert(a@->Erase_known_splices == known_splices.deep_view());
                assert(out.deep_view() =~= spec_action_ids(a@));
            }
        },
        Action::SpliceInsert { anchor, erase_id, new_node_ids_if_necessary } => {
            push_id(&mut out, anchor.at_node);
            push_id(&mut out, crate::ids::NodeId {
                operation_id: erase_id.operation_id,
                client_id: erase_id.client_id,
            });
            push_ids(&mut out, new_node_ids_if_necessary);
            proof {
                assert(a@->SpliceInsert_new_node_ids_if_necessary
                    == new_node_ids_if_necessary.deep_view());
                assert(out.deep_view() =~= spec_action_ids(a@));
            }
        },
        Action::SpliceParagraphInsert {
            anchor,
            position,
            erase_id,
            new_node_ids_if_necessary,
            ..
        } => {
            push_id(&mut out, crate::ids::NodeId {
                operation_id: anchor.operation_id,
                client_id: anchor.client_id,
            });
            push_id(&mut out, crate::ids::NodeId {
                operation_id: erase_id.operation_id,
                client_id: erase_id.client_id,
            });
            push_ids(&mut out, new_node_ids_if_necessary);
            proof {
                assert(a@->SpliceParagraphInsert_new_node_ids_if_necessary
                    == new_node_ids_if_necessary.deep_view());
                assert(out.deep_view() =~= spec_action_ids(a@));
            }
        },
        Action::UndoRedo { edit_id, .. } => {
            push_id(&mut out, crate::ids::NodeId {
                operation_id: edit_id.operation_id,
                client_id: edit_id.client_id,
            });
            proof {
                assert(out.deep_view() =~= spec_action_ids(a@));
            }
        },
    }
    out
}

/// Returns the greatest `operation_id` among every identifier occurring in
/// the action.
pub fn action_max_id(a: &Action) -> (r: u64)
    ensures
        r == spec_action_max_id(a@),
{
    let ids = action_ids(a);
    let mut max: u64 = 0;
    let mut i: usize = 0;
    while i < ids.len()
        invariant
            i <= ids.deep_view().len(),
            ids.deep_view() == spec_action_ids(a@),
            max == spec_ids_max(ids.deep_view().take(i as int)),
        decreases ids.deep_view().len() - i,
    {
        let oid = ids[i].operation_id;
        if oid > max {
            max = oid;
        }
        i = i + 1;
        proof {
            assert(ids.deep_view().take(i as int).drop_last() =~= ids.deep_view().take(i - 1));
        }
    }
    proof {
        assert(ids.deep_view().take(ids.deep_view().len() as int) =~= ids.deep_view());
    }
    max
}

/// Whether the identifiers the action mints are pairwise distinct and
/// collide with no identifier minted by a different operation of the log.
pub open spec fn spec_minted_fresh(
    log: Seq<(NodeId, ActionView)>,
    op_id: NodeId,
    a: ActionView,
) -> bool {
    let mine = spec_created_nodes(a);
    &&& forall|i: int, j: int| 0 <= i < j < mine.len() ==> mine[i] != mine[j]
    &&& forall|e: int, i: int, j: int|
        #![trigger mine[i], spec_created_nodes(log[e].1)[j]]
        0 <= e < log.len() && log[e].0 != op_id && 0 <= i < mine.len() && 0 <= j
            < spec_created_nodes(log[e].1).len() ==> mine[i] != spec_created_nodes(log[e].1)[j]
}

/// Checks that the identifiers the action mints are pairwise distinct and
/// collide with no identifier minted by a different operation of the log.
pub fn check_minted_fresh(ops: &Operations, op_id: &NodeId, a: &Action) -> (r: bool)
    ensures
        r == spec_minted_fresh(ops@, *op_id, a@),
{
    let mine = created_nodes(a);
    let mut i: usize = 0;
    while i < mine.len()
        invariant
            i <= mine.deep_view().len(),
            mine.deep_view() == spec_created_nodes(a@),
            forall|ii: int, jj: int| 0 <= ii < jj < i ==> mine.deep_view()[ii]
                != mine.deep_view()[jj],
        decreases mine.deep_view().len() - i,
    {
        let mut j: usize = 0;
        while j < i
            invariant
                j <= i <= mine.deep_view().len(),
                mine.deep_view() == spec_created_nodes(a@),
                forall|jj: int| 0 <= jj < j ==> mine.deep_view()[jj] != mine.deep_view()[i as int],
            decreases i - j,
        {
            if mine[j] == mine[i] {
                proof {
                    assert(mine.deep_view()[j as int] == mine.deep_view()[i as int]);
                    assert(!spec_minted_fresh(ops@, *op_id, a@));
                }
                return false;
            }
            j = j + 1;
        }
        i = i + 1;
    }
    let mut e: usize = 0;
    while e < ops.len()
        invariant
            e <= ops@.len(),
            mine.deep_view() == spec_created_nodes(a@),
            forall|ii: int, jj: int| 0 <= ii < jj < mine.deep_view().len()
                ==> mine.deep_view()[ii] != mine.deep_view()[jj],
            forall|ee: int, ii: int, jj: int|
                #![trigger mine.deep_view()[ii], spec_created_nodes(ops@[ee].1)[jj]]
                0 <= ee < e && ops@[ee].0 != *op_id && 0 <= ii < mine.deep_view().len() && 0 <= jj
                    < spec_created_nodes(ops@[ee].1).len() ==> mine.deep_view()[ii]
                    != spec_created_nodes(ops@[ee].1)[jj],
        decreases ops@.len() - e,
    {
        let entry = ops.entry(e);
        if !(entry.0 == *op_id) {
            let theirs = created_nodes(&entry.1);
            let mut i2: usize = 0;
            while i2 < mine.len()
                invariant
                    i2 <= mine.deep_view().len(),
                    mine.deep_view() == spec_created_nodes(a@),
                    theirs.deep_view() == spec_created_nodes(ops@[e as int].1),
                    e < ops@.len(),
                    forall|ii: int, jj: int| 0 <= ii < i2 && 0 <= jj < theirs.deep_view().len()
                        ==> mine.deep_view()[ii] != theirs.deep_view()[jj],
                decreases mine.deep_view().len() - i2,
            {
                let mut j2: usize = 0;
                while j2 < theirs.len()
                    invariant
                        j2 <= theirs.deep_view().len(),
                        i2 < mine.deep_view().len(),
                        mine.deep_view() == spec_created_nodes(a@),
                        theirs.deep_view() == spec_created_nodes(ops@[e as int].1),
                        e < ops@.len(),
                        forall|jj: int| 0 <= jj < j2 ==> mine.deep_view()[i2 as int]
                            != theirs.deep_view()[jj],
                    decreases theirs.deep_view().len() - j2,
                {
                    if mine[i2] == theirs[j2] {
                        proof {
                            assert(mine.deep_view()[i2 as int] == theirs.deep_view()[j2 as int]);
                            assert(ops@[e as int].0 != *op_id);
                            assert(!spec_minted_fresh(ops@, *op_id, a@));
                        }
                        return false;
                    }
                    j2 = j2 + 1;
                }
                i2 = i2 + 1;
            }
        }
        e = e + 1;
    }
    true
}

/// Whether some pre-assigned identifier of the additional paragraphs is
/// the given one.
pub open spec fn spec_additional_has_paragraph(
    additional: Seq<(ParagraphId, NewParagraphView)>,
    pid: ParagraphId,
) -> bool {
    exists|k: int| 0 <= k < additional.len() && (#[trigger] additional[k]).0 == pid
}

/// Whether this log entry is a shipped paragraph insertion at the given
/// anchor that created the given paragraph, as its first or as an
/// additional paragraph.
pub open spec fn pi_tie_entry(e: (NodeId, ActionView), pid: ParagraphId, anchor: ParagraphId) -> bool {
    match e.1 {
        ActionView::ParagraphInsert {
            anchor: a,
            position,
            first_paragraph,
            additional_paragraphs,
        } => {
            &&& a == anchor
            &&& position == ParagraphInsertPosition::EraseAnchorIfEmpty
            &&& (first_paragraph.node_id == pid || spec_additional_has_paragraph(
                additional_paragraphs,
                pid,
            ))
        },
        _ => false,
    }
}

/// Whether the log shows that the given paragraph was inserted at the given
/// paragraph anchor.
pub open spec fn spec_pi_tied(
    log: Seq<(NodeId, ActionView)>,
    pid: ParagraphId,
    anchor: ParagraphId,
) -> bool {
    exists|i: int| 0 <= i < log.len() && pi_tie_entry(#[trigger] log[i], pid, anchor)
}

/// Whether some run of the sequence carries the given node.
pub open spec fn spec_run_has_node(runs: Seq<PartiallyFormattedTextView>, nid: NodeId) -> bool {
    exists|k: int| 0 <= k < runs.len() && (#[trigger] runs[k]).node_id == nid
}

/// Whether this log entry is a text insertion at the given anchor that
/// created the given node.
pub open spec fn text_tie_entry(e: (NodeId, ActionView), nid: NodeId, anchor: TextAnchor) -> bool {
    match e.1 {
        ActionView::Insert { anchor: a, before_paragraphs, .. } => a == anchor
            && spec_run_has_node(before_paragraphs, nid),
        _ => false,
    }
}

/// Whether the log shows that the given node was inserted at the given text
/// anchor.
pub open spec fn spec_text_tied(
    log: Seq<(NodeId, ActionView)>,
    nid: NodeId,
    anchor: TextAnchor,
) -> bool {
    exists|i: int| 0 <= i < log.len() && text_tie_entry(#[trigger] log[i], nid, anchor)
}

/// The first index at or after `j` of a paragraph that was not inserted at
/// the given anchor; this is where the next insertion at that anchor lands,
/// past the content of earlier operations tied to it.
pub open spec fn spec_pi_skip_from(
    ps: Seq<ParagraphNodeView>,
    log: Seq<(NodeId, ActionView)>,
    anchor: ParagraphId,
    j: int,
) -> int
    decreases ps.len() - j,
{
    if j < 0 || j >= ps.len() {
        j
    } else if spec_pi_tied(log, ps[j].paragraph_id, anchor) {
        spec_pi_skip_from(ps, log, anchor, j + 1)
    } else {
        j
    }
}

/// The first index at or after `j` of a node that is not a fragment of an
/// insertion tied to the given anchor.
pub open spec fn spec_text_skip_from(
    cs: Seq<TextNodeView>,
    log: Seq<(NodeId, ActionView)>,
    anchor: TextAnchor,
    j: int,
) -> int
    decreases cs.len() - j,
{
    if j < 0 || j >= cs.len() {
        j
    } else if cs[j].is_fragment() && spec_text_tied(log, cs[j].frag_node(), anchor) {
        spec_text_skip_from(cs, log, anchor, j + 1)
    } else {
        j
    }
}

/// A paragraph skip stays within the paragraph list.
pub proof fn lemma_pi_skip_bounds(
    ps: Seq<ParagraphNodeView>,
    log: Seq<(NodeId, ActionView)>,
    anchor: ParagraphId,
    j: int,
)
    requires
        0 <= j <= ps.len(),
    ensures
        j <= spec_pi_skip_from(ps, log, anchor, j) <= ps.len(),
    decreases ps.len() - j,
{
    if j < ps.len() && spec_pi_tied(log, ps[j].paragraph_id, anchor) {
        lemma_pi_skip_bounds(ps, log, anchor, j + 1);
    }
}

/// A text skip stays within the contents.
pub proof fn lemma_text_skip_bounds(
    cs: Seq<TextNodeView>,
    log: Seq<(NodeId, ActionView)>,
    anchor: TextAnchor,
    j: int,
)
    requires
        0 <= j <= cs.len(),
    ensures
        j <= spec_text_skip_from(cs, log, anchor, j) <= cs.len(),
    decreases cs.len() - j,
{
    if j < cs.len() && cs[j].is_fragment() && spec_text_tied(log, cs[j].frag_node(), anchor) {
        lemma_text_skip_bounds(cs, log, anchor, j + 1);
    }
}

/// A found node index lies in range, its node contains the anchor, and it
/// is the first such index: nothing earlier contains the anchor.
pub proof fn lemma_find_in_contents_props(cs: Seq<TextNodeView>, anchor: TextAnchor, j0: int)
    requires
        0 <= j0,
    ensures
        match spec_find_in_contents_from(cs, anchor, j0) {
            Some(j) => j0 <= j < cs.len() && cs[j].spec_contains(anchor) && forall|jj: int|
                j0 <= jj < j ==> !(#[trigger] cs[jj]).spec_contains(anchor),
            None => forall|jj: int| j0 <= jj < cs.len() ==> !(#[trigger] cs[jj]).spec_contains(
                anchor,
            ),
        },
    decreases cs.len() - j0,
{
    if j0 < cs.len() && !cs[j0].spec_contains(anchor) {
        lemma_find_in_contents_props(cs, anchor, j0 + 1);
    }
}

/// The first index at which a node contains the anchor is what the search
/// finds.
pub proof fn lemma_find_in_contents_unique(cs: Seq<TextNodeView>, anchor: TextAnchor, j0: int, j: int)
    requires
        0 <= j0 <= j < cs.len(),
        cs[j].spec_contains(anchor),
        forall|jj: int| j0 <= jj < j ==> !(#[trigger] cs[jj]).spec_contains(anchor),
    ensures
        spec_find_in_contents_from(cs, anchor, j0) == Some(j),
    decreases j - j0,
{
    if j0 < j {
        lemma_find_in_contents_unique(cs, anchor, j0 + 1, j);
    }
}

/// A found fragment position lies in range, its node contains the anchor,
/// and it is the first such position in document order.
pub proof fn lemma_find_fragment_props(ps: Seq<ParagraphNodeView>, anchor: TextAnchor, p0: int)
    requires
        0 <= p0,
    ensures
        match spec_find_fragment_from(ps, anchor, p0) {
            Some((p, f)) => p0 <= p < ps.len() && 0 <= f < ps[p].contents.len()
                && ps[p].contents[f].spec_contains(anchor)
                && spec_find_in_contents_from(ps[p].contents, anchor, 0) == Some(f) && forall|
                q: int,
            |
                p0 <= q < p ==> spec_find_in_contents_from(
                    (#[trigger] ps[q]).contents,
                    anchor,
                    0,
                ) is None,
            None => forall|q: int| p0 <= q < ps.len() ==> spec_find_in_contents_from(
                (#[trigger] ps[q]).contents,
                anchor,
                0,
            ) is None,
        },
    decreases ps.len() - p0,
{
    if 0 <= p0 < ps.len() {
        lemma_find_in_contents_props(ps[p0].contents, anchor, 0);
        if spec_find_in_contents_from(ps[p0].contents, anchor, 0) is None {
            lemma_find_fragment_props(ps, anchor, p0 + 1);
        }
    }
}

/// The first paragraph whose contents contain the anchor is where the
/// search finds the fragment.
pub proof fn lemma_find_fragment_unique(
    ps: Seq<ParagraphNodeView>,
    anchor: TextAnchor,
    p0: int,
    p: int,
    f: int,
)
    requires
        0 <= p0 <= p < ps.len(),
        spec_find_in_contents_from(ps[p].contents, anchor, 0) == Some(f),
        forall|q: int| p0 <= q < p ==> spec_find_in_contents_from(
            (#[trigger] ps[q]).contents,
            anchor,
            0,
        ) is None,
    ensures
        spec_find_fragment_from(ps, anchor, p0) == Some((p, f)),
    decreases p - p0,
{
    if p0 < p {
        lemma_find_fragment_unique(ps, anchor, p0 + 1, p, f);
    }
}

/// When no fragment of the insertion is found, none stands anywhere at or
/// after the starting point.
pub proof fn lemma_find_text_node_none(ps: Seq<ParagraphNodeView>, node_id: NodeId, p0: int)
    requires
        0 <= p0,
        spec_find_text_node_from(ps, node_id, p0) is None,
    ensures
        forall|q: int, j: int| p0 <= q < ps.len() && 0 <= j < (#[trigger] ps[q]).contents.len()
            ==> !((#[trigger] ps[q].contents[j]).is_fragment() && ps[q].contents[j].frag_node()
            == node_id),
    decreases ps.len() - p0,
{
    if p0 < ps.len() {
        lemma_find_text_node_none(ps, node_id, p0 + 1);
        lemma_find_node_in_contents_none(ps[p0].contents, node_id, 0);
    }
}

/// When no fragment of the insertion is found among the contents, none
/// stands at or after the starting index.
pub proof fn lemma_find_node_in_contents_none(cs: Seq<TextNodeView>, node_id: NodeId, j0: int)
    requires
        0 <= j0,
        spec_find_node_in_contents_from(cs, node_id, j0) is None,
    ensures
        forall|j: int| j0 <= j < cs.len() ==> !((#[trigger] cs[j]).is_fragment()
            && cs[j].frag_node() == node_id),
    decreases cs.len() - j0,
{
    if j0 < cs.len() {
        lemma_find_node_in_contents_none(cs, node_id, j0 + 1);
    }
}

/// A skip lands exactly at the first index that is not a fragment tied to
/// the anchor.
pub proof fn lemma_text_skip_unique(
    cs: Seq<TextNodeView>,
    log: Seq<(NodeId, ActionView)>,
    anchor: TextAnchor,
    j0: int,
    m: int,
)
    requires
        0 <= j0 <= m <= cs.len(),
        forall|jj: int| j0 <= jj < m ==> (#[trigger] cs[jj]).is_fragment() && spec_text_tied(
            log,
            cs[jj].frag_node(),
            anchor,
        ),
        m < cs.len() ==> !(cs[m].is_fragment() && spec_text_tied(log, cs[m].frag_node(), anchor)),
    ensures
        spec_text_skip_from(cs, log, anchor, j0) == m,
    decreases m - j0,
{
    if j0 < m {
        lemma_text_skip_unique(cs, log, anchor, j0 + 1, m);
    }
}

/// A found paragraph index lies in range and its paragraph carries the
/// identifier.
pub proof fn lemma_find_paragraph_props(ps: Seq<ParagraphNodeView>, pid: ParagraphId, p0: int)
    requires
        0 <= p0,
    ensures
        match spec_find_paragraph_from(ps, pid, p0) {
            Some(p) => p0 <= p < ps.len() && ps[p].paragraph_id == pid,
            None => true,
        },
    decreases ps.len() - p0,
{
    if p0 < ps.len() && ps[p0].paragraph_id != pid {
        lemma_find_paragraph_props(ps, pid, p0 + 1);
    }
}

/// Decides whether the log shows the paragraph was inserted at the anchor.
fn is_pi_tied(ops: &Operations, pid: &ParagraphId, anchor: &ParagraphId) -> (r: bool)
    ensures
        r == spec_pi_tied(ops@, *pid, *anchor),
{
    let mut i: usize = 0;
    while i < ops.len()
        invariant
            i <= ops@.len(),
            forall|ii: int| 0 <= ii < i ==> !pi_tie_entry(#[trigger] ops@[ii], *pid, *anchor),
        decreases ops@.len() - i,
    {
        let entry = ops.entry(i);
        match &entry.1 {
            Action::ParagraphInsert {
                anchor: a,
                position,
                first_paragraph,
                additional_paragraphs,
            } => {
                let position_matches = match position {
                    ParagraphInsertPosition::EraseAnchorIfEmpty => true,
                    _ => false,
                };
                if *a == *anchor && position_matches {
                    if first_paragraph.node_id == *pid {
                        proof {
                            assert(pi_tie_entry(ops@[i as int], *pid, *anchor));
                        }
                        return true;
                    }
                    let mut k: usize = 0;
                    while k < additional_paragraphs.len()
                        invariant
                            k <= additional_paragraphs.len(),
                            forall|kk: int| 0 <= kk < k ==> (
                            #[trigger] additional_paragraphs.deep_view()[kk]).0 != *pid,
                        decreases additional_paragraphs.len() - k,
                    {
                        if additional_paragraphs[k].0 == *pid {
                            proof {
                                assert(additional_paragraphs.deep_view()[k as int].0 == *pid);
                                assert(ops@[i as int].1->ParagraphInsert_additional_paragraphs
                                    == additional_paragraphs.deep_view());
                                assert(spec_additional_has_paragraph(
                                    additional_paragraphs.deep_view(),
                                    *pid,
                                ));
                                assert(pi_tie_entry(ops@[i as int], *pid, *anchor));
                            }
                            return true;
                        }
                        proof {
                            assert(additional_paragraphs.deep_view()[k as int].0 != *pid);
                        }
                        k = k + 1;
                    }
                    proof {
                        assert(!spec_additional_has_paragraph(
                            additional_paragraphs.deep_view(),
                            *pid,
                        ));
                        assert(!pi_tie_entry(ops@[i as int], *pid, *anchor));
                    }
                } else {
                    proof {
                        assert(!pi_tie_entry(ops@[i as int], *pid, *anchor));
                    }
                }
            },
            _ => {},
        }
        i = i + 1;
    }
    false
}

/// Decides whether some run carries the node.
fn run_has_node(runs: &Vec<PartiallyFormattedText>, nid: &NodeId) -> (r: bool)
    ensures
        r == spec_run_has_node(runs.deep_view(), *nid),
{
    let mut k: usize = 0;
    while k < runs.len()
        invariant
            k <= runs.len(),
            forall|kk: int| 0 <= kk < k ==> (#[trigger] runs.deep_view()[kk]).node_id != *nid,
        decreases runs.len() - k,
    {
        if runs[k].node_id == *nid {
            proof {
                assert(runs.deep_view()[k as int].node_id == *nid);
            }
            return true;
        }
        k = k + 1;
    }
    false
}

/// Decides whether the log shows the node was inserted at the anchor.
fn is_text_tied(ops: &Operations, nid: &NodeId, anchor: &TextAnchor) -> (r: bool)
    ensures
        r == spec_text_tied(ops@, *nid, *anchor),
{
    let mut i: usize = 0;
    while i < ops.len()
        invariant
            i <= ops@.len(),
            forall|ii: int| 0 <= ii < i ==> !text_tie_entry(#[trigger] ops@[ii], *nid, *anchor),
        decreases ops@.len() - i,
    {
        let entry = ops.entry(i);
        match &entry.1 {
            Action::Insert { anchor: a, before_paragraphs, .. } => {
                if a.equals(anchor) && run_has_node(before_paragraphs, nid) {
                    proof {
                        assert(text_tie_entry(ops@[i as int], *nid, *anchor));
                    }
                    return true;
                }
            },
            _ => {},
        }
        i = i + 1;
    }
    false
}

/// Finds where an insertion at the paragraph anchor lands: past the run of
/// paragraphs that earlier operations tied to the same anchor.
fn pi_skip(paragraphs: &Vec<ParagraphNode>, ops: &Operations, anchor: &ParagraphId, j0: usize) -> (r:
    usize)
    requires
        j0 <= paragraphs.deep_view().len(),
    ensures
        r == spec_pi_skip_from(paragraphs.deep_view(), ops@, *anchor, j0 as int),
        j0 <= r <= paragraphs.deep_view().len(),
{
    let mut j: usize = j0;
    while j < paragraphs.len()
        invariant
            j0 <= j <= paragraphs.deep_view().len(),
            spec_pi_skip_from(paragraphs.deep_view(), ops@, *anchor, j0 as int)
                == spec_pi_skip_from(paragraphs.deep_view(), ops@, *anchor, j as int),
        decreases paragraphs.deep_view().len() - j,
    {
        if !is_pi_tied(ops, paragraphs[j].paragraph_id(), anchor) {
            return j;
        }
        j = j + 1;
    }
    j
}

/// Finds where an insertion at the tail of an insertion lands: past the run
/// of fragments that earlier operations tied to the same anchor.
fn text_skip(contents: &Vec<TextNode>, ops: &Operations, anchor: &TextAnchor, j0: usize) -> (r:
    usize)
    requires
        j0 <= contents.deep_view().len(),
    ensures
        r == spec_text_skip_from(contents.deep_view(), ops@, *anchor, j0 as int),
        j0 <= r <= contents.deep_view().len(),
{
    let mut j: usize = j0;
    while j < contents.len()
        invariant
            j0 <= j <= contents.deep_view().len(),
            spec_text_skip_from(contents.deep_view(), ops@, *anchor, j0 as int)
                == spec_text_skip_from(contents.deep_view(), ops@, *anchor, j as int),
        decreases contents.deep_view().len() - j,
    {
        let tied = match &contents[j] {
            TextNode::Text { node, .. } => is_text_tied(ops, node, anchor),
            TextNode::Tombstone { node, .. } => is_text_tied(ops, node, anchor),
            TextNode::FormatChange(_) => false,
        };
        proof {
            assert(contents.deep_view()[j as int] == contents@[j as int]@);
        }
        if !tied {
            return j;
        }
        j = j + 1;
    }
    j
}

/// How the contents of the anchor's paragraph part around the insertion
/// point: everything before the new content, and everything after it.  An
/// insertion strictly inside a fragment splits it; an insertion at the tail
/// of an insertion (`at_index == None`) first steps over content that
/// earlier operations placed at the same anchor.
pub open spec fn spec_insert_cut(
    cs: Seq<TextNodeView>,
    anchor: TextAnchor,
    f: int,
    log: Seq<(NodeId, ActionView)>,
) -> (Seq<TextNodeView>, Seq<TextNodeView>) {
    match cs[f].spec_relative_position(anchor.at_index) {
        RelativePosition::AtBeginning => (cs.take(f), cs.skip(f)),
        RelativePosition::Middle => {
            let k = anchor.at_index->Some_0;
            (
                cs.take(f).push(cs[f].spec_split_front(k)),
                seq![cs[f].spec_split_back(k)] + cs.skip(f + 1),
            )
        },
        _ => {
            if anchor.at_index is None {
                let j = spec_text_skip_from(cs, log, anchor, f + 1);
                (cs.take(j), cs.skip(j))
            } else {
                (cs.take(f + 1), cs.skip(f + 1))
            }
        },
    }
}

/// What a text insertion does to the document: nothing but an error when the
/// anchor's insertion is unknown (deferred) or the anchor's index falls
/// outside its node (malformed); otherwise the anchor's paragraph gains the
/// new fragments at the anchor's gap, and, when the action carries a
/// paragraph split, the anchor's paragraph is parted around that gap into
/// the left half, the middle paragraphs, and a new paragraph holding the
/// trailing texts and the right half.
pub open spec fn spec_apply_insert(
    d: DocumentStateView,
    anchor: TextAnchor,
    runs: Seq<PartiallyFormattedTextView>,
    paragraphs: Option<(Seq<NewParagraphView>, ParagraphId, Seq<PartiallyFormattedTextView>)>,
    log: Seq<(NodeId, ActionView)>,
) -> Result<DocumentStateView, ApplyError> {
    if spec_find_text_node_from(d.paragraphs, anchor.at_node, 0) is None {
        Err(ApplyError::LookupFailure)
    } else {
        match spec_find_fragment_from(d.paragraphs, anchor, 0) {
            None => Err(ApplyError::AnchorOutOfRange),
            Some((p, f)) => {
                let cs = d.paragraphs[p].contents;
                let cut = spec_insert_cut(cs, anchor, f, log);
                let new_nodes = spec_nodes_of_runs(runs);
                match paragraphs {
                    None => Ok(
                        DocumentStateView {
                            paragraphs: d.paragraphs.update(
                                p,
                                ParagraphNodeView {
                                    paragraph_id: d.paragraphs[p].paragraph_id,
                                    tombstone: d.paragraphs[p].tombstone,
                                    contents: cut.0 + new_nodes + cut.1,
                                },
                            ),
                            client_selection: d.client_selection,
                        },
                    ),
                    Some((mids, after_pid, after_texts)) => Ok(
                        DocumentStateView {
                            paragraphs: d.paragraphs.take(p) + seq![
                                ParagraphNodeView {
                                    paragraph_id: d.paragraphs[p].paragraph_id,
                                    tombstone: d.paragraphs[p].tombstone,
                                    contents: cut.0 + new_nodes,
                                },
                            ] + Seq::new(
                                mids.len(),
                                |i: int| Paragraph::spec_from_new_paragraph(mids[i]),
                            ) + seq![
                                ParagraphNodeView {
                                    paragraph_id: after_pid,
                                    tombstone: false,
                                    contents: spec_nodes_of_runs(after_texts) + cut.1,
                                },
                            ] + d.paragraphs.skip(p + 1),
                            client_selection: d.client_selection,
                        },
                    ),
                }
            },
        }
    }
}

/// The paragraphs a paragraph insertion materializes: the first paragraph,
/// then the additional paragraphs under their pre-assigned identifiers, in
/// order.
pub open spec fn spec_pi_new_paragraphs(
    first: NewParagraphView,
    additional: Seq<(ParagraphId, NewParagraphView)>,
) -> Seq<ParagraphNodeView> {
    seq![Paragraph::spec_from_new_paragraph(first)] + Seq::new(
        additional.len(),
        |k: int| ParagraphNodeView {
            paragraph_id: additional[k].0,
            tombstone: false,
            contents: spec_nodes_of_runs(additional[k].1.text),
        },
    )
}

/// What a paragraph insertion does to the document: refused when its
/// position is not shipped; deferred when the anchor paragraph is unknown;
/// otherwise the anchor paragraph becomes a tombstone if it is live and
/// empty, and the new paragraphs — the first, then the additional ones
/// under their pre-assigned identifiers — land after the anchor and after
/// the paragraphs that earlier operations placed at the same anchor.
pub open spec fn spec_apply_paragraph_insert(
    d: DocumentStateView,
    anchor: ParagraphId,
    position: ParagraphInsertPosition,
    first: NewParagraphView,
    additional: Seq<(ParagraphId, NewParagraphView)>,
    log: Seq<(NodeId, ActionView)>,
) -> Result<DocumentStateView, ApplyError> {
    if position != ParagraphInsertPosition::EraseAnchorIfEmpty {
        Err(ApplyError::UnsupportedAction)
    } else {
        match spec_find_paragraph_from(d.paragraphs, anchor, 0) {
            None => Err(ApplyError::LookupFailure),
            Some(i) => {
                let ps1 = if !d.paragraphs[i].tombstone && d.paragraphs[i].spec_is_empty() {
                    d.paragraphs.update(
                        i,
                        ParagraphNodeView {
                            paragraph_id: d.paragraphs[i].paragraph_id,
                            tombstone: true,
                            contents: d.paragraphs[i].contents,
                        },
                    )
                } else {
                    d.paragraphs
                };
                let j = spec_pi_skip_from(ps1, log, anchor, i + 1);
                Ok(
                    DocumentStateView {
                        paragraphs: ps1.take(j) + spec_pi_new_paragraphs(first, additional)
                            + ps1.skip(j),
                        client_selection: d.client_selection,
                    },
                )
            },
        }
    }
}

/// What one action does to the document.  Only text insertions and
/// paragraph insertions at an emptied anchor are shipped; every other
/// variant is refused without effect.
pub open spec fn spec_apply_action(
    d: DocumentStateView,
    a: ActionView,
    log: Seq<(NodeId, ActionView)>,
) -> Result<DocumentStateView, ApplyError> {
    match a {
        ActionView::Insert { anchor, before_paragraphs, paragraphs } => spec_apply_insert(
            d,
            anchor,
            before_paragraphs,
            paragraphs,
            log,
        ),
        ActionView::ParagraphInsert { anchor, position, first_paragraph, additional_paragraphs } =>
            spec_apply_paragraph_insert(
            d,
            anchor,
            position,
            first_paragraph,
            additional_paragraphs,
            log,
        ),
        _ => Err(ApplyError::UnsupportedAction),
    }
}

/// The replay of the remaining operations against the document: a deferred
/// operation (unresolvable anchor) is skipped; a fatal error stops the
/// replay, leaving the document as folded so far.
pub open spec fn spec_fold_from(
    d: DocumentStateView,
    rest: Seq<(NodeId, ActionView)>,
    log: Seq<(NodeId, ActionView)>,
) -> (DocumentStateView, Option<ApplyError>)
    decreases rest.len(),
{
    if rest.len() == 0 {
        (d, None)
    } else {
        match spec_apply_action(d, rest[0].1, log) {
            Ok(d2) => spec_fold_from(d2, rest.drop_first(), log),
            Err(ApplyError::LookupFailure) => spec_fold_from(d, rest.drop_first(), log),
            Err(e) => (d, Some(e)),
        }
    }
}

/// Applies one text insertion.
#[verifier::rlimit(100)]
fn apply_insert(
    doc: &mut DocumentState,
    anchor: &TextAnchor,
    before_paragraphs: &Vec<PartiallyFormattedText>,
    paragraphs: &Option<(Vec<NewParagraph>, ParagraphId, Vec<PartiallyFormattedText>)>,
    ops: &Operations,
) -> (r: Result<(), ApplyError>)
    requires
        old(doc)@.wf(),
        runs_wf(before_paragraphs.deep_view()),
        match paragraphs_opt_view(*paragraphs) {
            Some((ps, _, texts)) => runs_wf(texts) && forall|i: int|
                0 <= i < ps.len() ==> new_paragraph_wf(#[trigger] ps[i]),
            None => true,
        },
    ensures
        ({
            let res = spec_apply_insert(
                old(doc)@,
                *anchor,
                before_paragraphs.deep_view(),
                paragraphs_opt_view(*paragraphs),
                ops@,
            );
            match res {
                Ok(dv) => r == Ok::<(), ApplyError>(()) && final(doc)@ == dv,
                Err(e) => r == Err::<(), ApplyError>(e) && final(doc)@ == old(doc)@,
            }
        }),
        final(doc)@.wf(),
{
    let ghost d0 = doc@;
    match doc.find_text_node(&anchor.at_node) {
        None => {
            return Err(ApplyError::LookupFailure);
        },
        Some(_) => {},
    }
    let pos = match doc.find_fragment(anchor) {
        None => {
            return Err(ApplyError::AnchorOutOfRange);
        },
        Some(pos) => pos,
    };
    proof {
        lemma_find_fragment_props(d0.paragraphs, *anchor, 0);
    }
    let p = pos.paragraph_index;
    let f = pos.text_node_index;
    let paragraph_count = doc.paragraphs.len();
    proof {
        assert(p < paragraph_count);
    }
    let pnode = doc.paragraphs.remove(p);
    let (pid, tomb, mut cs): (ParagraphId, bool, Vec<TextNode>) = match pnode {
        ParagraphNode::Paragraph(pp) => (pp.paragraph_id, false, pp.contents),
        ParagraphNode::ParagraphTombstone(pp) => (pp.paragraph_id, true, pp.contents),
    };
    proof {
        assert(cs.deep_view() == d0.paragraphs[p as int].contents);
    }
    let ghost cs0 = cs.deep_view();
    let cs_len = cs.len();
    let rel = cs[f].relative_positon(anchor.at_index);
    let mut right: Vec<TextNode>;
    match rel {
        RelativePosition::AtBeginning => {
            right = cs.split_off(f);
        },
        RelativePosition::AtEnd => {
            let j = if anchor.at_index.is_none() {
                text_skip(&cs, ops, anchor, f + 1)
            } else {
                f + 1
            };
            right = cs.split_off(j);
        },
        RelativePosition::Middle => {
            let mut tail = cs.split_off(f + 1);
            let frag = cs.remove(f);
            let k = match anchor.at_index {
                Some(k) => k,
                None => 0,
            };
            proof {
                assert(anchor.at_index is Some);
            }
            let (front, back) = frag.split_at(k);
            cs.push(front);
            right = Vec::new();
            right.push(back);
            right.append(&mut tail);
        },
        _ => {
            proof {
                assert(false);
            }
            right = Vec::new();
        },
    }
    proof {
        let cut = spec_insert_cut(cs0, *anchor, f as int, ops@);
        lemma_text_skip_bounds(cs0, ops@, *anchor, f + 1);
        assert(cs.deep_view() =~= cut.0);
        assert(right.deep_view() =~= cut.1);
    }
    let ghost left_v = cs.deep_view();
    let ghost right_v = right.deep_view();
    let mut new_nodes = nodes_of_runs(before_paragraphs);
    match paragraphs {
        None => {
            cs.append(&mut new_nodes);
            cs.append(&mut right);
            proof {
                assert(cs.deep_view() =~= left_v + spec_nodes_of_runs(
                    before_paragraphs.deep_view(),
                ) + right_v);
            }
            let rebuilt = if tomb {
                ParagraphNode::ParagraphTombstone(
                    ParagraphTombstone { paragraph_id: pid, contents: cs },
                )
            } else {
                ParagraphNode::Paragraph(Paragraph { paragraph_id: pid, contents: cs })
            };
            doc.paragraphs.insert(p, rebuilt);
            proof {
                let res = spec_apply_insert(
                    d0,
                    *anchor,
                    before_paragraphs.deep_view(),
                    paragraphs_opt_view(*paragraphs),
                    ops@,
                );
                assert(doc@.paragraphs =~= res->Ok_0.paragraphs);
                assert(doc@ =~= res->Ok_0);
                assert(doc@.wf()) by {
                    assert(forall|q: int| 0 <= q < doc@.paragraphs.len() && q != p
                        ==> doc@.paragraphs[q] == d0.paragraphs[q]);
                    assert(forall|jj: int| 0 <= jj < doc@.paragraphs[p as int].contents.len()
                        ==> (#[trigger] doc@.paragraphs[p as int].contents[jj]).wf());
                }
            }
            Ok(())
        },
        Some((mids, after_pid, after_texts)) => {
            proof {
                assert(paragraphs_opt_view(*paragraphs) == Some(
                    (mids.deep_view(), *after_pid, after_texts.deep_view()),
                ));
            }
            cs.append(&mut new_nodes);
            proof {
                assert(cs.deep_view() =~= left_v + spec_nodes_of_runs(
                    before_paragraphs.deep_view(),
                ));
            }
            let ghost rebuilt_v = ParagraphNodeView {
                paragraph_id: pid,
                tombstone: tomb,
                contents: cs.deep_view(),
            };
            let rebuilt = if tomb {
                ParagraphNode::ParagraphTombstone(
                    ParagraphTombstone { paragraph_id: pid, contents: cs },
                )
            } else {
                ParagraphNode::Paragraph(Paragraph { paragraph_id: pid, contents: cs })
            };
            proof {
                assert(rebuilt@ =~= rebuilt_v);
            }
            doc.paragraphs.insert(p, rebuilt);
            proof {
                assert(doc@.paragraphs =~= d0.paragraphs.update(p as int, rebuilt_v));
            }
            let mut trailing = doc.paragraphs.split_off(p + 1);
            proof {
                assert(doc@.paragraphs =~= d0.paragraphs.take(p as int).push(rebuilt_v));
                assert(trailing.deep_view() =~= d0.paragraphs.skip(p as int + 1));
            }
            let ghost base_v = doc@.paragraphs;
            let ghost trailing_v = trailing.deep_view();
            let ghost mids_v = mids.deep_view();
            let mut mi: usize = 0;
            while mi < mids.len()
                invariant
                    mi <= mids_v.len(),
                    mids_v == mids.deep_view(),
                    doc@.client_selection == d0.client_selection,
                    doc@.paragraphs =~= base_v + Seq::new(
                        mi as nat,
                        |i: int| Paragraph::spec_from_new_paragraph(mids_v[i]),
                    ),
                decreases mids_v.len() - mi,
            {
                let mid_paragraph = Paragraph::from_new_paragraph(&mids[mi]);
                proof {
                    assert(mids_v[mi as int] == mids@[mi as int]@);
                    assert(ParagraphNode::Paragraph(mid_paragraph)@
                        == Paragraph::spec_from_new_paragraph(mids_v[mi as int]));
                }
                doc.paragraphs.push(ParagraphNode::Paragraph(mid_paragraph));
                mi = mi + 1;
                proof {
                    let prev = base_v + Seq::new(
                        (mi - 1) as nat,
                        |i: int| Paragraph::spec_from_new_paragraph(mids_v[i]),
                    );
                    assert(doc@.paragraphs =~= prev.push(
                        Paragraph::spec_from_new_paragraph(mids_v[mi - 1]),
                    ));
                    assert(prev.push(Paragraph::spec_from_new_paragraph(mids_v[mi - 1])) =~= base_v
                        + Seq::new(
                        mi as nat,
                        |i: int| Paragraph::spec_from_new_paragraph(mids_v[i]),
                    ));
                }
            }
            let ghost with_mids_v = doc@.paragraphs;
            let mut after_contents = nodes_of_runs(after_texts);
            after_contents.append(&mut right);
            proof {
                assert(after_contents.deep_view() =~= spec_nodes_of_runs(after_texts.deep_view())
                    + right_v);
            }
            let ghost after_v = ParagraphNodeView {
                paragraph_id: *after_pid,
                tombstone: false,
                contents: after_contents.deep_view(),
            };
            doc.paragraphs.push(
                ParagraphNode::Paragraph(
                    Paragraph { paragraph_id: *after_pid, contents: after_contents },
                ),
            );
            proof {
                assert(doc@.paragraphs =~= with_mids_v.push(after_v));
            }
            doc.paragraphs.append(&mut trailing);
            proof {
                assert(doc@.paragraphs =~= with_mids_v.push(after_v) + trailing_v);
            }
            proof {
                let res = spec_apply_insert(
                    d0,
                    *anchor,
                    before_paragraphs.deep_view(),
                    paragraphs_opt_view(*paragraphs),
                    ops@,
                );
                let cut = spec_insert_cut(d0.paragraphs[p as int].contents, *anchor, f as int, ops@);
                let left_para = ParagraphNodeView {
                    paragraph_id: d0.paragraphs[p as int].paragraph_id,
                    tombstone: d0.paragraphs[p as int].tombstone,
                    contents: cut.0 + spec_nodes_of_runs(before_paragraphs.deep_view()),
                };
                let after_para = ParagraphNodeView {
                    paragraph_id: *after_pid,
                    tombstone: false,
                    contents: spec_nodes_of_runs(after_texts.deep_view()) + cut.1,
                };
                let mids_seq = Seq::new(
                    mids_v.len(),
                    |i: int| Paragraph::spec_from_new_paragraph(mids_v[i]),
                );
                assert(res->Ok_0.paragraphs == d0.paragraphs.take(p as int) + seq![left_para]
                    + mids_seq + seq![after_para] + d0.paragraphs.skip(p as int + 1));
                assert(rebuilt_v =~~= left_para);
                assert(after_v =~~= after_para);
                assert(base_v =~= d0.paragraphs.take(p as int) + seq![rebuilt_v]);
                assert(with_mids_v.push(after_v) =~= base_v + mids_seq + seq![after_v]);
                assert(doc@.paragraphs =~= d0.paragraphs.take(p as int) + seq![rebuilt_v]
                    + mids_seq + seq![after_v] + d0.paragraphs.skip(p as int + 1));
                assert(seq![rebuilt_v] =~= seq![left_para]);
                assert(seq![after_v] =~= seq![after_para]);
                assert(doc@.paragraphs == d0.paragraphs.take(p as int) + seq![left_para]
                    + mids_seq + seq![after_v] + d0.paragraphs.skip(p as int + 1));
                assert(doc@.paragraphs == d0.paragraphs.take(p as int) + seq![left_para]
                    + mids_seq + seq![after_para] + d0.paragraphs.skip(p as int + 1));
                assert(doc@.paragraphs == res->Ok_0.paragraphs);
                assert(doc@.client_selection == d0.client_selection);
                assert(res->Ok_0.client_selection == d0.client_selection);
                assert(doc@ =~= res->Ok_0);
                assert(doc@.wf()) by {
                    assert(forall|q: int| 0 <= q < p ==> doc@.paragraphs[q] == d0.paragraphs[q]);
                    assert(forall|q: int, jj: int| 0 <= q < doc@.paragraphs.len() && 0 <= jj
                        < doc@.paragraphs[q].contents.len() ==> (
                    #[trigger] doc@.paragraphs[q].contents[jj]).wf());
                }
            }
            Ok(())
        },
    }
}

/// Applies one paragraph insertion.
fn apply_paragraph_insert(
    doc: &mut DocumentState,
    anchor: &ParagraphId,
    position: &ParagraphInsertPosition,
    first_paragraph: &NewParagraph,
    additional_paragraphs: &Vec<(ParagraphId, NewParagraph)>,
    ops: &Operations,
) -> (r: Result<(), ApplyError>)
    requires
        old(doc)@.wf(),
        new_paragraph_wf(first_paragraph.deep_view()),
        forall|k: int| 0 <= k < additional_paragraphs.deep_view().len() ==> new_paragraph_wf(
            (#[trigger] additional_paragraphs.deep_view()[k]).1,
        ),
    ensures
        ({
            let res = spec_apply_paragraph_insert(
                old(doc)@,
                *anchor,
                *position,
                first_paragraph.deep_view(),
                additional_paragraphs.deep_view(),
                ops@,
            );
            match res {
                Ok(dv) => r == Ok::<(), ApplyError>(()) && final(doc)@ == dv,
                Err(e) => r == Err::<(), ApplyError>(e) && final(doc)@ == old(doc)@,
            }
        }),
        final(doc)@.wf(),
{
    let ghost d0 = doc@;
    let is_erase = match position {
        ParagraphInsertPosition::EraseAnchorIfEmpty => true,
        _ => false,
    };
    if !is_erase {
        return Err(ApplyError::UnsupportedAction);
    }
    let i = match doc.find_paragraph_index(anchor) {
        None => {
            return Err(ApplyError::LookupFailure);
        },
        Some(i) => i,
    };
    proof {
        lemma_find_paragraph_props(d0.paragraphs, *anchor, 0);
    }
    let paragraph_count = doc.paragraphs.len();
    proof {
        assert(i < paragraph_count);
    }
    let should_tombstone = match &doc.paragraphs[i] {
        ParagraphNode::Paragraph(pp) => pp.is_empty(),
        ParagraphNode::ParagraphTombstone(_) => false,
    };
    if should_tombstone {
        let pnode = doc.paragraphs.remove(i);
        match pnode {
            ParagraphNode::Paragraph(pp) => {
                doc.paragraphs.insert(i, ParagraphNode::ParagraphTombstone(pp.to_tombstone()));
            },
            ParagraphNode::ParagraphTombstone(pt) => {
                doc.paragraphs.insert(i, ParagraphNode::ParagraphTombstone(pt));
            },
        }
    }
    let ghost ps1 = if !d0.paragraphs[i as int].tombstone && d0.paragraphs[
        i as int
    ].spec_is_empty() {
        d0.paragraphs.update(
            i as int,
            ParagraphNodeView {
                paragraph_id: d0.paragraphs[i as int].paragraph_id,
                tombstone: true,
                contents: d0.paragraphs[i as int].contents,
            },
        )
    } else {
        d0.paragraphs
    };
    proof {
        assert(doc@.paragraphs =~= ps1);
    }
    let j = pi_skip(&doc.paragraphs, ops, anchor, i + 1);
    let mut trailing = doc.paragraphs.split_off(j);
    proof {
        assert(doc@.paragraphs =~= ps1.take(j as int));
        assert(trailing.deep_view() =~= ps1.skip(j as int));
    }
    let ghost base_v = doc@.paragraphs;
    let ghost trailing_v = trailing.deep_view();
    let ghost adds_v = additional_paragraphs.deep_view();
    let ghost news = spec_pi_new_paragraphs(first_paragraph.deep_view(), adds_v);
    doc.paragraphs.push(
        ParagraphNode::Paragraph(Paragraph::from_new_paragraph(first_paragraph)),
    );
    proof {
        assert(news[0] == Paragraph::spec_from_new_paragraph(first_paragraph.deep_view()));
        assert(doc@.paragraphs =~= base_v + news.take(1));
    }
    let mut k: usize = 0;
    while k < additional_paragraphs.len()
        invariant
            k <= adds_v.len(),
            adds_v == additional_paragraphs.deep_view(),
            news == spec_pi_new_paragraphs(first_paragraph.deep_view(), adds_v),
            news.len() == 1 + adds_v.len(),
            doc@.client_selection == d0.client_selection,
            doc@.paragraphs =~= base_v + news.take(1 + k),
        decreases adds_v.len() - k,
    {
        let entry = &additional_paragraphs[k];
        let contents = nodes_of_runs(&entry.1.text);
        let added = Paragraph { paragraph_id: entry.0, contents };
        proof {
            assert(adds_v[k as int] == (additional_paragraphs@[k as int].0,
                additional_paragraphs@[k as int].1@));
            assert(news[1 + k] == ParagraphNodeView {
                paragraph_id: adds_v[k as int].0,
                tombstone: false,
                contents: spec_nodes_of_runs(adds_v[k as int].1.text),
            });
            assert(ParagraphNode::Paragraph(added)@ == news[1 + k]);
        }
        let ghost before_push = doc@.paragraphs;
        doc.paragraphs.push(ParagraphNode::Paragraph(added));
        k = k + 1;
        proof {
            assert(doc@.paragraphs =~= before_push.push(news[k as int]));
            assert(doc@.paragraphs =~= base_v + news.take(1 + k));
        }
    }
    proof {
        assert(news.take(1 + adds_v.len() as int) =~= news);
    }
    doc.paragraphs.append(&mut trailing);
    proof {
        let res = spec_apply_paragraph_insert(
            d0,
            *anchor,
            *position,
            first_paragraph.deep_view(),
            additional_paragraphs.deep_view(),
            ops@,
        );
        assert(doc@.paragraphs =~= ps1.take(j as int) + news + trailing_v);
        assert(doc@.paragraphs =~= res->Ok_0.paragraphs);
        assert(doc@ =~= res->Ok_0);
        assert(doc@.wf()) by {
            assert(forall|q: int, jj: int| 0 <= q < doc@.paragraphs.len() && 0 <= jj
                < doc@.paragraphs[q].contents.len() ==> (
            #[trigger] doc@.paragraphs[q].contents[jj]).wf());
        }
    }
    Ok(())
}

/// Applies one action to the document.
fn apply_action(doc: &mut DocumentState, action: &Action, ops: &Operations) -> (r: Result<
    (),
    ApplyError,
>)
    requires
        old(doc)@.wf(),
        action_wf(action@),
    ensures
        ({
            let res = spec_apply_action(old(doc)@, action@, ops@);
            match res {
                Ok(dv) => r == Ok::<(), ApplyError>(()) && final(doc)@ == dv,
                Err(e) => r == Err::<(), ApplyError>(e) && final(doc)@ == old(doc)@,
            }
        }),
        final(doc)@.wf(),
{
    match action {
        Action::Insert { anchor, before_paragraphs, paragraphs } => {
            proof {
                assert(action@->Insert_before_paragraphs == before_paragraphs.deep_view());
                assert(action@->Insert_paragraphs == paragraphs_opt_view(*paragraphs));
            }
            apply_insert(doc, anchor, before_paragraphs, paragraphs, ops)
        },
        Action::ParagraphInsert { anchor, position, first_paragraph, additional_paragraphs } => {
            proof {
                assert(action@->ParagraphInsert_first_paragraph == first_paragraph.deep_view());
                assert(action@->ParagraphInsert_additional_paragraphs
                    == additional_paragraphs.deep_view());
            }
            apply_paragraph_insert(doc, anchor, position, first_paragraph, additional_paragraphs, ops)
        },
        _ => Err(ApplyError::UnsupportedAction),
    }
}

impl DocumentState {
    /// Replays the ordered operation log against this document.  Operations
    /// whose anchors are not yet known are deferred (skipped); the first
    /// malformed or unshipped operation stops the replay with its error,
    /// leaving the document as folded up to it.
    pub fn apply_operations(&mut self, ops: &Operations) -> (r: Result<(), ApplyError>)
        requires
            old(self)@.wf(),
            log_wf(ops@),
        ensures
            final(self)@ == spec_fold_from(old(self)@, ops@, ops@).0,
            match r {
                Ok(()) => spec_fold_from(old(self)@, ops@, ops@).1 is None,
                Err(e) => spec_fold_from(old(self)@, ops@, ops@).1 == Some(e),
            },
            final(self)@.wf(),
    {
        let ghost d0 = self@;
        proof {
            assert(ops@.skip(0) =~= ops@);
        }
        let mut idx: usize = 0;
        while idx < ops.len()
            invariant
                idx <= ops@.len(),
                self@.wf(),
                spec_fold_from(d0, ops@, ops@) == spec_fold_from(
                    self@,
                    ops@.skip(idx as int),
                    ops@,
                ),
            decreases ops@.len() - idx,
        {
            let entry = ops.entry(idx);
            proof {
                assert(ops@.skip(idx as int)[0] == ops@[idx as int]);
                assert(ops@.skip(idx as int).drop_first() =~= ops@.skip(idx as int + 1));
                assert(action_wf(ops@[idx as int].1));
            }
            let res = apply_action(self, &entry.1, ops);
            match res {
                Ok(()) => {},
                Err(ApplyError::LookupFailure) => {},
                Err(e) => {
                    return Err(e);
                },
            }
            idx = idx + 1;
        }
        proof {
            assert(ops@.skip(ops@.len() as int) =~= Seq::<(NodeId, ActionView)>::empty());
        }
        Ok(())
    }
}

} // verus!
