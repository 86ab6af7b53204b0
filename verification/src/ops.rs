//! The operation model and the ordered operation log.
//!
//! An action describes one edit; the log maps operation identifiers to
//! actions and is kept in ascending identifier order.  The log is
//! append/replace-only: an incoming operation whose identifier is already
//! present replaces the stored action, so delivering the same operation twice
//! leaves the log unchanged.

use vstd::prelude::*;
use crate::anchor::TextAnchor;
use crate::format::{Format, ParagraphStyle, PartiallyFormattedText, PartiallyFormattedTextView};
use crate::ids::{ActionId, NodeId, ParagraphId};
use crate::paragraph::{NewParagraph, NewParagraphView};

verus! {

/// Where a paragraph insertion places its paragraphs relative to the anchor
/// paragraph.
#[derive(Clone, Copy, Debug, PartialEq, Eq, Structural)]
pub enum ParagraphInsertPosition {
    BeforeAnchor,
    EraseAnchorIfEmpty,
    AfterAnchor,
}

/// One edit operation.
#[derive(Clone, Debug)]
pub enum Action {
    /// Insert text at a text anchor, optionally splitting the anchor's
    /// paragraph into several paragraphs.
    Insert {
        anchor: TextAnchor,
        before_paragraphs: Vec<PartiallyFormattedText>,
        paragraphs: Option<(Vec<NewParagraph>, ParagraphId, Vec<PartiallyFormattedText>)>,
    },
    /// Insert one or more new paragraphs at a paragraph anchor.  The first
    /// paragraph reuses the operation's identifier; additional paragraphs
    /// carry pre-assigned identifiers.
    ParagraphInsert {
        anchor: ParagraphId,
        position: ParagraphInsertPosition,
        first_paragraph: NewParagraph,
        additional_paragraphs: Vec<(ParagraphId, NewParagraph)>,
    },
    /// Insert format-change markers at the two anchors.
    FormatChange { begin_anchor: TextAnchor, end_anchor: TextAnchor, format: Format },
    /// Assign a style to the listed paragraphs.
    ParagraphStyleChange {
        paragraphs: Vec<ParagraphId>,
        known_paragraph_splices: Vec<ActionId>,
        paragraph_style: ParagraphStyle,
    },
    /// Mark the interval between the two anchors as tombstones.
    Erase { begin_anchor: TextAnchor, end_anchor: TextAnchor, known_splices: Vec<ActionId> },
    /// Re-insert the content of a prior erase at a text anchor.
    SpliceInsert { anchor: TextAnchor, erase_id: ActionId, new_node_ids_if_necessary: Vec<NodeId> },
    /// Re-insert the content of a prior erase as new paragraphs.
    SpliceParagraphInsert {
        anchor: ParagraphId,
        position: ParagraphInsertPosition,
        erase_id: ActionId,
        new_node_ids_if_necessary: Vec<NodeId>,
        new_paragraph_style: ParagraphStyle,
    },
    /// Change the undo counter of a prior action; visibility follows the
    /// counter's parity.
    UndoRedo { edit_id: ActionId, undo_counter_change: i32 },
}

/// The mathematical value of an [`Action`].
#[verifier::ext_equal]
pub enum ActionView {
    Insert {
        anchor: TextAnchor,
        before_paragraphs: Seq<PartiallyFormattedTextView>,
        paragraphs: Option<(Seq<NewParagraphView>, ParagraphId, Seq<PartiallyFormattedTextView>)>,
    },
    ParagraphInsert {
        anchor: ParagraphId,
        position: ParagraphInsertPosition,
        first_paragraph: NewParagraphView,
        additional_paragraphs: Seq<(ParagraphId, NewParagraphView)>,
    },
    FormatChange { begin_anchor: TextAnchor, end_anchor: TextAnchor, format: Format },
    ParagraphStyleChange {
        paragraphs: Seq<ParagraphId>,
        known_paragraph_splices: Seq<ActionId>,
        paragraph_style: ParagraphStyle,
    },
    Erase { begin_anchor: TextAnchor, end_anchor: TextAnchor, known_splices: Seq<ActionId> },
    SpliceInsert { anchor: TextAnchor, erase_id: ActionId, new_node_ids_if_necessary: Seq<NodeId> },
    SpliceParagraphInsert {
        anchor: ParagraphId,
        position: ParagraphInsertPosition,
        erase_id: ActionId,
        new_node_ids_if_necessary: Seq<NodeId>,
        new_paragraph_style: ParagraphStyle,
    },
    UndoRedo { edit_id: ActionId, undo_counter_change: i32 },
}

/// The mathematical value of an insertion's optional paragraph-split part.
pub open spec fn paragraphs_opt_view(
    p: Option<(Vec<NewParagraph>, ParagraphId, Vec<PartiallyFormattedText>)>,
) -> Option<(Seq<NewParagraphView>, ParagraphId, Seq<PartiallyFormattedTextView>)> {
    match p {
        Some((ps, after_id, texts)) => Some((ps.deep_view(), after_id, texts.deep_view())),
        None => None,
    }
}

impl View for Action {
    type V = ActionView;

    open spec fn view(&self) -> ActionView {
        match self {
            Action::Insert { anchor, before_paragraphs, paragraphs } => ActionView::Insert {
                anchor: *anchor,
                before_paragraphs: before_paragraphs.deep_view(),
                paragraphs: paragraphs_opt_view(*paragraphs),
            },
            Action::ParagraphInsert { anchor, position, first_paragraph, additional_paragraphs } =>
                ActionView::ParagraphInsert {
                anchor: *anchor,
                position: *position,
                first_paragraph: first_paragraph.deep_view(),
                additional_paragraphs: additional_paragraphs.deep_view(),
            },
            Action::FormatChange { begin_anchor, end_anchor, format } => ActionView::FormatChange {
                begin_anchor: *begin_anchor,
                end_anchor: *end_anchor,
                format: *format,
            },
            Action::ParagraphStyleChange {
                paragraphs,
                known_paragraph_splices,
                paragraph_style,
            } => ActionView::ParagraphStyleChange {
                paragraphs: paragraphs.deep_view(),
                known_paragraph_splices: known_paragraph_splices.deep_view(),
                paragraph_style: *paragraph_style,
            },
            Action::Erase { begin_anchor, end_anchor, known_splices } => ActionView::Erase {
                begin_anchor: *begin_anchor,
                end_anchor: *end_anchor,
                known_splices: known_splices.deep_view(),
            },
            Action::SpliceInsert { anchor, erase_id, new_node_ids_if_necessary } =>
                ActionView::SpliceInsert {
                anchor: *anchor,
                erase_id: *erase_id,
                new_node_ids_if_necessary: new_node_ids_if_necessary.deep_view(),
            },
            Action::SpliceParagraphInsert {
                anchor,
                position,
                erase_id,
                new_node_ids_if_necessary,
                new_paragraph_style,
            } => ActionView::SpliceParagraphInsert {
                anchor: *anchor,
                position: *position,
                erase_id: *erase_id,
                new_node_ids_if_necessary: new_node_ids_if_necessary.deep_view(),
                new_paragraph_style: *new_paragraph_style,
            },
            Action::UndoRedo { edit_id, undo_counter_change } => ActionView::UndoRedo {
                edit_id: *edit_id,
                undo_counter_change: *undo_counter_change,
            },
        }
    }
}

impl DeepView for Action {
    type V = ActionView;

    open spec fn deep_view(&self) -> ActionView {
        self.view()
    }
}

/// Whether the log holds its entries in strictly ascending identifier order,
/// which also makes every identifier unique.
pub open spec fn ops_sorted(s: Seq<(NodeId, ActionView)>) -> bool {
    forall|i: int, j: int| 0 <= i < j < s.len() ==> (#[trigger] s[i]).0.spec_lt(
        (#[trigger] s[j]).0,
    )
}

/// The mapping from operation identifiers to actions that an ordered log
/// holds.
pub open spec fn ops_map(s: Seq<(NodeId, ActionView)>) -> Map<NodeId, ActionView>
    decreases s.len(),
{
    if s.len() == 0 {
        Map::empty()
    } else {
        ops_map(s.drop_last()).insert(s.last().0, s.last().1)
    }
}

/// The domain of the mapping is exactly the set of identifiers in the log,
/// and each identifier maps to the action stored beside it (in a log with
/// unique identifiers).
pub proof fn lemma_ops_map_entries(s: Seq<(NodeId, ActionView)>)
    requires
        ops_sorted(s),
    ensures
        forall|k: NodeId| ops_map(s).dom().contains(k) <==> exists|i: int|
            0 <= i < s.len() && (#[trigger] s[i]).0 == k,
        forall|i: int| 0 <= i < s.len() ==> ops_map(s).dom().contains((#[trigger] s[i]).0)
            && ops_map(s)[s[i].0] == s[i].1,
    decreases s.len(),
{
    if s.len() > 0 {
        assert(ops_sorted(s.drop_last())) by {
            assert(forall|i: int, j: int| 0 <= i < j < s.len() - 1 ==> (#[trigger] s.drop_last()[i]).0.spec_lt(
                (#[trigger] s.drop_last()[j]).0,
            ));
        }
        lemma_ops_map_entries(s.drop_last());
        assert(forall|i: int| 0 <= i < s.len() - 1 ==> s[i] == s.drop_last()[i]);
        assert(forall|i: int| 0 <= i < s.len() - 1 ==> s[i].0.spec_lt(s.last().0));
        assert forall|k: NodeId| ops_map(s).dom().contains(k) implies exists|i: int|
            0 <= i < s.len() && (#[trigger] s[i]).0 == k by {
            if k == s.last().0 {
                assert(s[s.len() - 1].0 == k);
            } else {
                assert(ops_map(s.drop_last()).dom().contains(k));
                let i = choose|i: int|
                    0 <= i < s.drop_last().len() && (#[trigger] s.drop_last()[i]).0 == k;
                assert(s[i].0 == k);
            }
        }
        assert forall|k: NodeId| (exists|i: int| 0 <= i < s.len() && (#[trigger] s[i]).0 == k)
            implies ops_map(s).dom().contains(k) by {
            let i = choose|i: int| 0 <= i < s.len() && (#[trigger] s[i]).0 == k;
            if i < s.len() - 1 {
                assert(s.drop_last()[i].0 == k);
            }
        }
    }
}

/// The greatest `operation_id` an entry makes seen: its own key, or any
/// identifier occurring inside its action's payload.
pub open spec fn spec_entry_max_id(e: (NodeId, ActionView)) -> u64 {
    if crate::fold::spec_action_max_id(e.1) > e.0.operation_id {
        crate::fold::spec_action_max_id(e.1)
    } else {
        e.0.operation_id
    }
}

/// The greatest `operation_id` seen through the log: over its keys and
/// over every identifier occurring inside its actions — anchors,
/// references, pre-assigned paragraph identifiers and minted run
/// identifiers — or `0` for an empty log.
pub open spec fn spec_max_operation_id(s: Seq<(NodeId, ActionView)>) -> u64
    decreases s.len(),
{
    if s.len() == 0 {
        0
    } else {
        let rest = spec_max_operation_id(s.drop_last());
        if spec_entry_max_id(s.last()) > rest {
            spec_entry_max_id(s.last())
        } else {
            rest
        }
    }
}

/// Every identifier seen through the log — each entry's key and every
/// identifier inside its action — has an `operation_id` bounded by the
/// log's maximum.
pub proof fn lemma_max_operation_id_bounds(s: Seq<(NodeId, ActionView)>)
    ensures
        forall|i: int| 0 <= i < s.len() ==> (#[trigger] s[i]).0.operation_id
            <= spec_max_operation_id(s),
        forall|i: int| 0 <= i < s.len() ==> crate::fold::spec_action_max_id(
            (#[trigger] s[i]).1,
        ) <= spec_max_operation_id(s),
    decreases s.len(),
{
    if s.len() > 0 {
        lemma_max_operation_id_bounds(s.drop_last());
        assert(forall|i: int| 0 <= i < s.len() - 1 ==> s[i] == s.drop_last()[i]);
    }
}

/// The ordered operation log of one replica.
#[derive(Debug)]
pub struct Operations {
    pub ordered_ops: Vec<(NodeId, Action)>,
}

impl View for Operations {
    type V = Seq<(NodeId, ActionView)>;

    open spec fn view(&self) -> Seq<(NodeId, ActionView)> {
        self.ordered_ops.deep_view()
    }
}

impl Operations {
    /// Validity: the entries stand in strictly ascending identifier order.
    pub open spec fn wf(self) -> bool {
        ops_sorted(self@)
    }

    /// Creates an empty log.
    pub fn empty() -> (r: Self)
        ensures
            r@ =~= Seq::<(NodeId, ActionView)>::empty(),
            r.wf(),
    {
        Self { ordered_ops: Vec::new() }
    }

    /// The number of operations in the log.
    pub fn len(&self) -> (r: usize)
        ensures
            r == self@.len(),
    {
        self.ordered_ops.len()
    }

    /// Returns the entry at the given position.
    pub fn entry(&self, i: usize) -> (r: &(NodeId, Action))
        requires
            i < self@.len(),
        ensures
            r.0 == self@[i as int].0,
            r.1@ == self@[i as int].1,
    {
        &self.ordered_ops[i]
    }

    /// Adds the operation to the log, or replaces the action stored under the
    /// same identifier.  The log's mapping afterwards is the old mapping with
    /// this binding inserted; order and uniqueness of identifiers are kept.
    pub fn add_or_replace_node(&mut self, node_id: NodeId, action: Action)
        requires
            old(self).wf(),
        ensures
            final(self).wf(),
            ops_map(final(self)@) == ops_map(old(self)@).insert(node_id, action@),
            forall|i: int| 0 <= i < final(self)@.len() ==> ((#[trigger] final(self)@[i]) == (
            node_id,
            action@,
            ) || exists|j: int| 0 <= j < old(self)@.len() && old(self)@[j] == final(self)@[i]),
    {
        let ghost old_seq = self@;
        let mut i: usize = 0;
        while i < self.ordered_ops.len() && self.ordered_ops[i].0.lt(&node_id)
            invariant
                i <= self@.len(),
                self@ == old_seq,
                self.wf(),
                forall|j: int| 0 <= j < i ==> (#[trigger] self@[j]).0.spec_lt(node_id),
            decreases self@.len() - i,
        {
            i = i + 1;
        }
        if i < self.ordered_ops.len() && self.ordered_ops[i].0 == node_id {
            self.ordered_ops.remove(i);
            self.ordered_ops.insert(i, (node_id, action));
            proof {
                assert(final(self)@ =~= old_seq.update(i as int, (node_id, old_seq[i as int].1)).update(
                    i as int,
                    (node_id, action@),
                ));
                assert(final(self)@ =~= old_seq.update(i as int, (node_id, action@)));
                lemma_ops_map_update(old_seq, i as int, action@);
            }
        } else {
            self.ordered_ops.insert(i, (node_id, action));
            proof {
                assert(final(self)@ =~= old_seq.insert(i as int, (node_id, action@)));
                if i < old_seq.len() {
                    assert(!old_seq[i as int].0.spec_lt(node_id));
                    assert(old_seq[i as int].0 != node_id);
                }
                lemma_ops_map_fresh_insert(old_seq, i as int, node_id, action@);
            }
        }
    }

    /// Returns the greatest `operation_id` seen through the log: over its
    /// keys and over every identifier occurring inside its actions, or `0`
    /// when the log is empty.
    pub fn maximum_operation_id(&self) -> (r: u64)
        ensures
            r == spec_max_operation_id(self@),
    {
        let mut max: u64 = 0;
        let mut i: usize = 0;
        while i < self.ordered_ops.len()
            invariant
                i <= self@.len(),
                max == spec_max_operation_id(self@.take(i as int)),
            decreases self@.len() - i,
        {
            let entry = &self.ordered_ops[i];
            let mut entry_max = entry.0.operation_id;
            let payload_max = crate::fold::action_max_id(&entry.1);
            if payload_max > entry_max {
                entry_max = payload_max;
            }
            if entry_max > max {
                max = entry_max;
            }
            i = i + 1;
            proof {
                assert(self@[i - 1] == (self.ordered_ops@[i - 1].0,
                    self.ordered_ops@[i - 1].1@));
                assert(entry_max == spec_entry_max_id(self@[i - 1]));
                assert(self@.take(i as int).drop_last() =~= self@.take(i - 1));
            }
        }
        proof {
            assert(self@.take(self@.len() as int) =~= self@);
        }
        max
    }
}

/// Replacing the action stored at position `i` updates the mapping at that
/// entry's identifier and keeps order and the maximum identifier.
proof fn lemma_ops_map_update(s: Seq<(NodeId, ActionView)>, i: int, a: ActionView)
    requires
        ops_sorted(s),
        0 <= i < s.len(),
    ensures
        ops_sorted(s.update(i, (s[i].0, a))),
        ops_map(s.update(i, (s[i].0, a))) == ops_map(s).insert(s[i].0, a),
    decreases s.len(),
{
    let t = s.update(i, (s[i].0, a));
    assert(forall|j: int| 0 <= j < s.len() && j != i ==> t[j] == s[j]);
    if i == s.len() - 1 {
        assert(t.drop_last() =~= s.drop_last());
        assert(ops_map(t) =~= ops_map(s).insert(s[i].0, a));
    } else {
        assert(ops_sorted(s.drop_last())) by {
            assert(forall|p: int, q: int| 0 <= p < q < s.len() - 1 ==> s.drop_last()[p] == s[p]
                && s.drop_last()[q] == s[q]);
        }
        lemma_ops_map_update(s.drop_last(), i, a);
        assert(t.drop_last() =~= s.drop_last().update(i, (s[i].0, a)));
        lemma_ops_map_entries(s.drop_last());
        assert(s[i].0.spec_lt(s.last().0));
        assert(ops_map(t) =~= ops_map(s).insert(s[i].0, a)) by {
            assert(ops_map(t) == ops_map(s.drop_last()).insert(s[i].0, a).insert(
                s.last().0,
                s.last().1,
            ));
            assert(ops_map(s.drop_last()).insert(s[i].0, a).insert(s.last().0, s.last().1)
                =~= ops_map(s.drop_last()).insert(s.last().0, s.last().1).insert(s[i].0, a));
        }
    }
}

/// Inserting an entry with a fresh identifier at its ordered position adds
/// the binding to the mapping, keeps the order, and raises the maximum
/// identifier accordingly.
proof fn lemma_ops_map_fresh_insert(s: Seq<(NodeId, ActionView)>, i: int, k: NodeId, a: ActionView)
    requires
        ops_sorted(s),
        0 <= i <= s.len(),
        forall|j: int| 0 <= j < i ==> (#[trigger] s[j]).0.spec_lt(k),
        forall|j: int| i <= j < s.len() ==> k.spec_lt((#[trigger] s[j]).0),
    ensures
        ops_sorted(s.insert(i, (k, a))),
        ops_map(s.insert(i, (k, a))) == ops_map(s).insert(k, a),
    decreases s.len(),
{
    let t = s.insert(i, (k, a));
    assert(forall|j: int| 0 <= j < i ==> t[j] == s[j]);
    assert(t[i] == (k, a));
    assert(forall|j: int| i < j < t.len() ==> t[j] == s[j - 1]);
    assert(ops_sorted(t));
    if i == s.len() {
        assert(t.drop_last() =~= s);
    } else {
        assert(ops_sorted(s.drop_last())) by {
            assert(forall|p: int, q: int| 0 <= p < q < s.len() - 1 ==> s.drop_last()[p] == s[p]
                && s.drop_last()[q] == s[q]);
        }
        lemma_ops_map_fresh_insert(s.drop_last(), i, k, a);
        assert(t.drop_last() =~= s.drop_last().insert(i, (k, a)));
        assert(t.last() == s.last());
        lemma_ops_map_entries(s.drop_last());
        assert(ops_map(t) =~= ops_map(s).insert(k, a)) by {
            assert(ops_map(t) == ops_map(s.drop_last()).insert(k, a).insert(
                s.last().0,
                s.last().1,
            ));
            assert(k.spec_lt(s.last().0));
            assert(ops_map(s.drop_last()).insert(k, a).insert(s.last().0, s.last().1)
                =~= ops_map(s.drop_last()).insert(s.last().0, s.last().1).insert(k, a));
        }
    }
}

} // verus!
