//! The client: one replica's operation log, materialized document and
//! selection, and the operations it mints for local edits.
//!
//! A client mints operation identifiers that strictly exceed every
//! identifier it has seen, so identifiers never collide across clients and
//! a client's own operations are totally ordered after everything it knew.
//! After every emitted action the client re-folds the entire log and puts
//! the caret at the tail of the fragment it just inserted, so subsequent
//! typing appends there.

use vstd::prelude::*;
use crate::anchor::{ClientSelection, TextAnchor, TextOrParagraphAnchor};
use crate::doc::{DocumentState, DocumentStateView};
use crate::fold::{
    action_wf, check_action_shipped, check_action_wf, check_minted_fresh, lemma_ids_max_bounds,
    log_wf, spec_action_ids, spec_action_max_id, spec_action_shipped, spec_fold_from,
    spec_minted_fresh, ApplyError,
};
use crate::format::{PartiallyFormattedText, PartiallyFormattedTextView, TextFormatChange};
use crate::ids::{NodeId, ParagraphId};
use crate::ops::{ops_map, spec_max_operation_id, Action, ActionView, Operations,
    ParagraphInsertPosition, lemma_max_operation_id_bounds};
use crate::paragraph::{NewParagraph, NewParagraphView};
use crate::render::{rendered_doc_wf, spec_render_from, RenderedDocument};
use crate::selection::spec_non_tombstone_selection;
use vstd::string::StrSliceExecFns;

verus! {

/// A local edit: typed text, or a paragraph break.
#[derive(Clone, Debug)]
pub enum Input {
    Text(String),
    ParagraphBreak,
}

/// The operation identifier a client in this state mints next: one more
/// than everything it has seen, from its own counter or from the log.
pub open spec fn spec_next_operation_value(counter: Option<u64>, log: Seq<(NodeId, ActionView)>,
) -> int {
    let floor = match counter {
        Some(c) => c,
        None => 0,
    };
    if floor > spec_max_operation_id(log) {
        floor + 1
    } else {
        spec_max_operation_id(log) + 1
    }
}

/// The action a text input at the given caret anchor turns into: an
/// insertion of one unformatted run at a text anchor, or, at an (empty)
/// paragraph, a paragraph insertion that tombstones the anchor paragraph
/// and carries the run.
pub open spec fn spec_input_action(
    anchor: TextOrParagraphAnchor,
    nid: NodeId,
    text: Seq<char>,
) -> ActionView {
    let run = PartiallyFormattedTextView {
        node_id: nid,
        text,
        format: TextFormatChange { values_to_set: 0, value: 0 },
    };
    match anchor {
        TextOrParagraphAnchor::TextAnchor(a) => ActionView::Insert {
            anchor: a,
            before_paragraphs: seq![run],
            paragraphs: None,
        },
        TextOrParagraphAnchor::ParagraphAnchor(pa) => ActionView::ParagraphInsert {
            anchor: pa.paragraph_id,
            position: ParagraphInsertPosition::EraseAnchorIfEmpty,
            first_paragraph: NewParagraphView {
                node_id: nid.spec_paragraph_id(),
                text: seq![run],
            },
            additional_paragraphs: Seq::empty(),
        },
    }
}

/// One replica of the shared document.
#[derive(Debug)]
pub struct Client {
    pub id: u64,
    pub document: DocumentState,
    pub operations: Operations,
    pub operation_counter: Option<u64>,
}

impl Client {
    /// Validity of a client: a nonzero identity, an ordered log of
    /// well-formed actions, and a valid document.
    pub open spec fn wf(self) -> bool {
        &&& self.id != 0
        &&& self.operations.wf()
        &&& log_wf(self.operations@)
        &&& self.document@.wf()
    }

    /// Creates a fresh client with the given nonzero identity, an empty
    /// log, and the empty document.
    pub fn create(id: u64) -> (r: Self)
        requires
            id != 0,
        ensures
            r.wf(),
            r.id == id,
            r.operations@ =~= Seq::<(NodeId, ActionView)>::empty(),
            r.document@ == DocumentStateView::spec_empty(),
            r.operation_counter is None,
    {
        Self {
            id,
            document: DocumentState::empty(),
            operations: Operations::empty(),
            operation_counter: None,
        }
    }

    /// Replaces the stored selection.
    pub fn change_selection(&mut self, client_selection: ClientSelection)
        requires
            old(self).wf(),
        ensures
            final(self).wf(),
            final(self).id == old(self).id,
            final(self).operations@ == old(self).operations@,
            final(self).operation_counter == old(self).operation_counter,
            final(self).document@.paragraphs == old(self).document@.paragraphs,
            final(self).document@.client_selection == client_selection,
    {
        self.document.change_selection(client_selection);
    }

    /// Mints the next operation identifier: strictly greater than the
    /// client's counter, than every identifier keying the log, and than
    /// every identifier occurring inside the log's action payloads, and
    /// stores it as the new counter.
    pub fn next_operation_id(&mut self) -> (r: u64)
        requires
            old(self).wf(),
            spec_max_operation_id(old(self).operations@) < u64::MAX,
            match old(self).operation_counter {
                Some(c) => c < u64::MAX,
                None => true,
            },
        ensures
            final(self).wf(),
            final(self).id == old(self).id,
            final(self).operations@ == old(self).operations@,
            final(self).document@ == old(self).document@,
            r as int == spec_next_operation_value(old(self).operation_counter, old(self).operations@),
            final(self).operation_counter == Some(r),
            forall|i: int| 0 <= i < old(self).operations@.len() ==> (#[trigger] old(self).operations@[i]).0.operation_id < r,
            forall|i: int| 0 <= i < old(self).operations@.len() ==> spec_action_max_id(
                (#[trigger] old(self).operations@[i]).1,
            ) < r,
    {
        let counter_floor: u64 = match self.operation_counter {
            Some(c) => c,
            None => 0,
        };
        let log_max = self.operations.maximum_operation_id();
        let new_value = if counter_floor > log_max {
            counter_floor + 1
        } else {
            log_max + 1
        };
        self.operation_counter = Some(new_value);
        proof {
            lemma_max_operation_id_bounds(self.operations@);
        }
        new_value
    }

    /// Mints the identifier of a new node: the next operation identifier
    /// paired with this client's identity.  It strictly exceeds every
    /// identifier previously seen by this client: every identifier keying
    /// the log, and every identifier occurring inside the log's action
    /// payloads.
    pub fn new_node_id(&mut self) -> (r: NodeId)
        requires
            old(self).wf(),
            spec_max_operation_id(old(self).operations@) < u64::MAX,
            match old(self).operation_counter {
                Some(c) => c < u64::MAX,
                None => true,
            },
        ensures
            final(self).wf(),
            final(self).id == old(self).id,
            final(self).operations@ == old(self).operations@,
            final(self).document@ == old(self).document@,
            r.client_id == old(self).id,
            r.operation_id as int == spec_next_operation_value(
                old(self).operation_counter,
                old(self).operations@,
            ),
            final(self).operation_counter == Some(r.operation_id),
            forall|i: int| 0 <= i < old(self).operations@.len() ==> (#[trigger] old(self).operations@[i]).0.spec_lt(r),
            forall|i: int, k: int|
                #![trigger spec_action_ids(old(self).operations@[i].1)[k]]
                0 <= i < old(self).operations@.len() && 0 <= k < spec_action_ids(
                    old(self).operations@[i].1,
                ).len() ==> spec_action_ids(old(self).operations@[i].1)[k].spec_lt(r),
    {
        let operation_id = self.next_operation_id();
        let r = NodeId { operation_id, client_id: self.id };
        proof {
            assert forall|i: int, k: int|
                #![trigger spec_action_ids(old(self).operations@[i].1)[k]]
                0 <= i < old(self).operations@.len() && 0 <= k < spec_action_ids(
                    old(self).operations@[i].1,
                ).len() implies spec_action_ids(old(self).operations@[i].1)[k].spec_lt(r) by {
                lemma_ids_max_bounds(spec_action_ids(old(self).operations@[i].1));
            }
        }
        r
    }

    /// Applies a local edit.  With no selection nothing happens; a range
    /// selection, a paragraph break, or text too long for the offset range
    /// is refused without touching any state.  Otherwise the client mints a
    /// fresh operation for the typed text at the resolved caret, appends it
    /// to the log, re-folds the entire log, and puts the caret at the tail
    /// of the new fragment.  A fatal fold error is reported with the log
    /// keeping the new operation and the document untouched.
    pub fn add_input(&mut self, input: Input) -> (r: Result<(), ApplyError>)
        requires
            old(self).wf(),
            spec_max_operation_id(old(self).operations@) < u64::MAX,
            match old(self).operation_counter {
                Some(c) => c < u64::MAX,
                None => true,
            },
        ensures
            final(self).wf(),
            final(self).id == old(self).id,
            ({
                let sel = spec_non_tombstone_selection(old(self).document@);
                let unchanged = final(self).document@ == old(self).document@ && final(self).operations@ == old(self).operations@ && final(self).operation_counter == old(self).operation_counter;
                match input {
                    Input::ParagraphBreak => unchanged && r == Err::<(), ApplyError>(
                        ApplyError::UnsupportedAction,
                    ),
                    Input::Text(t) => match sel {
                        ClientSelection::NotSelected => unchanged && r == Ok::<(), ApplyError>(()),
                        ClientSelection::Range { .. } => unchanged && r == Err::<(), ApplyError>(
                            ApplyError::UnsupportedAction,
                        ),
                        ClientSelection::Caret(anchor) => if t@.len() > u32::MAX {
                            unchanged && r == Err::<(), ApplyError>(ApplyError::InvariantViolation)
                        } else {
                            let nid = NodeId {
                                operation_id: spec_next_operation_value(
                                    old(self).operation_counter,
                                    old(self).operations@,
                                ) as u64,
                                client_id: old(self).id,
                            };
                            let act = spec_input_action(anchor, nid, t@);
                            &&& ops_map(final(self).operations@) == ops_map(
                                old(self).operations@,
                            ).insert(nid, act)
                            &&& final(self).operation_counter == Some(nid.operation_id)
                            &&& ({
                                let fold = spec_fold_from(
                                    DocumentStateView::spec_empty(),
                                    final(self).operations@,
                                    final(self).operations@,
                                );
                                match fold.1 {
                                    None => r == Ok::<(), ApplyError>(()) && final(self).document@.paragraphs == fold.0.paragraphs && final(self).document@.client_selection == ClientSelection::Caret(
                                        TextOrParagraphAnchor::TextAnchor(
                                            TextAnchor { at_node: nid, at_index: None },
                                        ),
                                    ),
                                    Some(e) => r == Err::<(), ApplyError>(e) && final(self).document@ == old(self).document@,
                                }
                            })
                        },
                    },
                }
            }),
    {
        match input {
            Input::ParagraphBreak => Err(ApplyError::UnsupportedAction),
            Input::Text(text) => {
                let sel = self.document.get_non_tombstone_selection();
                match sel {
                    ClientSelection::NotSelected => Ok(()),
                    ClientSelection::Range { .. } => Err(ApplyError::UnsupportedAction),
                    ClientSelection::Caret(anchor) => {
                        if text.as_str().unicode_len() > u32::MAX as usize {
                            return Err(ApplyError::InvariantViolation);
                        }
                        let ghost text_v = text@;
                        let node_id = self.new_node_id();
                        let format = TextFormatChange { values_to_set: 0, value: 0 };
                        let ghost run_v = PartiallyFormattedTextView {
                            node_id,
                            text: text_v,
                            format: TextFormatChange { values_to_set: 0, value: 0 },
                        };
                        let operation = match &anchor {
                            TextOrParagraphAnchor::TextAnchor(a) => {
                                let before_paragraphs = vec![
                                    PartiallyFormattedText { node_id, text, format },
                                ];
                                proof {
                                    assert(before_paragraphs.deep_view() =~= seq![run_v]);
                                }
                                Action::Insert {
                                    anchor: *a,
                                    before_paragraphs,
                                    paragraphs: None,
                                }
                            },
                            TextOrParagraphAnchor::ParagraphAnchor(pa) => {
                                let runs = vec![PartiallyFormattedText { node_id, text, format }];
                                proof {
                                    assert(runs.deep_view() =~= seq![run_v]);
                                }
                                Action::ParagraphInsert {
                                    anchor: pa.paragraph_id,
                                    position: ParagraphInsertPosition::EraseAnchorIfEmpty,
                                    first_paragraph: NewParagraph {
                                        node_id: ParagraphId::from_node_id(&node_id),
                                        text: runs,
                                    },
                                    additional_paragraphs: Vec::new(),
                                }
                            },
                        };
                        proof {
                            assert(operation@ =~~= spec_input_action(anchor, node_id, text_v));
                            assert(action_wf(operation@));
                        }
                        let ghost ops_before = self.operations@;
                        self.operations.add_or_replace_node(node_id, operation);
                        proof {
                            assert forall|i: int| 0 <= i < self.operations@.len() implies action_wf(
                                (#[trigger] self.operations@[i]).1,
                            ) by {
                                if self.operations@[i] != (node_id, operation@) {
                                    let j = choose|j: int|
                                        0 <= j < ops_before.len() && ops_before[j]
                                            == self.operations@[i];
                                    assert(action_wf(ops_before[j].1));
                                }
                            }
                        }
                        let mut new_document = DocumentState::empty();
                        let fold_result = new_document.apply_operations(&self.operations);
                        match fold_result {
                            Ok(()) => {
                                new_document.change_selection(
                                    ClientSelection::Caret(
                                        TextOrParagraphAnchor::TextAnchor(
                                            TextAnchor { at_node: node_id, at_index: None },
                                        ),
                                    ),
                                );
                                self.document = new_document;
                                Ok(())
                            },
                            Err(e) => Err(e),
                        }
                    },
                }
            },
        }
    }

    /// Takes an operation from another replica into the log and re-folds
    /// the document, keeping the stored selection.  Actions whose semantics
    /// are not shipped, actions carrying text too long for the offset
    /// range, and actions whose minted identifiers are duplicated or
    /// collide with identifiers minted by a different operation of the log
    /// are refused without touching any state.  A fatal fold error is
    /// reported with the log keeping the operation and the document
    /// untouched.
    pub fn ingest_remote(&mut self, op_id: NodeId, action: Action) -> (r: Result<(), ApplyError>)
        requires
            old(self).wf(),
        ensures
            final(self).wf(),
            final(self).id == old(self).id,
            final(self).operation_counter == old(self).operation_counter,
            if !spec_action_shipped(action@) {
                r == Err::<(), ApplyError>(ApplyError::UnsupportedAction) && final(self).operations@
                    == old(self).operations@ && final(self).document@ == old(self).document@
            } else if !action_wf(action@) || !spec_minted_fresh(
                old(self).operations@,
                op_id,
                action@,
            ) {
                r == Err::<(), ApplyError>(ApplyError::InvariantViolation) && final(self).operations@
                    == old(self).operations@ && final(self).document@ == old(self).document@
            } else {
                &&& ops_map(final(self).operations@) == ops_map(old(self).operations@).insert(
                    op_id,
                    action@,
                )
                &&& ({
                    let fold = spec_fold_from(
                        DocumentStateView::spec_empty(),
                        final(self).operations@,
                        final(self).operations@,
                    );
                    match fold.1 {
                        None => r == Ok::<(), ApplyError>(()) && final(self).document@.paragraphs
                            == fold.0.paragraphs && final(self).document@.client_selection
                            == old(self).document@.client_selection,
                        Some(e) => r == Err::<(), ApplyError>(e) && final(self).document@
                            == old(self).document@,
                    }
                })
            },
    {
        if !check_action_shipped(&action) {
            return Err(ApplyError::UnsupportedAction);
        }
        if !check_action_wf(&action) {
            return Err(ApplyError::InvariantViolation);
        }
        if !check_minted_fresh(&self.operations, &op_id, &action) {
            return Err(ApplyError::InvariantViolation);
        }
        let ghost ops_before = self.operations@;
        let ghost action_v = action@;
        self.operations.add_or_replace_node(op_id, action);
        proof {
            assert forall|i: int| 0 <= i < self.operations@.len() implies action_wf(
                (#[trigger] self.operations@[i]).1,
            ) by {
                if self.operations@[i] != (op_id, action_v) {
                    let j = choose|j: int|
                        0 <= j < ops_before.len() && ops_before[j] == self.operations@[i];
                    assert(action_wf(ops_before[j].1));
                }
            }
        }
        let mut new_document = DocumentState::empty();
        let fold_result = new_document.apply_operations(&self.operations);
        match fold_result {
            Ok(()) => {
                let current_selection = match &self.document.client_selection {
                    ClientSelection::NotSelected => ClientSelection::NotSelected,
                    ClientSelection::Caret(a) => ClientSelection::Caret(*a),
                    ClientSelection::Range { begin, end } => ClientSelection::Range {
                        begin: *begin,
                        end: *end,
                    },
                };
                new_document.change_selection(current_selection);
                self.document = new_document;
                Ok(())
            },
            Err(e) => Err(e),
        }
    }

    /// Projects the stored selection onto live content.
    pub fn get_non_tombstone_selection(&self) -> (r: ClientSelection)
        requires
            self.wf(),
        ensures
            r == spec_non_tombstone_selection(self.document@),
    {
        self.document.get_non_tombstone_selection()
    }

    /// Folds the entire log into a fresh document and renders it.  A fold
    /// stopped by a fatal error renders what was folded up to it.
    pub fn get_rendered_document(&self) -> (r: RenderedDocument)
        requires
            self.wf(),
        ensures
            r@ == spec_render_from(
                spec_fold_from(
                    DocumentStateView::spec_empty(),
                    self.operations@,
                    self.operations@,
                ).0,
                0,
            ),
            rendered_doc_wf(r@),
    {
        let mut doc_state = DocumentState::empty();
        let fold_result = doc_state.apply_operations(&self.operations);
        match fold_result {
            Ok(()) => {},
            Err(_) => {},
        }
        proof {
            crate::render::lemma_render_wf(doc_state@, 0);
        }
        doc_state.render()
    }
}

} // verus!
