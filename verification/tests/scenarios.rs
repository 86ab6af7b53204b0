use coedit::anchor::{
    origin_caret, ClientSelection, ParagraphAnchor, ParagraphAnchorRelativity, TextAnchor,
    TextOrParagraphAnchor,
};
use coedit::client::{Client, Input};
use coedit::fold::ApplyError;
use coedit::format::{PartiallyFormattedText, TextFormatChange};
use coedit::ids::{NodeId, ParagraphId};
use coedit::ops::{Action, ParagraphInsertPosition};
use coedit::paragraph::{NewParagraph, ParagraphNode};
use coedit::printer::print;

fn nid(operation_id: u64, client_id: u64) -> NodeId {
    NodeId {
        operation_id,
        client_id,
    }
}

fn pid(operation_id: u64, client_id: u64) -> ParagraphId {
    ParagraphId {
        operation_id,
        client_id,
    }
}

fn run(node: NodeId, text: &str) -> PartiallyFormattedText {
    PartiallyFormattedText {
        node_id: node,
        text: text.to_string(),
        format: TextFormatChange {
            values_to_set: 0,
            value: 0,
        },
    }
}

fn paragraph_insert_at_origin(node: NodeId, text: &str) -> Action {
    Action::ParagraphInsert {
        anchor: pid(0, 0),
        position: ParagraphInsertPosition::EraseAnchorIfEmpty,
        first_paragraph: NewParagraph {
            node_id: ParagraphId::from_node_id(&node),
            text: vec![run(node, text)],
        },
        additional_paragraphs: Vec::new(),
    }
}

fn text_insert(anchor_node: NodeId, at_index: Option<u32>, node: NodeId, text: &str) -> Action {
    Action::Insert {
        anchor: TextAnchor {
            at_node: anchor_node,
            at_index,
        },
        before_paragraphs: vec![run(node, text)],
        paragraphs: None,
    }
}

#[test]
fn s1_empty_origin_caret() {
    let mut client = Client::create(3);
    client.change_selection(origin_caret());
    assert_eq!(print(&client), "|");
}

#[test]
fn s2_single_insert() {
    let mut client = Client::create(3);
    client.change_selection(origin_caret());
    client.add_input(Input::Text("test text".to_string())).unwrap();
    assert_eq!(print(&client), "test text|");
    match client.get_non_tombstone_selection() {
        ClientSelection::Caret(TextOrParagraphAnchor::TextAnchor(a)) => {
            assert_eq!(a.at_node, nid(1, 3));
            assert!(a.at_index.is_none());
        }
        other => panic!("unexpected selection {:?}", other),
    }
}

#[test]
fn s3_concurrent_independent_insert() {
    let mut client2 = Client::create(2);
    let mut client3 = Client::create(3);
    client2.change_selection(origin_caret());
    client3.change_selection(origin_caret());
    client2.add_input(Input::Text("a".to_string())).unwrap();
    client3.add_input(Input::Text("b".to_string())).unwrap();
    let (id2, op2) = client2.operations.ordered_ops[0].clone();
    let (id3, op3) = client3.operations.ordered_ops[0].clone();
    client2.ingest_remote(id3, op3).unwrap();
    client3.ingest_remote(id2, op2).unwrap();
    let text2 = client2.get_rendered_document().to_text();
    let text3 = client3.get_rendered_document().to_text();
    assert_eq!(text2, text3);
    // (1, 2) < (1, 3), so client 2's insert wins the anchor-adjacent slot:
    // the document reads "a" then "b".
    assert_eq!(text2, "a\rb");
}

#[test]
fn s4_mid_fragment_insert() {
    let mut client = Client::create(3);
    client.change_selection(origin_caret());
    client.add_input(Input::Text("test text".to_string())).unwrap();
    client.change_selection(ClientSelection::Caret(TextOrParagraphAnchor::TextAnchor(
        TextAnchor {
            at_node: nid(1, 3),
            at_index: Some(4),
        },
    )));
    client.add_input(Input::Text("ed".to_string())).unwrap();
    // "test" + "ed|" + " text": the original fragment split at offset 4.
    assert_eq!(print(&client), "tested| text");
}

#[test]
fn s5_empty_paragraph_typing_after_concurrent_paragraph_insert() {
    let mut client = Client::create(3);
    let empty_paragraph = Action::ParagraphInsert {
        anchor: pid(0, 0),
        position: ParagraphInsertPosition::EraseAnchorIfEmpty,
        first_paragraph: NewParagraph {
            node_id: pid(1, 2),
            text: Vec::new(),
        },
        additional_paragraphs: Vec::new(),
    };
    client.ingest_remote(nid(1, 2), empty_paragraph).unwrap();
    client.change_selection(ClientSelection::Caret(
        TextOrParagraphAnchor::ParagraphAnchor(ParagraphAnchor {
            paragraph_id: pid(1, 2),
            paragraph_anchor_relativity: ParagraphAnchorRelativity::AtBeginning,
        }),
    ));
    client.add_input(Input::Text("hi".to_string())).unwrap();
    // The origin is tombstoned, so the render has no leading separator.
    assert_eq!(print(&client), "hi|");
    assert!(matches!(
        client.document.paragraphs[0],
        ParagraphNode::ParagraphTombstone(_)
    ));
}

#[test]
fn s6_convergence_with_permuted_delivery() {
    let a = (nid(1, 2), paragraph_insert_at_origin(nid(1, 2), "a"));
    let b = (nid(1, 3), text_insert(nid(1, 2), None, nid(1, 3), "b"));
    let c = (nid(2, 2), text_insert(nid(1, 2), Some(0), nid(2, 2), "c"));
    let orders: Vec<Vec<&(NodeId, Action)>> = vec![
        vec![&a, &b, &c],
        vec![&a, &c, &b],
        vec![&b, &a, &c],
        vec![&b, &c, &a],
        vec![&c, &a, &b],
        vec![&c, &b, &a],
    ];
    let mut outputs: Vec<String> = Vec::new();
    for order in orders {
        let mut client = Client::create(9);
        for (id, op) in order {
            client.ingest_remote(*id, op.clone()).unwrap();
        }
        outputs.push(print(&client));
    }
    for output in &outputs {
        assert_eq!(output, &outputs[0]);
    }
    assert_eq!(outputs[0], "cab");
}

#[test]
fn idempotent_redelivery_is_a_no_op() {
    let mut client = Client::create(5);
    let op = paragraph_insert_at_origin(nid(1, 2), "once");
    client.ingest_remote(nid(1, 2), op.clone()).unwrap();
    let before = client.get_rendered_document().to_text();
    client.ingest_remote(nid(1, 2), op).unwrap();
    let after = client.get_rendered_document().to_text();
    assert_eq!(before, after);
    assert_eq!(after, "once");
    assert_eq!(client.operations.ordered_ops.len(), 1);
}

#[test]
fn causally_early_delivery_defers_then_applies() {
    let base = (nid(1, 2), paragraph_insert_at_origin(nid(1, 2), "x"));
    let dependent = (nid(2, 3), text_insert(nid(1, 2), None, nid(2, 3), "y"));

    // Dependent first: it defers until the operation it references arrives.
    let mut early = Client::create(7);
    early.ingest_remote(dependent.0, dependent.1.clone()).unwrap();
    assert_eq!(early.get_rendered_document().to_text(), "");
    early.ingest_remote(base.0, base.1.clone()).unwrap();

    // Causal order on a second replica.
    let mut late = Client::create(8);
    late.ingest_remote(base.0, base.1).unwrap();
    late.ingest_remote(dependent.0, dependent.1).unwrap();

    assert_eq!(
        early.get_rendered_document().to_text(),
        late.get_rendered_document().to_text()
    );
    assert_eq!(late.get_rendered_document().to_text(), "xy");
}

#[test]
fn tail_inserts_order_ascending_by_operation_id() {
    // Two concurrent insertions at the same tail anchor land in ascending
    // identifier order: the earlier one stays adjacent to the anchor.
    let a = (nid(1, 2), paragraph_insert_at_origin(nid(1, 2), "x"));
    let b = (nid(1, 3), text_insert(nid(1, 2), None, nid(1, 3), "y"));
    let c = (nid(2, 2), text_insert(nid(1, 2), None, nid(2, 2), "z"));
    let mut client = Client::create(9);
    client.ingest_remote(a.0, a.1).unwrap();
    client.ingest_remote(c.0, c.1).unwrap();
    client.ingest_remote(b.0, b.1).unwrap();
    assert_eq!(client.get_rendered_document().to_text(), "xyz");
}

#[test]
fn minted_identifiers_strictly_increase() {
    let mut client = Client::create(3);
    let remote = paragraph_insert_at_origin(nid(7, 9), "r");
    client.ingest_remote(nid(7, 9), remote).unwrap();
    let first = client.next_operation_id();
    assert_eq!(first, 8);
    let second = client.next_operation_id();
    assert_eq!(second, 9);
    let minted = client.new_node_id();
    assert_eq!(minted.operation_id, 10);
    assert_eq!(minted.client_id, 3);
}

#[test]
fn minted_identifiers_exceed_payload_identifiers() {
    // An ingested operation keyed (1, 2) pre-assigns paragraph and run
    // identifiers with operation_id 9; the next minted identifier must
    // exceed every identifier seen, payloads included.
    let mut client = Client::create(3);
    let op = Action::ParagraphInsert {
        anchor: pid(0, 0),
        position: ParagraphInsertPosition::EraseAnchorIfEmpty,
        first_paragraph: NewParagraph {
            node_id: pid(1, 2),
            text: vec![run(nid(1, 2), "a")],
        },
        additional_paragraphs: vec![(
            pid(9, 2),
            NewParagraph {
                node_id: pid(9, 2),
                text: vec![run(nid(9, 2), "b")],
            },
        )],
    };
    client.ingest_remote(nid(1, 2), op).unwrap();
    assert_eq!(client.operations.maximum_operation_id(), 9);
    let minted = client.new_node_id();
    assert_eq!(minted.operation_id, 10);
}

#[test]
fn selection_liveness_after_fold() {
    // Typing tombstones the origin; the stored caret still projects onto
    // live content.
    let mut client = Client::create(3);
    client.change_selection(origin_caret());
    client.add_input(Input::Text("live".to_string())).unwrap();
    match client.get_non_tombstone_selection() {
        ClientSelection::Caret(TextOrParagraphAnchor::TextAnchor(a)) => {
            assert_eq!(a.at_node, nid(1, 3));
        }
        other => panic!("unexpected selection {:?}", other),
    }
}

#[test]
fn paragraph_break_is_refused() {
    let mut client = Client::create(3);
    client.change_selection(origin_caret());
    assert_eq!(
        client.add_input(Input::ParagraphBreak),
        Err(ApplyError::UnsupportedAction)
    );
    assert_eq!(print(&client), "|");
}

#[test]
fn unshipped_action_is_refused() {
    let mut client = Client::create(3);
    let erase = Action::Erase {
        begin_anchor: TextAnchor {
            at_node: nid(1, 2),
            at_index: Some(0),
        },
        end_anchor: TextAnchor {
            at_node: nid(1, 2),
            at_index: None,
        },
        known_splices: Vec::new(),
    };
    assert_eq!(
        client.ingest_remote(nid(5, 5), erase),
        Err(ApplyError::UnsupportedAction)
    );
    assert_eq!(client.operations.ordered_ops.len(), 0);
}

#[test]
fn malformed_anchor_is_fatal() {
    let mut client = Client::create(3);
    let base = paragraph_insert_at_origin(nid(1, 2), "a");
    client.ingest_remote(nid(1, 2), base).unwrap();
    // The insertion "a" spans offsets [0, 1]; index 5 lies outside it.
    let out_of_range = text_insert(nid(1, 2), Some(5), nid(2, 3), "bad");
    assert_eq!(
        client.ingest_remote(nid(2, 3), out_of_range),
        Err(ApplyError::AnchorOutOfRange)
    );
    assert_eq!(client.get_rendered_document().to_text(), "a");
}

#[test]
fn additional_paragraphs_apply_with_pre_assigned_ids() {
    let mut client = Client::create(3);
    let op = Action::ParagraphInsert {
        anchor: pid(0, 0),
        position: ParagraphInsertPosition::EraseAnchorIfEmpty,
        first_paragraph: NewParagraph {
            node_id: pid(1, 2),
            text: vec![run(nid(1, 2), "first")],
        },
        additional_paragraphs: vec![
            (
                pid(2, 2),
                NewParagraph {
                    node_id: pid(2, 2),
                    text: vec![run(nid(2, 2), "second")],
                },
            ),
            (
                pid(3, 2),
                NewParagraph {
                    node_id: pid(3, 2),
                    text: vec![run(nid(3, 2), "third")],
                },
            ),
        ],
    };
    client.ingest_remote(nid(1, 2), op).unwrap();
    assert_eq!(client.get_rendered_document().to_text(), "first\rsecond\rthird");
    let doc = client.get_rendered_document();
    assert_eq!(doc.paragraphs[0].paragraph_id, pid(1, 2));
    assert_eq!(doc.paragraphs[1].paragraph_id, pid(2, 2));
    assert_eq!(doc.paragraphs[2].paragraph_id, pid(3, 2));
}

#[test]
fn colliding_minted_identifiers_are_refused() {
    let mut client = Client::create(3);
    client
        .ingest_remote(nid(1, 2), paragraph_insert_at_origin(nid(1, 2), "a"))
        .unwrap();
    // A different operation minting the already-minted node (1, 2) is
    // refused; so is an operation minting one identifier twice.
    let duplicate_across = paragraph_insert_at_origin(nid(1, 2), "b");
    assert_eq!(
        client.ingest_remote(nid(2, 2), duplicate_across),
        Err(ApplyError::InvariantViolation)
    );
    let duplicate_within = Action::Insert {
        anchor: TextAnchor {
            at_node: nid(1, 2),
            at_index: None,
        },
        before_paragraphs: vec![run(nid(3, 2), "x"), run(nid(3, 2), "y")],
        paragraphs: None,
    };
    assert_eq!(
        client.ingest_remote(nid(3, 2), duplicate_within),
        Err(ApplyError::InvariantViolation)
    );
    // Re-delivering the same operation under its own identifier stays
    // accepted.
    assert_eq!(
        client.ingest_remote(nid(1, 2), paragraph_insert_at_origin(nid(1, 2), "a")),
        Ok(())
    );
    assert_eq!(client.get_rendered_document().to_text(), "a");
}

#[test]
fn zero_length_fragment_counts_as_empty() {
    // A paragraph holding one zero-length live fragment has no live
    // characters, so typing at it tombstones it.
    let mut client = Client::create(3);
    let empty_text_paragraph = Action::ParagraphInsert {
        anchor: pid(0, 0),
        position: ParagraphInsertPosition::EraseAnchorIfEmpty,
        first_paragraph: NewParagraph {
            node_id: pid(1, 2),
            text: vec![run(nid(1, 2), "")],
        },
        additional_paragraphs: Vec::new(),
    };
    client.ingest_remote(nid(1, 2), empty_text_paragraph).unwrap();
    client.change_selection(ClientSelection::Caret(
        TextOrParagraphAnchor::ParagraphAnchor(ParagraphAnchor {
            paragraph_id: pid(1, 2),
            paragraph_anchor_relativity: ParagraphAnchorRelativity::AtBeginning,
        }),
    ));
    client.add_input(Input::Text("hi".to_string())).unwrap();
    assert!(matches!(
        client.document.paragraphs[1],
        ParagraphNode::ParagraphTombstone(_)
    ));
    assert_eq!(client.get_rendered_document().to_text(), "hi");
}

#[test]
fn typing_without_selection_does_nothing() {
    let mut client = Client::create(3);
    assert_eq!(client.add_input(Input::Text("x".to_string())), Ok(()));
    assert_eq!(client.get_rendered_document().to_text(), "");
}
