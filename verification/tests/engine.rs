use coedit::anchor::{
    ClientSelection, ParagraphAnchor, ParagraphAnchorRelativity, TextAnchor, TextOrParagraphAnchor,
};
use coedit::client::{Client, Input};
use coedit::doc::DocumentState;
use coedit::format::{PartiallyFormattedText, TextFormat, TextFormatChange};
use coedit::ids::{NodeId, ParagraphId};
use coedit::iter::{DocumentStateIter, DocumentStateMutIter, ParagraphOrTextNode};
use coedit::node::{RelativePosition, TextNode};
use coedit::ops::{Action, Operations, ParagraphInsertPosition};
use coedit::paragraph::{NewParagraph, Paragraph, ParagraphNode};
use coedit::printer::{print, Cursor, RangePrinter};

fn nid(operation_id: u64, client_id: u64) -> NodeId {
    NodeId {
        operation_id,
        client_id,
    }
}

fn text_node(node: NodeId, offset: u32, offset_after: Option<u32>, text: &str) -> TextNode {
    TextNode::Text {
        node,
        offset,
        offset_after,
        text: text.to_string(),
    }
}

fn run(node: NodeId, text: &str) -> PartiallyFormattedText {
    PartiallyFormattedText {
        node_id: node,
        text: text.to_string(),
        format: TextFormatChange {
            values_to_set: 0,
            value: 0,
        },
    }
}

#[test]
fn relative_position_of_gaps() {
    let t = text_node(nid(1, 1), 4, None, "abcde");
    assert!(matches!(t.relative_positon(Some(3)), RelativePosition::Before));
    assert!(matches!(t.relative_positon(Some(4)), RelativePosition::AtBeginning));
    assert!(matches!(t.relative_positon(Some(6)), RelativePosition::Middle));
    assert!(matches!(t.relative_positon(Some(9)), RelativePosition::AtEnd));
    assert!(matches!(t.relative_positon(Some(10)), RelativePosition::After));
    assert!(matches!(t.relative_positon(None), RelativePosition::AtEnd));
    let split = text_node(nid(1, 1), 0, Some(2), "ab");
    assert!(matches!(split.relative_positon(None), RelativePosition::After));
    assert!(matches!(split.relative_positon(Some(2)), RelativePosition::AtEnd));
}

#[test]
fn contains_respects_node_and_span() {
    let t = text_node(nid(1, 1), 0, None, "abc");
    assert!(t.contains(&TextAnchor {
        at_node: nid(1, 1),
        at_index: Some(0),
    }));
    assert!(t.contains(&TextAnchor {
        at_node: nid(1, 1),
        at_index: Some(3),
    }));
    assert!(t.contains(&TextAnchor {
        at_node: nid(1, 1),
        at_index: None,
    }));
    assert!(!t.contains(&TextAnchor {
        at_node: nid(1, 1),
        at_index: Some(4),
    }));
    assert!(!t.contains(&TextAnchor {
        at_node: nid(2, 1),
        at_index: Some(0),
    }));
}

#[test]
fn split_at_partitions_the_span() {
    let t = text_node(nid(1, 1), 0, None, "test text");
    let (front, back) = t.split_at(4);
    match front {
        TextNode::Text {
            node,
            offset,
            offset_after,
            text,
        } => {
            assert_eq!(node, nid(1, 1));
            assert_eq!(offset, 0);
            assert_eq!(offset_after, Some(4));
            assert_eq!(text, "test");
        }
        other => panic!("unexpected node {:?}", other),
    }
    match back {
        TextNode::Text {
            node,
            offset,
            offset_after,
            text,
        } => {
            assert_eq!(node, nid(1, 1));
            assert_eq!(offset, 4);
            assert_eq!(offset_after, None);
            assert_eq!(text, " text");
        }
        other => panic!("unexpected node {:?}", other),
    }
}

#[test]
fn split_at_boundaries_leave_an_empty_half() {
    let t = text_node(nid(1, 1), 0, None, "ab");
    let (front, back) = t.split_at(0);
    match front {
        TextNode::Text {
            offset,
            offset_after,
            text,
            ..
        } => {
            assert_eq!(offset, 0);
            assert_eq!(offset_after, Some(0));
            assert_eq!(text, "");
        }
        other => panic!("unexpected node {:?}", other),
    }
    match back {
        TextNode::Text {
            offset,
            offset_after,
            text,
            ..
        } => {
            assert_eq!(offset, 0);
            assert_eq!(offset_after, None);
            assert_eq!(text, "ab");
        }
        other => panic!("unexpected node {:?}", other),
    }
    let t2 = text_node(nid(1, 1), 0, None, "ab");
    let (front2, back2) = t2.split_at(2);
    match front2 {
        TextNode::Text {
            offset_after, text, ..
        } => {
            assert_eq!(offset_after, Some(2));
            assert_eq!(text, "ab");
        }
        other => panic!("unexpected node {:?}", other),
    }
    match back2 {
        TextNode::Text {
            offset,
            offset_after,
            text,
            ..
        } => {
            assert_eq!(offset, 2);
            assert_eq!(offset_after, None);
            assert_eq!(text, "");
        }
        other => panic!("unexpected node {:?}", other),
    }
}

#[test]
fn split_tombstone_partitions_the_length() {
    let t = TextNode::Tombstone {
        node: nid(1, 1),
        offset: 2,
        offset_after: Some(8),
        length: 6,
    };
    let (front, back) = t.split_at(5);
    match front {
        TextNode::Tombstone {
            offset,
            offset_after,
            length,
            ..
        } => {
            assert_eq!(offset, 2);
            assert_eq!(offset_after, Some(5));
            assert_eq!(length, 3);
        }
        other => panic!("unexpected node {:?}", other),
    }
    match back {
        TextNode::Tombstone {
            offset,
            offset_after,
            length,
            ..
        } => {
            assert_eq!(offset, 5);
            assert_eq!(offset_after, Some(8));
            assert_eq!(length, 3);
        }
        other => panic!("unexpected node {:?}", other),
    }
}

#[test]
fn from_partially_formatted_is_one_complete_fragment() {
    let nodes = TextNode::from_partially_formatted(&run(nid(3, 1), "hello"));
    assert_eq!(nodes.len(), 1);
    match &nodes[0] {
        TextNode::Text {
            node,
            offset,
            offset_after,
            text,
        } => {
            assert_eq!(*node, nid(3, 1));
            assert_eq!(*offset, 0);
            assert!(offset_after.is_none());
            assert_eq!(text, "hello");
        }
        other => panic!("unexpected node {:?}", other),
    }
}

#[test]
fn paragraph_emptiness_ignores_tombstones_and_markers() {
    let empty = Paragraph {
        paragraph_id: ParagraphId {
            operation_id: 1,
            client_id: 1,
        },
        contents: vec![
            TextNode::Tombstone {
                node: nid(1, 1),
                offset: 0,
                offset_after: None,
                length: 3,
            },
            TextNode::FormatChange(TextFormatChange {
                values_to_set: 1,
                value: 1,
            }),
        ],
    };
    assert!(empty.is_empty());
    let full = Paragraph::from_new_paragraph(&NewParagraph {
        node_id: ParagraphId {
            operation_id: 2,
            client_id: 1,
        },
        text: vec![run(nid(2, 1), "x")],
    });
    assert!(!full.is_empty());
    let tomb = full.to_tombstone();
    assert_eq!(
        tomb.paragraph_id,
        ParagraphId {
            operation_id: 2,
            client_id: 1
        }
    );
    assert_eq!(tomb.contents.len(), 1);
}

#[test]
fn origin_paragraph_is_live_and_empty() {
    let origin = Paragraph::origin();
    assert_eq!(origin.paragraph_id, ParagraphId::origin_id());
    assert!(origin.contents.is_empty());
    let doc = DocumentState::empty();
    assert_eq!(doc.paragraphs.len(), 1);
    assert_eq!(*doc.paragraphs[0].paragraph_id(), ParagraphId::origin_id());
    assert!(!doc.paragraphs[0].is_tombstone());
}

fn two_paragraph_doc() -> DocumentState {
    let mut doc = DocumentState::empty();
    doc.paragraphs[0] = ParagraphNode::Paragraph(Paragraph {
        paragraph_id: ParagraphId::origin_id(),
        contents: vec![
            text_node(nid(1, 1), 0, Some(2), "ab"),
            TextNode::Tombstone {
                node: nid(1, 1),
                offset: 2,
                offset_after: None,
                length: 2,
            },
        ],
    });
    doc.paragraphs.push(ParagraphNode::Paragraph(Paragraph {
        paragraph_id: ParagraphId {
            operation_id: 2,
            client_id: 1,
        },
        contents: vec![text_node(nid(3, 1), 0, None, "cd")],
    }));
    doc
}

#[test]
fn iteration_walks_paragraphs_then_nodes() {
    let doc = two_paragraph_doc();
    let mut it = doc.iter();
    assert!(matches!(
        it.current(&doc),
        Some(ParagraphOrTextNode::Paragraph { tombstone: false, .. })
    ));
    it.next(&doc);
    assert!(matches!(it.current(&doc), Some(ParagraphOrTextNode::Text { .. })));
    it.next(&doc);
    assert!(matches!(
        it.current(&doc),
        Some(ParagraphOrTextNode::Tombstone { .. })
    ));
    it.next(&doc);
    assert!(matches!(
        it.current(&doc),
        Some(ParagraphOrTextNode::Paragraph { .. })
    ));
    it.prev(&doc);
    assert!(matches!(
        it.current(&doc),
        Some(ParagraphOrTextNode::Tombstone { .. })
    ));
    it.next(&doc);
    it.next(&doc);
    it.next(&doc);
    assert!(it.current(&doc).is_none());
}

#[test]
fn skip_tombstone_moves_to_live_entries() {
    let doc = two_paragraph_doc();
    // Start on the tombstone inside the origin paragraph.
    let mut back = DocumentStateIter {
        paragraph_index: 0,
        text_node_index: Some(1),
    };
    back.skip_tombstone_decr(&doc);
    match back.current(&doc) {
        Some(ParagraphOrTextNode::Text { node, .. }) => assert_eq!(node, nid(1, 1)),
        other => panic!("unexpected entry {:?}", other),
    }
    let mut fwd = DocumentStateIter {
        paragraph_index: 0,
        text_node_index: Some(1),
    };
    fwd.skip_tombstone_incr(&doc);
    match fwd.current(&doc) {
        Some(ParagraphOrTextNode::Paragraph { paragraph_id, .. }) => {
            assert_eq!(paragraph_id.operation_id, 2)
        }
        other => panic!("unexpected entry {:?}", other),
    }
}

#[test]
fn find_resolves_anchors_into_tombstones() {
    let doc = two_paragraph_doc();
    let it = doc
        .find(&TextOrParagraphAnchor::TextAnchor(TextAnchor {
            at_node: nid(1, 1),
            at_index: Some(3),
        }))
        .unwrap();
    assert_eq!(it.paragraph_index, 0);
    assert_eq!(it.text_node_index, Some(1));
    let pos = doc.find_text_node(&nid(3, 1)).unwrap();
    assert_eq!(pos.paragraph_index, 1);
    assert_eq!(pos.text_node_index, 0);
    assert!(doc.find_text_node(&nid(9, 9)).is_none());
    let pit = doc
        .find(&TextOrParagraphAnchor::ParagraphAnchor(ParagraphAnchor {
            paragraph_id: ParagraphId {
                operation_id: 2,
                client_id: 1,
            },
            paragraph_anchor_relativity: ParagraphAnchorRelativity::AtBeginning,
        }))
        .unwrap();
    assert_eq!(pit.paragraph_index, 1);
    assert_eq!(pit.text_node_index, None);
}

#[test]
fn resolver_keeps_anchor_with_live_target() {
    let mut doc = two_paragraph_doc();
    // The caret's gap lies inside the live fragment of node (1, 1), so the
    // stored anchor is kept as it is.
    doc.change_selection(ClientSelection::Caret(TextOrParagraphAnchor::TextAnchor(
        TextAnchor {
            at_node: nid(1, 1),
            at_index: Some(1),
        },
    )));
    match doc.get_non_tombstone_selection() {
        ClientSelection::Caret(TextOrParagraphAnchor::TextAnchor(a)) => {
            assert_eq!(a.at_node, nid(1, 1));
            assert_eq!(a.at_index, Some(1));
        }
        other => panic!("unexpected selection {:?}", other),
    }
}

#[test]
fn resolver_moves_anchor_out_of_erased_tail() {
    let mut doc = two_paragraph_doc();
    // The caret is anchored into the erased tail of node (1, 1); the walk
    // backwards adopts the live fragment's end, even though it belongs to
    // the same insertion.
    doc.change_selection(ClientSelection::Caret(TextOrParagraphAnchor::TextAnchor(
        TextAnchor {
            at_node: nid(1, 1),
            at_index: Some(3),
        },
    )));
    match doc.get_non_tombstone_selection() {
        ClientSelection::Caret(TextOrParagraphAnchor::TextAnchor(a)) => {
            assert_eq!(a.at_node, nid(1, 1));
            assert_eq!(a.at_index, Some(2));
        }
        other => panic!("unexpected selection {:?}", other),
    }
}

#[test]
fn resolver_adopts_following_live_entry_with_beginning_form() {
    let mut doc = DocumentState::empty();
    doc.paragraphs[0] = ParagraphNode::ParagraphTombstone(coedit::paragraph::ParagraphTombstone {
        paragraph_id: ParagraphId::origin_id(),
        contents: Vec::new(),
    });
    doc.paragraphs.push(ParagraphNode::Paragraph(Paragraph {
        paragraph_id: ParagraphId {
            operation_id: 2,
            client_id: 1,
        },
        contents: vec![text_node(nid(3, 1), 0, None, "cd")],
    }));
    // Everything at and before the caret is tombstoned; the forward walk
    // adopts the first live entry with a beginning-form anchor.
    doc.change_selection(ClientSelection::Caret(
        TextOrParagraphAnchor::ParagraphAnchor(ParagraphAnchor {
            paragraph_id: ParagraphId::origin_id(),
            paragraph_anchor_relativity: ParagraphAnchorRelativity::AtBeginning,
        }),
    ));
    match doc.get_non_tombstone_selection() {
        ClientSelection::Caret(TextOrParagraphAnchor::ParagraphAnchor(a)) => {
            assert_eq!(
                a.paragraph_id,
                ParagraphId {
                    operation_id: 2,
                    client_id: 1
                }
            );
            assert_eq!(
                a.paragraph_anchor_relativity,
                ParagraphAnchorRelativity::AtBeginning
            );
        }
        other => panic!("unexpected selection {:?}", other),
    }
}

#[test]
fn resolver_resolves_range_boundaries() {
    let mut doc = two_paragraph_doc();
    // The range's begin gap lies in live content and is kept; its end gap
    // lies in the erased tail and adopts the live fragment's end.
    doc.change_selection(ClientSelection::Range {
        begin: TextOrParagraphAnchor::TextAnchor(TextAnchor {
            at_node: nid(1, 1),
            at_index: Some(0),
        }),
        end: TextOrParagraphAnchor::TextAnchor(TextAnchor {
            at_node: nid(1, 1),
            at_index: Some(4),
        }),
    });
    match doc.get_non_tombstone_selection() {
        ClientSelection::Range {
            begin: TextOrParagraphAnchor::TextAnchor(b),
            end: TextOrParagraphAnchor::TextAnchor(e),
        } => {
            assert_eq!(b.at_index, Some(0));
            assert_eq!(e.at_node, nid(1, 1));
            assert_eq!(e.at_index, Some(2));
        }
        other => panic!("unexpected selection {:?}", other),
    }
}

#[test]
fn resolver_adopts_previous_live_entry() {
    let mut doc = DocumentState::empty();
    doc.paragraphs[0] = ParagraphNode::Paragraph(Paragraph {
        paragraph_id: ParagraphId::origin_id(),
        contents: vec![
            text_node(nid(1, 1), 0, Some(2), "ab"),
            TextNode::Tombstone {
                node: nid(2, 1),
                offset: 0,
                offset_after: None,
                length: 2,
            },
        ],
    });
    // The caret is anchored into a wholly erased insertion; the nearest
    // live predecessor is adopted, with the caret after its span.
    doc.change_selection(ClientSelection::Caret(TextOrParagraphAnchor::TextAnchor(
        TextAnchor {
            at_node: nid(2, 1),
            at_index: Some(1),
        },
    )));
    match doc.get_non_tombstone_selection() {
        ClientSelection::Caret(TextOrParagraphAnchor::TextAnchor(a)) => {
            assert_eq!(a.at_node, nid(1, 1));
            assert_eq!(a.at_index, Some(2));
        }
        other => panic!("unexpected selection {:?}", other),
    }
}

#[test]
fn mut_iter_inserts_and_erases() {
    let mut doc = two_paragraph_doc();
    let it = DocumentStateMutIter {
        paragraph_index: 1,
        text_node_index: Some(0),
    };
    it.insert_into_current_text_node_at_offset(
        &mut doc,
        Some(1),
        text_node(nid(4, 1), 0, None, "Z"),
    );
    let contents = doc.paragraphs[1].contents();
    assert_eq!(contents.len(), 3);
    match &contents[1] {
        TextNode::Text { node, .. } => assert_eq!(*node, nid(4, 1)),
        other => panic!("unexpected node {:?}", other),
    }
    let boundary = DocumentStateMutIter {
        paragraph_index: 1,
        text_node_index: None,
    };
    boundary.insert_into_paragraph_at(
        &mut doc,
        ParagraphAnchorRelativity::AtEnd,
        text_node(nid(5, 1), 0, None, "end"),
    );
    assert_eq!(doc.paragraphs[1].contents().len(), 4);
    let mut eraser = DocumentStateMutIter {
        paragraph_index: 1,
        text_node_index: Some(3),
    };
    eraser.erase_current(&mut doc);
    assert_eq!(doc.paragraphs[1].contents().len(), 3);
}

#[test]
fn render_skips_tombstones_and_marks_last_fragments() {
    let doc = two_paragraph_doc();
    let rendered = doc.render();
    assert_eq!(rendered.paragraphs.len(), 2);
    assert_eq!(rendered.paragraphs[0].content.len(), 1);
    assert!(!rendered.paragraphs[0].content[0].last_fragment);
    assert_eq!(rendered.paragraphs[0].content[0].to_text(), "ab");
    assert!(rendered.paragraphs[1].content[0].last_fragment);
    assert_eq!(rendered.paragraphs[0].to_text(), "ab");
    assert_eq!(rendered.to_text(), "ab\rcd");
}

#[test]
fn range_printer_collapses_repeated_boundaries() {
    let mut rp = RangePrinter::default();
    assert_eq!(rp.print_start_range(), "[");
    assert_eq!(rp.print_start_range(), "");
    assert_eq!(rp.print_end_range(), "|");
    assert_eq!(rp.print_end_range(), "");
    assert_eq!(rp.print_caret(), "|");
    assert_eq!(rp.print_cursor(Cursor::Caret(None)), "");
    let mut reversed = RangePrinter::default();
    assert_eq!(reversed.print_end_range(), "|");
    assert_eq!(reversed.print_start_range(), "]");
}

#[test]
fn cursor_get_offset_reads_every_variant() {
    assert_eq!(Cursor::Caret(Some(3)).get_offset(), Some(3));
    assert_eq!(Cursor::RangeBegin(None).get_offset(), None);
    assert_eq!(Cursor::RangeEnd(Some(0)).get_offset(), Some(0));
}

#[test]
fn range_selection_prints_both_boundaries() {
    let mut client = Client::create(3);
    client.change_selection(ClientSelection::Caret(
        TextOrParagraphAnchor::ParagraphAnchor(ParagraphAnchor {
            paragraph_id: ParagraphId::origin_id(),
            paragraph_anchor_relativity: ParagraphAnchorRelativity::AtBeginning,
        }),
    ));
    client.add_input(Input::Text("test text".to_string())).unwrap();
    client.change_selection(ClientSelection::Range {
        begin: TextOrParagraphAnchor::TextAnchor(TextAnchor {
            at_node: nid(1, 3),
            at_index: Some(0),
        }),
        end: TextOrParagraphAnchor::TextAnchor(TextAnchor {
            at_node: nid(1, 3),
            at_index: Some(4),
        }),
    });
    assert_eq!(print(&client), "[test| text");
}

#[test]
fn format_attributes_occupy_distinct_bits() {
    assert_eq!(TextFormat::Bold.mask(), 1);
    assert_eq!(TextFormat::Italic.mask(), 2);
    let untouched = TextFormatChange::default();
    assert_eq!(untouched.values_to_set, 0);
    assert_eq!(untouched.value, 0);
}

#[test]
fn log_keeps_identifiers_ordered_and_replaces_in_place() {
    let mut ops = Operations::empty();
    assert_eq!(ops.maximum_operation_id(), 0);
    let origin = ParagraphId::origin_id();
    let mk = |node: NodeId, text: &str| Action::ParagraphInsert {
        anchor: origin,
        position: ParagraphInsertPosition::EraseAnchorIfEmpty,
        first_paragraph: NewParagraph {
            node_id: ParagraphId::from_node_id(&node),
            text: vec![run(node, text)],
        },
        additional_paragraphs: Vec::new(),
    };
    ops.add_or_replace_node(nid(2, 1), mk(nid(2, 1), "b"));
    ops.add_or_replace_node(nid(1, 1), mk(nid(1, 1), "a"));
    ops.add_or_replace_node(nid(2, 2), mk(nid(2, 2), "c"));
    assert_eq!(ops.len(), 3);
    assert_eq!(ops.entry(0).0, nid(1, 1));
    assert_eq!(ops.entry(1).0, nid(2, 1));
    assert_eq!(ops.entry(2).0, nid(2, 2));
    assert_eq!(ops.maximum_operation_id(), 2);
    ops.add_or_replace_node(nid(2, 1), mk(nid(2, 1), "B"));
    assert_eq!(ops.len(), 3);
    match ops.entry(1) {
        (id, Action::ParagraphInsert { first_paragraph, .. }) => {
            assert_eq!(*id, nid(2, 1));
            assert_eq!(first_paragraph.text[0].text, "B");
        }
        other => panic!("unexpected entry {:?}", other),
    }
}

#[test]
fn anchor_kind_checks() {
    let text_anchor = TextOrParagraphAnchor::TextAnchor(TextAnchor {
        at_node: nid(1, 1),
        at_index: None,
    });
    assert!(text_anchor.is_text_anchor_for(&nid(1, 1)));
    assert!(!text_anchor.is_text_anchor_for(&nid(1, 2)));
    let para_anchor = TextOrParagraphAnchor::ParagraphAnchor(ParagraphAnchor {
        paragraph_id: ParagraphId::origin_id(),
        paragraph_anchor_relativity: ParagraphAnchorRelativity::AtEnd,
    });
    assert!(!para_anchor.is_text_anchor_for(&nid(0, 0)));
    let a = TextAnchor {
        at_node: nid(1, 1),
        at_index: Some(2),
    };
    let b = TextAnchor {
        at_node: nid(1, 1),
        at_index: Some(2),
    };
    let c = TextAnchor {
        at_node: nid(1, 1),
        at_index: None,
    };
    assert!(a.equals(&b));
    assert!(!a.equals(&c));
}
