use coedit::ids::{ActionId, NodeId, ParagraphId};

#[test]
fn node_id_order() {
    let n0 = NodeId {
        operation_id: 1,
        client_id: 3,
    };
    let n1 = NodeId {
        operation_id: 2,
        client_id: 1,
    };
    let n2 = NodeId {
        operation_id: 2,
        client_id: 2,
    };
    assert!(n0 < n1);
    assert!(n1 < n2);
}

#[test]
fn node_id_lt_is_lexicographic() {
    let a = NodeId {
        operation_id: 1,
        client_id: 9,
    };
    let b = NodeId {
        operation_id: 2,
        client_id: 0,
    };
    let c = NodeId {
        operation_id: 2,
        client_id: 1,
    };
    assert!(a.lt(&b));
    assert!(b.lt(&c));
    assert!(!c.lt(&b));
    assert!(!a.lt(&a));
}

#[test]
fn paragraph_id_from_node_id_keeps_components() {
    let n = NodeId {
        operation_id: 7,
        client_id: 4,
    };
    let p = ParagraphId::from_node_id(&n);
    assert_eq!(p.operation_id, 7);
    assert_eq!(p.client_id, 4);
    let a = ActionId::from_node_id(&n);
    assert_eq!(a.operation_id, 7);
    assert_eq!(a.client_id, 4);
}

#[test]
fn origin_id_is_zero_pair() {
    let o = ParagraphId::origin_id();
    assert_eq!(o.operation_id, 0);
    assert_eq!(o.client_id, 0);
}
