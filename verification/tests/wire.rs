use packed_tree::{FlatError, FlatErrorKind, NodeBuilder, NodeData, NodeIter, NodeRef, PackedForest};
use serde_json::Value;

fn build_store() -> PackedForest<i32> {
    let mut store = PackedForest::new();
    store.build_tree(2, |node| {
        node.build_child(10, |node| {
            node.add_child(11);
            node.add_child(12);
            node.add_child(13);
        });
        node.add_child(20);
        node.build_child(30, |node| {
            node.add_child(31);
            node.add_child(32);
            node.add_child(33);
        });
    });
    store.build_tree(3, |node| {
        node.add_child(10);
        node.build_child(20, |node| {
            node.add_child(21);
            node.add_child(22);
            node.add_child(23);
        });
        node.add_child(30);
    });
    store
}

// The nested form: a node is the pair of its value and the list of its
// children; a forest is the list of its trees.
fn node_to_json(node: NodeRef<i32>) -> Value {
    Value::Array(vec![Value::from(*node.val()), nodes_to_json(node.children())])
}

fn nodes_to_json(mut nodes: NodeIter<i32>) -> Value {
    let mut list = Vec::new();
    while let Some(node) = nodes.next() {
        list.push(node_to_json(node));
    }
    Value::Array(list)
}

fn to_json_string(store: &PackedForest<i32>) -> String {
    serde_json::ser::to_string(&nodes_to_json(store.iter_trees())).unwrap()
}

fn add_children(list: &Value, builder: &mut NodeBuilder<i32>) {
    for node in list.as_array().unwrap() {
        let pair = node.as_array().unwrap();
        assert_eq!(pair.len(), 2);
        let val = pair[0].as_i64().unwrap() as i32;
        let mut child = builder.get_child_builder();
        add_children(&pair[1], &mut child);
        child.finish(val);
    }
}

fn from_json_str(text: &str) -> PackedForest<i32> {
    let value: Value = serde_json::from_str(text).unwrap();
    let mut store = PackedForest::new();
    for node in value.as_array().unwrap() {
        let pair = node.as_array().unwrap();
        assert_eq!(pair.len(), 2);
        let val = pair[0].as_i64().unwrap() as i32;
        let mut root = store.get_tree_builder();
        add_children(&pair[1], &mut root);
        root.finish(val);
    }
    store
}

// The flat form: one pair of value and subtree size per node, in pre-order.
fn to_flat(store: &PackedForest<i32>) -> Vec<(i32, usize)> {
    store.raw_data().iter().map(|node| (*node.val(), node.subtree_size())).collect()
}

fn from_flat(flat: Vec<(i32, usize)>) -> Result<PackedForest<i32>, FlatError> {
    PackedForest::from_flat(
        flat.into_iter().map(|(val, subtree_size)| NodeData { val, subtree_size }).collect(),
    )
}

fn sizes(sizes: &[usize]) -> Vec<(i32, usize)> {
    sizes.iter().map(|size| (0, *size)).collect()
}

#[test]
fn test_json() {
    let store = build_store();
    let str = to_json_string(&store);
    let store2: PackedForest<i32> = from_json_str(&str);
    let str2 = to_json_string(&store2);
    assert_eq!(str, str2);
}

#[test]
fn test_bincode() {
    let store = build_store();
    let vec = bincode::serialize(&to_flat(&store)).unwrap();
    let flat2: Vec<(i32, usize)> = bincode::deserialize(&vec[..]).unwrap();
    let store2: PackedForest<i32> = from_flat(flat2).unwrap();
    let vec2 = bincode::serialize(&to_flat(&store2)).unwrap();
    assert_eq!(vec, vec2);
}

#[test]
fn json_text_is_the_nested_form() {
    let store = build_store();
    assert_eq!(
        to_json_string(&store),
        "[[2,[[10,[[11,[]],[12,[]],[13,[]]]],[20,[]],[30,[[31,[]],[32,[]],[33,[]]]]]],\
         [3,[[10,[]],[20,[[21,[]],[22,[]],[23,[]]]],[30,[]]]]]"
    );
}

#[test]
fn json_round_trip_gives_the_same_array() {
    let store = build_store();
    let store2 = from_json_str(&to_json_string(&store));
    assert!(store == store2);
    assert_eq!(to_flat(&store), to_flat(&store2));
}

#[test]
fn bincode_round_trip_gives_the_same_array() {
    let store = build_store();
    let bytes = bincode::serialize(&to_flat(&store)).unwrap();
    let store2 = from_flat(bincode::deserialize(&bytes[..]).unwrap()).unwrap();
    assert!(store == store2);
    assert_eq!(to_json_string(&store), to_json_string(&store2));
}

#[test]
fn flat_form_of_the_two_trees() {
    let store = build_store();
    assert_eq!(
        to_flat(&store),
        vec![
            (2, 10),
            (10, 4),
            (11, 1),
            (12, 1),
            (13, 1),
            (20, 1),
            (30, 4),
            (31, 1),
            (32, 1),
            (33, 1),
            (3, 7),
            (10, 1),
            (20, 4),
            (21, 1),
            (22, 1),
            (23, 1),
            (30, 1),
        ]
    );
}

#[test]
fn from_flat_accepts_the_empty_sequence() {
    let store = from_flat(Vec::new()).unwrap();
    assert_eq!(store.tot_num_nodes(), 0);
    assert!(store.iter_trees().next().is_none());
}

#[test]
fn from_flat_keeps_values_and_shape() {
    let store = from_flat(vec![(7, 3), (8, 2), (9, 1), (5, 1)]).unwrap();
    assert_eq!(store.tot_num_nodes(), 4);
    let mut trees = store.iter_trees();
    let first = trees.next().unwrap();
    assert_eq!(*first.val(), 7);
    assert_eq!(first.num_descendants_incl_self(), 3);
    let mut children = first.children();
    let child = children.next().unwrap();
    assert_eq!(*child.val(), 8);
    assert_eq!(*child.children().next().unwrap().val(), 9);
    assert!(children.next().is_none());
    let second = trees.next().unwrap();
    assert_eq!(*second.val(), 5);
    assert!(second.children().next().is_none());
    assert!(trees.next().is_none());
}

#[test]
fn from_flat_refuses_a_size_past_the_end() {
    // The root declares three nodes, the sequence holds two.
    let err = from_flat(sizes(&[3, 1])).err().unwrap();
    assert_eq!(err, FlatError { kind: FlatErrorKind::TooShort, num_read: 1 });
}

#[test]
fn from_flat_refuses_a_root_alone_that_declares_children() {
    let err = from_flat(sizes(&[2])).err().unwrap();
    assert_eq!(err, FlatError { kind: FlatErrorKind::TooShort, num_read: 0 });
}

#[test]
fn from_flat_refuses_a_root_of_size_zero() {
    let err = from_flat(sizes(&[1, 0])).err().unwrap();
    assert_eq!(err, FlatError { kind: FlatErrorKind::InvalidSize, num_read: 0 });
}

#[test]
fn from_flat_refuses_a_child_of_size_zero() {
    let err = from_flat(sizes(&[3, 1, 0])).err().unwrap();
    assert_eq!(err, FlatError { kind: FlatErrorKind::InvalidSize, num_read: 2 });
}

#[test]
fn from_flat_refuses_a_child_larger_than_its_parent() {
    // The child at position 1 declares three nodes, its parent has room for two.
    let err = from_flat(sizes(&[3, 3, 1, 1])).err().unwrap();
    assert_eq!(err, FlatError { kind: FlatErrorKind::InvalidSize, num_read: 1 });
}

#[test]
fn from_flat_counts_at_the_level_of_the_fault() {
    // The fault is the grandchild at position 3: the second slot read among
    // the children of the node at position 1.
    let err = from_flat(sizes(&[5, 3, 1, 2, 1])).err().unwrap();
    assert_eq!(err, FlatError { kind: FlatErrorKind::InvalidSize, num_read: 2 });
}

#[test]
fn from_flat_counts_earlier_subtrees_at_the_level_of_the_fault() {
    // The fault is the child at position 3, read after a first child of two
    // nodes.
    let err = from_flat(sizes(&[5, 2, 1, 0, 1])).err().unwrap();
    assert_eq!(err, FlatError { kind: FlatErrorKind::InvalidSize, num_read: 3 });
}

#[test]
fn from_flat_error_leaves_no_forest() {
    assert!(from_flat(sizes(&[1, 1, 4, 1])).is_err());
    assert!(from_flat(sizes(&[1, 1, 2, 1])).is_ok());
}
