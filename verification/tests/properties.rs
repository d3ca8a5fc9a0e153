use packed_tree::{
    ExactSizeNodeRef, ExactSizePackedForest, ExactSizePackedTree, NodeData, NodeRef, PackedForest,
    PackedTree,
};
use std::sync::atomic::{AtomicUsize, Ordering};
use std::sync::Arc;

fn build_store() -> PackedForest<i32> {
    let mut store = PackedForest::new();
    store.build_tree(2, |node| {
        node.build_child(10, |node| {
            node.add_child(11);
            node.add_child(12);
            node.add_child(13);
        });
        node.add_child(20);
        node.build_child(30, |node| {
            node.add_child(31);
            node.add_child(32);
            node.add_child(33);
        });
    });
    store.build_tree(3, |node| {
        node.add_child(10);
        node.build_child(20, |node| {
            node.add_child(21);
            node.add_child(22);
            node.add_child(23);
        });
        node.add_child(30);
    });
    store
}

fn build_exact_store() -> ExactSizePackedForest<i32> {
    let mut store = ExactSizePackedForest::new();
    store.build_tree(2, |node| {
        node.build_child(10, |node| {
            node.add_child(11);
            node.add_child(12);
            node.add_child(13);
        });
        node.add_child(20);
        node.build_child(30, |node| {
            node.add_child(31);
            node.add_child(32);
        });
    });
    store.add_single_node_tree(3);
    store.build_tree_by_ret_val(|node| {
        node.add_child(41);
        40
    });
    store
}

// A value that counts how many of its kind are alive.
struct Counted {
    val: i32,
    alive: Arc<AtomicUsize>,
}

impl Counted {
    fn new(val: i32, alive: &Arc<AtomicUsize>) -> Counted {
        alive.fetch_add(1, Ordering::SeqCst);
        Counted { val, alive: alive.clone() }
    }
}

impl Drop for Counted {
    fn drop(&mut self) {
        let before = self.alive.fetch_sub(1, Ordering::SeqCst);
        assert!(before > 0);
    }
}

fn build_counted(alive: &Arc<AtomicUsize>) -> PackedForest<Counted> {
    let mut store = PackedForest::new();
    store.build_tree(Counted::new(1, alive), |node| {
        node.build_child(Counted::new(10, alive), |node| {
            node.add_child(Counted::new(11, alive));
            node.add_child(Counted::new(12, alive));
        });
        node.add_child(Counted::new(20, alive));
    });
    store.add_single_node_tree(Counted::new(2, alive));
    store
}

// A textbook recursive pre-order walk over the references.
fn walk(node: NodeRef<i32>, out: &mut Vec<i32>) {
    out.push(*node.val());
    let mut children = node.children();
    while let Some(child) = children.next() {
        walk(child, out);
    }
}

fn size_by_walk(node: NodeRef<i32>) -> usize {
    let mut size = 1;
    let mut children = node.children();
    while let Some(child) = children.next() {
        size += size_by_walk(child);
    }
    size
}

#[test]
fn sum_flattened_and_recursive_are_323() {
    let store = build_store();
    let flat: i32 = store.iter_flattened().into_iter().sum();
    assert_eq!(flat, 323);
    let mut visited = Vec::new();
    let mut trees = store.iter_trees();
    while let Some(tree) = trees.next() {
        walk(tree, &mut visited);
    }
    assert_eq!(visited.iter().sum::<i32>(), 323);
}

#[test]
fn walk_visits_the_array_in_order() {
    let store = build_store();
    let mut visited = Vec::new();
    let mut trees = store.iter_trees();
    while let Some(tree) = trees.next() {
        walk(tree, &mut visited);
    }
    let flat: Vec<i32> = store.iter_flattened().into_iter().copied().collect();
    assert_eq!(visited, flat);
    assert_eq!(visited, vec![2, 10, 11, 12, 13, 20, 30, 31, 32, 33, 3, 10, 20, 21, 22, 23, 30]);
}

#[test]
fn every_size_is_the_count_of_the_subtree() {
    let store = build_store();
    let sizes: Vec<usize> = store.raw_data().iter().map(|node| node.subtree_size()).collect();
    assert_eq!(sizes, vec![10, 4, 1, 1, 1, 1, 4, 1, 1, 1, 7, 1, 4, 1, 1, 1, 1]);
    for index in 0..store.tot_num_nodes() {
        let node = store.get(index).unwrap();
        assert_eq!(node.num_descendants_incl_self(), sizes[index]);
        assert_eq!(node.num_descendants_excl_self(), sizes[index] - 1);
        assert_eq!(size_by_walk(node), sizes[index]);
        let mut sum_of_children = 0;
        let mut children = node.children();
        while let Some(child) = children.next() {
            sum_of_children += child.num_descendants_incl_self();
        }
        assert_eq!(sizes[index], 1 + sum_of_children);
    }
}

#[test]
fn single_node_tree() {
    let tree = PackedTree::new("x", |_| {});
    assert_eq!(tree.tot_num_nodes(), 1);
    assert_eq!(*tree.root().val(), "x");
    assert!(tree.root().children().next().is_none());
    assert_eq!(tree.root().children().num_remaining_nodes_incl_descendants(), 0);
    let mut draining = tree.drain();
    let mut root = draining.drain_root().unwrap();
    assert_eq!(root.val, "x");
    assert_eq!(root.num_descendants_incl_self(), 1);
    assert_eq!(root.num_descendants_excl_self(), 0);
    assert!(root.children.next().is_none());
    assert!(draining.drain_root().is_none());
}

#[test]
fn single_node_forest_drains_to_one_value() {
    let mut forest = PackedForest::new();
    forest.add_single_node_tree("x");
    assert_eq!(forest.tot_num_nodes(), 1);
    let mut draining = forest.drain_trees();
    let mut node = draining.next().unwrap();
    assert_eq!(node.val, "x");
    assert!(node.children.next().is_none());
    assert!(draining.next().is_none());
    assert_eq!(forest.tot_num_nodes(), 0);
}

#[test]
fn tree_from_forest_needs_exactly_one_root() {
    let empty: PackedForest<i32> = PackedForest::new();
    assert!(PackedTree::try_from_forest(empty.clone()).is_none());
    assert!(PackedTree::try_from(empty).is_err());

    let mut one = PackedForest::new();
    one.build_tree(1, |node| {
        node.add_child(2);
    });
    let tree = PackedTree::try_from_forest(one.clone()).unwrap();
    assert_eq!(*tree.root().val(), 1);
    assert_eq!(tree.tot_num_nodes(), 2);
    let tree = PackedTree::try_from(one.clone()).unwrap();
    assert_eq!(*tree.root().val(), 1);
    assert!(*tree.as_ref() == one);
    assert!(PackedForest::from(tree) == one);

    let mut two = one;
    two.add_single_node_tree(3);
    assert!(PackedTree::try_from_forest(two.clone()).is_none());
    assert!(PackedTree::try_from(two).is_err());
}

#[test]
fn get_finds_nodes_by_pre_order_position() {
    let store = build_store();
    let expected = [2, 10, 11, 12, 13, 20, 30, 31, 32, 33, 3, 10, 20, 21, 22, 23, 30];
    for (index, val) in expected.iter().enumerate() {
        assert_eq!(store.get(index).unwrap().val(), val);
        assert_eq!(store.get_unchecked(index).val(), val);
    }
    assert!(store.get(expected.len()).is_none());
    assert!(store.get(usize::MAX).is_none());
    let node = store.get(6).unwrap();
    let mut below = Vec::new();
    walk(node, &mut below);
    assert_eq!(below, vec![30, 31, 32, 33]);
}

#[test]
fn get_mut_changes_one_value_only() {
    let mut store = build_store();
    *store.get_mut(12).unwrap().val_mut() = 200;
    assert!(store.get_mut(17).is_none());
    *store.get_unchecked_mut(0).val_mut() += 1;
    let flat: Vec<i32> = store.iter_flattened().into_iter().copied().collect();
    assert_eq!(flat, vec![3, 10, 11, 12, 13, 20, 30, 31, 32, 33, 3, 10, 200, 21, 22, 23, 30]);
    let sizes: Vec<usize> = store.raw_data().iter().map(|node| node.subtree_size()).collect();
    assert_eq!(sizes, vec![10, 4, 1, 1, 1, 1, 4, 1, 1, 1, 7, 1, 4, 1, 1, 1, 1]);
}

#[test]
fn mutable_walk_changes_values_not_shape() {
    let mut store = build_store();
    let before = store.clone();
    {
        let mut trees = store.iter_trees_mut();
        assert_eq!(trees.num_remaining_nodes_incl_descendants(), 17);
        let mut first = trees.next().unwrap();
        assert_eq!(first.num_descendants_incl_self(), 10);
        assert_eq!(first.num_descendants_excl_self(), 9);
        *first.val_mut() = -2;
        assert_eq!(*first.reborrow_shared().val(), -2);
        let mut children = first.into_children();
        assert_eq!(children.reborrow_shared().num_remaining_nodes_incl_descendants(), 9);
        let mut child = children.next().unwrap();
        *child.val_mut() = -10;
        let mut grandchildren = child.children();
        *grandchildren.next().unwrap().val_mut() = -11;
        assert_eq!(trees.num_remaining_nodes_incl_descendants(), 7);
    }
    let flat: Vec<i32> = store.iter_flattened().into_iter().copied().collect();
    assert_eq!(flat, vec![-2, -10, -11, 12, 13, 20, 30, 31, 32, 33, 3, 10, 20, 21, 22, 23, 30]);
    let sizes = |s: &PackedForest<i32>| -> Vec<usize> {
        s.raw_data().iter().map(|node| node.subtree_size()).collect()
    };
    assert_eq!(sizes(&store), sizes(&before));
}

#[test]
fn iter_flattened_mut_reaches_every_value() {
    let mut store = build_store();
    for val in store.iter_flattened_mut() {
        *val *= 2;
    }
    let flat: Vec<i32> = store.iter_flattened().into_iter().copied().collect();
    assert_eq!(flat, vec![4, 20, 22, 24, 26, 40, 60, 62, 64, 66, 6, 20, 40, 42, 44, 46, 60]);
    assert_eq!(store.get(0).unwrap().num_descendants_incl_self(), 10);
}

#[test]
fn drain_flattened_empties_the_forest() {
    let mut store = build_store();
    let vals = store.drain_flattened();
    assert_eq!(vals, vec![2, 10, 11, 12, 13, 20, 30, 31, 32, 33, 3, 10, 20, 21, 22, 23, 30]);
    assert_eq!(store.tot_num_nodes(), 0);
    store.add_single_node_tree(5);
    assert_eq!(store.drain_flattened(), vec![5]);
}

#[test]
fn clear_empties_the_forest() {
    let mut store = build_store();
    store.clear();
    assert_eq!(store.tot_num_nodes(), 0);
    assert!(store.iter_trees().next().is_none());
    assert!(store == PackedForest::default());
    assert!(PackedForest::<i32>::with_capacity(8) == PackedForest::new());
}

#[test]
fn builder_positions_and_sizes() {
    let mut store = PackedForest::new();
    store.add_single_node_tree(0);
    let mut root = store.get_tree_builder();
    assert_eq!(root.index(), 1);
    {
        let mut child = root.get_child_builder();
        assert_eq!(child.index(), 2);
        assert_eq!(*child.add_child(3).val(), 3);
        let grandchild = child.get_child_builder();
        assert_eq!(grandchild.index(), 4);
        let node = grandchild.finish(4);
        assert_eq!(node.num_descendants_incl_self(), 1);
        let node = child.finish(2);
        assert_eq!(node.num_descendants_incl_self(), 3);
    }
    let second = root.get_child_builder();
    assert_eq!(second.index(), 5);
    second.finish(5);
    let node = root.finish(1);
    assert_eq!(node.num_descendants_incl_self(), 5);
    assert_eq!(
        store.raw_data(),
        &vec![
            NodeData { val: 0, subtree_size: 1 },
            NodeData { val: 1, subtree_size: 5 },
            NodeData { val: 2, subtree_size: 3 },
            NodeData { val: 3, subtree_size: 1 },
            NodeData { val: 4, subtree_size: 1 },
            NodeData { val: 5, subtree_size: 1 },
        ]
    );
}

#[test]
fn callbacks_return_values() {
    let mut store = PackedForest::new();
    let ret = store.build_tree(1, |node| {
        let inner = node.build_child(2, |node| {
            node.add_child(3);
            "inner"
        });
        assert_eq!(inner, "inner");
        let child = node.build_child_by_ret_val(|node| {
            node.add_child(5);
            4
        });
        assert_eq!(*child.val(), 4);
        assert_eq!(child.num_descendants_incl_self(), 2);
        "outer"
    });
    assert_eq!(ret, "outer");
    store.build_tree_by_ret_val(|node| {
        node.add_child(7);
        6
    });
    let flat: Vec<i32> = store.iter_flattened().into_iter().copied().collect();
    assert_eq!(flat, vec![1, 2, 3, 4, 5, 6, 7]);
    let tree = PackedTree::new_by_ret_val(|node| {
        node.add_child(9);
        8
    });
    assert_eq!(tree.iter_flattened(), vec![&8, &9]);
    assert_eq!(tree.raw_data()[0].subtree_size(), 2);
}

#[test]
fn dropped_builder_adds_nothing_and_drops_its_nodes() {
    let alive = Arc::new(AtomicUsize::new(0));
    {
        let mut store = build_counted(&alive);
        assert_eq!(alive.load(Ordering::SeqCst), 6);
        {
            let mut root = store.get_tree_builder();
            let mut child = root.get_child_builder();
            child.add_child(Counted::new(31, &alive));
            child.add_child(Counted::new(32, &alive));
            assert_eq!(alive.load(Ordering::SeqCst), 8);
            drop(child);
            assert_eq!(alive.load(Ordering::SeqCst), 6);
            root.add_child(Counted::new(40, &alive));
            assert_eq!(alive.load(Ordering::SeqCst), 7);
        }
        assert_eq!(alive.load(Ordering::SeqCst), 6);
        assert_eq!(store.tot_num_nodes(), 6);
        let vals: Vec<i32> = store.iter_flattened().into_iter().map(|v| v.val).collect();
        assert_eq!(vals, vec![1, 10, 11, 12, 20, 2]);
    }
    assert_eq!(alive.load(Ordering::SeqCst), 0);
}

#[test]
fn forest_drop_drops_every_value_once() {
    let alive = Arc::new(AtomicUsize::new(0));
    {
        let _store = build_counted(&alive);
        assert_eq!(alive.load(Ordering::SeqCst), 6);
    }
    assert_eq!(alive.load(Ordering::SeqCst), 0);
}

#[test]
fn drain_moves_values_out_and_drops_the_rest() {
    let alive = Arc::new(AtomicUsize::new(0));
    let mut store = build_counted(&alive);
    {
        let mut draining = store.drain_trees();
        assert_eq!(draining.num_remaining_nodes_incl_descendants(), 6);
        let root = draining.next().unwrap();
        assert_eq!(root.val.val, 1);
        assert_eq!(root.num_descendants_incl_self(), 5);
        assert_eq!(draining.num_remaining_nodes_incl_descendants(), 1);
        assert_eq!(alive.load(Ordering::SeqCst), 6);
        let mut children = root.children;
        let kept = root.val;
        let first = children.next().unwrap();
        assert_eq!(first.val.val, 10);
        drop(first);
        // The child and its two children are gone, the sibling is not.
        assert_eq!(alive.load(Ordering::SeqCst), 2 + 1);
        drop(children);
        assert_eq!(alive.load(Ordering::SeqCst), 1 + 1);
        drop(draining);
        assert_eq!(alive.load(Ordering::SeqCst), 1);
        assert_eq!(kept.val, 1);
    }
    assert_eq!(alive.load(Ordering::SeqCst), 0);
    assert_eq!(store.tot_num_nodes(), 0);
}

#[test]
fn tree_indexing_and_mutation() {
    let mut tree = PackedTree::new(1, |node| {
        node.build_child(2, |node| {
            node.add_child(3);
        });
        node.add_child(4);
    });
    assert_eq!(*tree.get(2).unwrap().val(), 3);
    assert_eq!(*tree.get_unchecked(3).val(), 4);
    assert!(tree.get(4).is_none());
    *tree.root_mut().val_mut() = 10;
    *tree.get_mut(1).unwrap().val_mut() = 20;
    *tree.get_unchecked_mut(3).val_mut() = 40;
    assert!(tree.get_mut(4).is_none());
    for val in tree.iter_flattened_mut() {
        *val += 1;
    }
    assert_eq!(tree.iter_flattened(), vec![&11, &21, &4, &41]);
    assert_eq!(tree.root().num_descendants_incl_self(), 4);
    assert_eq!(tree.clone().drain().drain_flattened(), vec![11, 21, 4, 41]);
    let mut draining = tree.drain();
    let root = draining.drain_root().unwrap();
    assert_eq!(root.val, 11);
    assert_eq!(root.children.num_remaining_nodes_incl_descendants(), 3);
    assert!(draining.drain_flattened().is_empty());
}

fn exact_walk(node: ExactSizeNodeRef<i32>, out: &mut Vec<(i32, usize)>) {
    out.push((*node.val(), node.num_children()));
    let mut children = node.children();
    assert_eq!(children.len(), node.num_children());
    let mut left = children.len();
    while let Some(child) = children.next() {
        left -= 1;
        assert_eq!(children.len(), left);
        assert_eq!(children.size_hint(), (left, Some(left)));
        exact_walk(child, out);
    }
    assert_eq!(left, 0);
}

#[test]
fn exact_size_counts_children_and_trees() {
    let store = build_exact_store();
    assert_eq!(store.tot_num_nodes(), 12);
    let mut trees = store.iter_trees();
    assert_eq!(trees.len(), 3);
    assert_eq!(trees.num_remaining_nodes_incl_descendants(), 12);
    let mut visited = Vec::new();
    while let Some(tree) = trees.next() {
        exact_walk(tree, &mut visited);
    }
    assert_eq!(trees.len(), 0);
    assert_eq!(
        visited,
        vec![
            (2, 3),
            (10, 3),
            (11, 0),
            (12, 0),
            (13, 0),
            (20, 0),
            (30, 2),
            (31, 0),
            (32, 0),
            (3, 0),
            (40, 1),
            (41, 0),
        ]
    );
    assert_eq!(store.iter_flattened(), vec![&2, &10, &11, &12, &13, &20, &30, &31, &32, &3, &40, &41]);
    let node = store.get(6).unwrap();
    assert_eq!(node.num_children(), 2);
    assert_eq!(node.num_descendants_incl_self(), 3);
    assert_eq!(node.num_descendants_excl_self(), 2);
    assert_eq!(*store.get_unchecked(10).val(), 40);
    assert!(store.get(12).is_none());
    assert_eq!(store.raw_data().len(), 12);
}

#[test]
fn exact_size_builder_positions() {
    let mut store = ExactSizePackedForest::with_capacity(4);
    let mut root = store.get_tree_builder();
    assert_eq!(root.index(), 0);
    let mut child = root.get_child_builder();
    assert_eq!(child.index(), 1);
    assert_eq!(child.add_child(2).num_children(), 0);
    let node = child.build_child_by_ret_val(|node| {
        node.add_child(4);
        node.add_child(5);
        3
    });
    assert_eq!(node.num_children(), 2);
    assert_eq!(child.finish(1).num_children(), 2);
    let ret = root.build_child(6, |node| node.index());
    assert_eq!(ret, 6);
    let node = root.finish(0);
    assert_eq!(node.num_children(), 2);
    assert_eq!(node.num_descendants_incl_self(), 7);
    assert_eq!(store.iter_trees().len(), 1);
}

#[test]
fn exact_size_mutation_keeps_counts() {
    let mut store = build_exact_store();
    {
        let mut trees = store.iter_trees_mut();
        assert_eq!(trees.len(), 3);
        let mut first = trees.next().unwrap();
        assert_eq!(trees.len(), 2);
        assert_eq!(trees.size_hint(), (2, Some(2)));
        assert_eq!(first.num_children(), 3);
        *first.val_mut() = -2;
        assert_eq!(*first.val(), -2);
        assert_eq!(first.reborrow_shared().num_children(), 3);
        let mut children = first.children();
        assert_eq!(children.len(), 3);
        assert_eq!(children.reborrow_shared().len(), 3);
        let child = children.next().unwrap();
        assert_eq!(child.num_descendants_incl_self(), 4);
        assert_eq!(child.num_descendants_excl_self(), 3);
        let mut grandchildren = child.into_children();
        assert_eq!(grandchildren.len(), 3);
        *grandchildren.next().unwrap().val_mut() = -11;
        assert_eq!(grandchildren.num_remaining_nodes_incl_descendants(), 2);
    }
    *store.get_mut(9).unwrap().val_mut() = -3;
    *store.get_unchecked_mut(11).val_mut() = -41;
    assert!(store.get_mut(12).is_none());
    for val in store.iter_flattened_mut() {
        *val += 100;
    }
    assert_eq!(
        store.iter_flattened(),
        vec![&98, &110, &89, &112, &113, &120, &130, &131, &132, &97, &140, &59]
    );
    let counts: Vec<usize> = (0..12).map(|i| store.get(i).unwrap().num_children()).collect();
    assert_eq!(counts, vec![3, 3, 0, 0, 0, 0, 2, 0, 0, 0, 1, 0]);
    assert_eq!(store.iter_trees().len(), 3);
}

#[test]
fn exact_size_drain() {
    let mut store = build_exact_store();
    let mut draining = store.drain_trees();
    assert_eq!(draining.len(), 3);
    assert_eq!(draining.size_hint(), (3, Some(3)));
    let root = draining.next().unwrap();
    assert_eq!(root.val, 2);
    assert_eq!(root.num_descendants_incl_self(), 9);
    assert_eq!(root.num_descendants_excl_self(), 8);
    let mut children = root.children;
    assert_eq!(children.len(), 3);
    let first = children.next().unwrap();
    assert_eq!(first.val, 10);
    assert_eq!(first.children.len(), 3);
    assert_eq!(children.len(), 2);
    assert_eq!(children.num_remaining_nodes_incl_descendants(), 4);
    assert_eq!(draining.len(), 2);
    assert_eq!(draining.next().unwrap().val, 3);
    let mut last = draining.next().unwrap();
    assert_eq!(last.val, 40);
    assert_eq!(last.children.next().unwrap().val, 41);
    assert!(last.children.next().is_none());
    assert!(draining.next().is_none());
    assert_eq!(draining.len(), 0);
    drop(draining);
    assert_eq!(store.tot_num_nodes(), 0);
    assert_eq!(store.iter_trees().len(), 0);
    store.add_single_node_tree(1);
    assert_eq!(store.iter_trees().len(), 1);
    assert_eq!(store.drain_flattened(), vec![1]);
    assert_eq!(store.iter_trees().len(), 0);
    store.add_single_node_tree(1);
    store.clear();
    assert_eq!(store.iter_trees().len(), 0);
    assert!(store == ExactSizePackedForest::default());
}

#[test]
fn exact_size_tree() {
    let mut tree = ExactSizePackedTree::new(1, |node| {
        node.add_child(2);
        node.build_child(3, |node| {
            node.add_child(4);
        });
    });
    assert_eq!(tree.tot_num_nodes(), 4);
    assert_eq!(tree.root().num_children(), 2);
    assert_eq!(tree.root().children().len(), 2);
    *tree.root_mut().val_mut() = 10;
    for val in tree.iter_flattened_mut() {
        *val += 1;
    }
    assert_eq!(tree.iter_flattened(), vec![&11, &3, &4, &5]);
    assert_eq!(tree.raw_data()[2].val().num_children, 1);
    let forest = ExactSizePackedForest::from(tree.clone());
    assert!(*tree.as_ref() == forest);
    assert!(ExactSizePackedTree::try_from_forest(forest.clone()).is_some());
    assert!(ExactSizePackedTree::try_from(forest.clone()).is_ok());
    let mut two = forest;
    two.add_single_node_tree(9);
    assert!(ExactSizePackedTree::try_from_forest(two.clone()).is_none());
    assert!(ExactSizePackedTree::try_from(two).is_err());
    assert!(ExactSizePackedTree::try_from_forest(ExactSizePackedForest::<i32>::new()).is_none());
    assert!(ExactSizePackedTree::try_from(ExactSizePackedForest::<i32>::new()).is_err());
    let by_ret_val = ExactSizePackedTree::new_by_ret_val(|node| {
        node.add_child(2);
        1
    });
    assert_eq!(by_ret_val.root().num_children(), 1);
    let mut draining = tree.clone().drain();
    let root = draining.drain_root().unwrap();
    assert_eq!(root.val, 11);
    assert_eq!(root.children.len(), 2);
    assert!(draining.drain_root().is_none());
    assert_eq!(tree.drain().drain_flattened(), vec![11, 3, 4, 5]);
}
