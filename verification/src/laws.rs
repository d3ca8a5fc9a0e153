//! What holds of every forest: the laws that relate the array, the trees it
//! stands for, and the wire forms.

use vstd::prelude::*;
use crate::model::{Tree, is_forest, trees_of, flatten, forest_size, tree_size,
    preorder, preorder_tree, record};
use crate::lemmas::{lemma_flatten_trees_of, lemma_trees_of_flatten, lemma_preorder_flatten,
    lemma_preorder_flatten_tree,
    lemma_preorder_index, lemma_tree_len, lemma_node};
use crate::forest::PackedForest;
use crate::wire::{scan_trees, lemma_scan_trees};

verus! {

/// Round trip through the flat wire form: the array of a well-formed forest,
/// read back as a flat sequence, is accepted without a fault, so that
/// `from_flat` returns a forest with the same array and the same trees.
pub proof fn law_flat_round_trip<T>(forest: PackedForest<T>)
    requires
        forest.wf(),
    ensures
        scan_trees(forest.raw()) is None,
        is_forest(forest.raw()),
        trees_of(forest.raw()) == forest@,
{
    lemma_scan_trees(forest.raw());
}

/// Round trip through the nested form, from the array: the array of a
/// well-formed forest is the flat form of its trees, so that any forest
/// rebuilt from those trees has the same array.
pub proof fn law_nested_round_trip<T>(forest: PackedForest<T>, rebuilt: PackedForest<T>)
    requires
        forest.wf(),
        rebuilt.wf(),
        rebuilt@ == forest@,
    ensures
        forest.raw() == flatten(forest@),
        rebuilt.raw() == forest.raw(),
{
    lemma_flatten_trees_of(forest.raw());
    lemma_flatten_trees_of(rebuilt.raw());
}

/// Round trip through the nested form, from the trees: the flat form of a
/// list of trees that fits in an array is well formed and stands for exactly
/// those trees.
pub proof fn law_trees_round_trip<T>(trees: Seq<Tree<T>>)
    requires
        forest_size(trees) <= usize::MAX,
    ensures
        is_forest(flatten(trees)),
        trees_of(flatten(trees)) == trees,
{
    lemma_trees_of_flatten(trees);
}

/// The size invariant: the size stored at each position of a well-formed
/// forest is the number of nodes of the subtree rooted there, which is one
/// more than the sum of the sizes of its children, and is the number of nodes
/// that a pre-order walk of that subtree visits; and the subtree lies within
/// the array.
pub proof fn law_size_invariant<T>(forest: PackedForest<T>, index: int)
    requires
        forest.wf(),
        0 <= index < forest.raw().len(),
    ensures
        preorder(forest@).len() == forest.raw().len(),
        forest.raw()[index].subtree_size == tree_size(preorder(forest@)[index]),
        forest.raw()[index].subtree_size == 1 + forest_size(preorder(forest@)[index].children),
        forest.raw()[index].subtree_size == preorder_tree(preorder(forest@)[index]).len(),
        index + forest.raw()[index].subtree_size <= forest.raw().len(),
{
    let s = forest.raw();
    lemma_preorder_index(s, index);
    lemma_node(s, index);
    lemma_tree_len(s.subrange(index, index + s[index].subtree_size));
    lemma_preorder_flatten_tree(preorder(forest@)[index]);
}

/// Pre-order consistency: the slots of a well-formed forest are, in order,
/// the records of the nodes that a pre-order walk of its trees visits: the
/// value at each position is the value of the node visited at that position.
pub proof fn law_preorder<T>(forest: PackedForest<T>)
    requires
        forest.wf(),
    ensures
        preorder(forest@).len() == forest.raw().len(),
        forall|i: int|
            0 <= i < forest.raw().len() ==> #[trigger] forest.raw()[i] == record(
                preorder(forest@)[i],
            ),
        forall|i: int|
            0 <= i < forest.raw().len() ==> (#[trigger] forest.raw()[i]).val == preorder(
                forest@,
            )[i].val,
{
    lemma_flatten_trees_of(forest.raw());
    lemma_preorder_flatten(forest@);
    assert forall|i: int| 0 <= i < forest.raw().len() implies #[trigger] forest.raw()[i] == record(
        preorder(forest@)[i],
    ) by {
        assert(flatten(forest@)[i] == record(preorder(forest@)[i]));
    }
}

} // verus!
