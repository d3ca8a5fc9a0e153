//! The forest, and the shared views that walk it.

use vstd::prelude::*;
use crate::model::{NodeData, Tree, is_forest, is_tree, trees_of, tree_of, forest_size,
    tree_size, preorder, flatten_tree, same_shape};
use crate::lemmas::{lemma_first, lemma_node, lemma_flatten_trees_of, lemma_preorder_index,
    lemma_single, lemma_concat, lemma_same_shape};
use crate::mutable::{NodeIterMut, NodeRefMut};
use crate::drain::NodeListDrain;

verus! {

/// A list of trees, all stored in one `Vec` in pre-order, with one `usize` of
/// overhead per node.
///
/// The trees of a forest are built in one go, through a [`NodeBuilder`];
/// afterwards values can change, the shape cannot.
#[derive(Clone, PartialEq, Eq, Hash)]
pub struct PackedForest<T> {
    data: Vec<NodeData<T>>,
}

impl<T> View for PackedForest<T> {
    type V = Seq<Tree<T>>;

    /// The trees of the forest, in order.
    open spec fn view(&self) -> Seq<Tree<T>> {
        trees_of(self.raw())
    }
}

impl<T> Default for PackedForest<T> {
    fn default() -> (r: Self)
        ensures
            r.wf(),
            r.raw() == Seq::<NodeData<T>>::empty(),
    {
        PackedForest::new()
    }
}

impl<T> PackedForest<T> {
    /// The content of the backing array.
    pub closed spec fn raw(&self) -> Seq<NodeData<T>> {
        self.data@
    }

    /// The array is the flat form of a list of trees.
    pub open spec fn wf(&self) -> bool {
        is_forest(self.raw())
    }

    /// Create a new, empty forest.
    pub fn new() -> (r: PackedForest<T>)
        ensures
            r.wf(),
            r.raw() == Seq::<NodeData<T>>::empty(),
            r@ == Seq::<Tree<T>>::empty(),
    {
        PackedForest { data: Vec::new() }
    }

    /// Create a new, empty forest whose array has room for `capacity` nodes.
    pub fn with_capacity(capacity: usize) -> (r: PackedForest<T>)
        ensures
            r.wf(),
            r.raw() == Seq::<NodeData<T>>::empty(),
            r@ == Seq::<Tree<T>>::empty(),
    {
        PackedForest { data: Vec::with_capacity(capacity) }
    }

    /// The forest whose array is `data`.
    pub(crate) fn adopt(data: Vec<NodeData<T>>) -> (r: PackedForest<T>)
        ensures
            r.raw() == data@,
    {
        PackedForest { data }
    }

    /// A builder for a tree that is added to this forest once the builder is
    /// finished. Dropping the builder instead adds nothing.
    pub fn get_tree_builder(&mut self) -> (b: NodeBuilder<'_, T>)
        requires
            old(self).wf(),
            old(self).raw().len() < usize::MAX,
        ensures
            b.is_new_at(old(self).raw(), old(self).raw().len() as int),
            *final(b.forest) == *final(self),
    {
        let new_root_index = self.data.len();
        NodeBuilder { forest: self, children: PackedForest::new(), index: new_root_index }
    }

    /// Build a tree with the given root value and add it to the forest. The
    /// callback adds the children of the root; what it returns is returned.
    pub fn build_tree<R>(
        &mut self,
        root_val: T,
        node_builder_cb: impl FnOnce(&mut NodeBuilder<T>) -> R,
    ) -> (ret: R)
        requires
            old(self).wf(),
            old(self).raw().len() < usize::MAX,
            forall|b: &mut NodeBuilder<T>|
                b.is_new_at(old(self).raw(), old(self).raw().len() as int)
                    ==> call_requires(node_builder_cb, (b,)),
            forall|b: &mut NodeBuilder<T>, r: R|
                b.is_new_at(old(self).raw(), old(self).raw().len() as int)
                    && call_ensures(node_builder_cb, (b,), r)
                    ==> final(b).extends(*b) && *final(final(b).forest) == *final(b.forest),
        ensures
            final(self).wf(),
            exists|b: &mut NodeBuilder<T>|
                b.is_new_at(old(self).raw(), old(self).raw().len() as int)
                    && #[trigger] call_ensures(node_builder_cb, (b,), ret)
                    && final(self)@ == old(self)@.push(
                    Tree { val: root_val, children: final(b).children@ },
                ) && final(self).raw() == old(self).raw() + (seq![
                    NodeData { val: root_val, subtree_size: final(b).spec_subtree_size() as usize },
                ] + final(b).children.raw()),
    {
        let mut builder = self.get_tree_builder();
        let ret = node_builder_cb(&mut builder);
        let ghost base = builder.forest.raw();
        let ghost kids = builder.children.raw();
        builder.finish(root_val);
        proof {
            lemma_append_tree(base, root_val, kids);
        }
        ret
    }

    /// Build a tree whose root value is what the callback returns, and add it
    /// to the forest. The callback adds the children of the root.
    pub fn build_tree_by_ret_val(
        &mut self,
        node_builder_cb: impl FnOnce(&mut NodeBuilder<T>) -> T,
    )
        requires
            old(self).wf(),
            old(self).raw().len() < usize::MAX,
            forall|b: &mut NodeBuilder<T>|
                b.is_new_at(old(self).raw(), old(self).raw().len() as int)
                    ==> call_requires(node_builder_cb, (b,)),
            forall|b: &mut NodeBuilder<T>, r: T|
                b.is_new_at(old(self).raw(), old(self).raw().len() as int)
                    && call_ensures(node_builder_cb, (b,), r)
                    ==> final(b).extends(*b) && *final(final(b).forest) == *final(b.forest),
        ensures
            final(self).wf(),
            exists|b: &mut NodeBuilder<T>, root_val: T|
                b.is_new_at(old(self).raw(), old(self).raw().len() as int)
                    && #[trigger] call_ensures(node_builder_cb, (b,), root_val)
                    && final(self)@ == old(self)@.push(
                    Tree { val: root_val, children: final(b).children@ },
                ) && final(self).raw() == old(self).raw() + (seq![
                    NodeData { val: root_val, subtree_size: final(b).spec_subtree_size() as usize },
                ] + final(b).children.raw()),
    {
        let mut builder = self.get_tree_builder();
        let root_val = node_builder_cb(&mut builder);
        let ghost base = builder.forest.raw();
        let ghost kids = builder.children.raw();
        builder.finish(root_val);
        proof {
            lemma_append_tree(base, root_val, kids);
        }
    }

    /// Add a tree of a single node, with the given value, to the forest.
    pub fn add_single_node_tree(&mut self, val: T)
        requires
            old(self).wf(),
            old(self).raw().len() < usize::MAX,
        ensures
            final(self).wf(),
            final(self)@ == old(self)@.push(Tree { val, children: Seq::empty() }),
            final(self).raw() == old(self).raw().push(NodeData { val, subtree_size: 1 }),
    {
        let ghost base = self.raw();
        self.get_tree_builder().finish(val);
        proof {
            lemma_append_tree(base, val, Seq::empty());
            assert(final(self).raw() =~= base.push(NodeData { val, subtree_size: 1 }));
        }
    }

    /// A mutable iterator over the trees of this forest: it lets values
    /// change, not the shape. The forest ends up holding what the iterator's
    /// slots hold when the borrow ends.
    pub fn iter_trees_mut(&mut self) -> (it: NodeIterMut<'_, T>)
        requires
            old(self).wf(),
        ensures
            it.wf(),
            it.raw() == old(self).raw(),
            it@ == old(self)@,
            final(self).raw() == final(it.remaining_nodes)@,
    {
        NodeIterMut { remaining_nodes: self.data.as_mut_slice() }
    }

    /// A mutable reference to the node at position `index` of the pre-order
    /// walk of the forest, or `None` if the forest has no such position.
    pub fn get_mut(&mut self, index: usize) -> (r: Option<NodeRefMut<'_, T>>)
        requires
            old(self).wf(),
        ensures
            r is Some <==> index < old(self).raw().len(),
            r is None ==> *final(self) == *old(self),
            r is Some ==> {
                let n = r.unwrap();
                let end = index + old(self).raw()[index as int].subtree_size;
                &&& n.wf()
                &&& end <= old(self).raw().len()
                &&& n.raw() == old(self).raw().subrange(index as int, end)
                &&& n@ == preorder(old(self)@)[index as int]
                &&& final(self).raw()
                    == old(self).raw().subrange(0, index as int)
                        + final(n.slice)@
                        + old(self).raw().subrange(end, old(self).raw().len() as int)
            },
    {
        if index < self.data.len() {
            Some(self.get_unchecked_mut(index))
        } else {
            None
        }
    }

    /// A mutable reference to the node at position `index` of the pre-order
    /// walk of the forest, for a caller who knows that the position exists.
    pub fn get_unchecked_mut(&mut self, index: usize) -> (n: NodeRefMut<'_, T>)
        requires
            old(self).wf(),
            index < old(self).raw().len(),
        ensures
            n.wf(),
            index + old(self).raw()[index as int].subtree_size <= old(self).raw().len(),
            n.raw() == old(self).raw().subrange(
                index as int,
                index + old(self).raw()[index as int].subtree_size,
            ),
            n@ == preorder(old(self)@)[index as int],
            final(self).raw() == old(self).raw().subrange(0, index as int) + final(n.slice)@
                + old(self).raw().subrange(
                index + old(self).raw()[index as int].subtree_size,
                old(self).raw().len() as int,
            ),
    {
        proof {
            lemma_node(self.data@, index as int);
            lemma_preorder_index(self.data@, index as int);
        }
        let subtree_size = self.data[index].subtree_size;
        assert(index + subtree_size <= self.data.len());
        let whole = self.data.as_mut_slice();
        let (_, from_index) = whole.split_at_mut(index);
        let (slice, _) = from_index.split_at_mut(subtree_size);
        proof {
            assert(slice@ =~= old(self).raw().subrange(index as int, index + subtree_size));
        }
        NodeRefMut { slice }
    }

    /// An iterator over the trees of this forest.
    pub fn iter_trees(&self) -> (it: NodeIter<'_, T>)
        requires
            self.wf(),
        ensures
            it.wf(),
            it.raw() == self.raw(),
            it@ == self@,
    {
        NodeIter { remaining_nodes: self.data.as_slice() }
    }

    /// The node at position `index` of the pre-order walk of the forest, or
    /// `None` if the forest has no such position.
    pub fn get(&self, index: usize) -> (r: Option<NodeRef<'_, T>>)
        requires
            self.wf(),
        ensures
            r is Some <==> index < self.raw().len(),
            r is Some ==> {
                let n = r.unwrap();
                &&& n.wf()
                &&& index + self.raw()[index as int].subtree_size <= self.raw().len()
                &&& n.raw() == self.raw().subrange(
                    index as int,
                    index + self.raw()[index as int].subtree_size,
                )
                &&& n@ == preorder(self@)[index as int]
            },
    {
        if index < self.data.len() {
            Some(self.get_unchecked(index))
        } else {
            None
        }
    }

    /// The node at position `index` of the pre-order walk of the forest, for
    /// a caller who knows that the position exists.
    pub fn get_unchecked(&self, index: usize) -> (n: NodeRef<'_, T>)
        requires
            self.wf(),
            index < self.raw().len(),
        ensures
            n.wf(),
            index + self.raw()[index as int].subtree_size <= self.raw().len(),
            n.raw() == self.raw().subrange(
                index as int,
                index + self.raw()[index as int].subtree_size,
            ),
            n@ == preorder(self@)[index as int],
    {
        proof {
            lemma_node(self.data@, index as int);
            lemma_preorder_index(self.data@, index as int);
        }
        let subtree_size = self.data[index].subtree_size;
        assert(index + subtree_size <= self.data.len());
        let slice = vstd::slice::slice_subrange(self.data.as_slice(), index, index + subtree_size);
        NodeRef { slice }
    }

    /// Remove all nodes from the forest.
    pub fn clear(&mut self)
        ensures
            final(self).wf(),
            final(self).raw() == Seq::<NodeData<T>>::empty(),
            final(self)@ == Seq::<Tree<T>>::empty(),
    {
        self.data.clear()
    }

    /// The values of all the nodes of the forest, in pre-order.
    pub fn iter_flattened(&self) -> (r: Vec<&T>)
        ensures
            r@.len() == self.raw().len(),
            forall|i: int| 0 <= i < r@.len() ==> *(#[trigger] r@[i]) == self.raw()[i].val,
    {
        let mut out: Vec<&T> = Vec::with_capacity(self.data.len());
        let mut i: usize = 0;
        while i < self.data.len()
            invariant
                i <= self.data@.len(),
                out@.len() == i,
                forall|k: int| 0 <= k < i ==> *(#[trigger] out@[k]) == self.data@[k].val,
            decreases self.data@.len() - i,
        {
            out.push(&self.data[i].val);
            i += 1;
        }
        out
    }

    /// The slots of the forest, to change them in place.
    pub(crate) fn slots_mut(&mut self) -> (r: &mut [NodeData<T>])
        ensures
            r@ == old(self).raw(),
            final(self).raw() == final(r)@,
    {
        self.data.as_mut_slice()
    }

    /// The values of all the nodes of the forest, in pre-order, to change
    /// them. Each slot of the forest ends up holding what its reference holds
    /// when the borrow ends, with the size it had.
    pub fn iter_flattened_mut(&mut self) -> (r: Vec<&mut T>)
        ensures
            r@.len() == old(self).raw().len(),
            forall|i: int| 0 <= i < r@.len() ==> *(#[trigger] r@[i]) == old(self).raw()[i].val,
            final(self).raw().len() == old(self).raw().len(),
            forall|i: int|
                0 <= i < r@.len() ==> #[trigger] final(self).raw()[i] == (NodeData {
                    val: *final(r@[i]),
                    subtree_size: old(self).raw()[i].subtree_size,
                }),
            same_shape(old(self).raw(), final(self).raw()),
    {
        let ghost before = self.data@;
        let mut out: Vec<&mut T> = Vec::with_capacity(self.data.len());
        let mut rest: &mut [NodeData<T>] = self.data.as_mut_slice();
        while rest.len() > 0
            invariant
                out@.len() + rest@.len() == before.len(),
                rest@ == before.subrange(out@.len() as int, before.len() as int),
                forall|i: int| 0 <= i < out@.len() ==> *(#[trigger] out@[i]) == before[i].val,
                after_borrow(self.data)@.len() == out@.len() + final(rest)@.len(),
                forall|i: int|
                    0 <= i < out@.len() ==> #[trigger] after_borrow(self.data)@[i] == (NodeData {
                        val: *final(out@[i]),
                        subtree_size: before[i].subtree_size,
                    }),
                after_borrow(self.data)@.subrange(
                    out@.len() as int,
                    after_borrow(self.data)@.len() as int,
                ) == final(rest)@,
            decreases rest@.len(),
        {
            let ghost k = out@.len() as int;
            assert(rest@[0] == before[k]);
            let (val, tail) = split_first_val_mut(rest);
            out.push(val);
            rest = tail;
            assert(rest@ =~= before.subrange(k + 1, before.len() as int));
            assert(after_borrow(self.data)@[k] == after_borrow(self.data)@.subrange(
                k,
                after_borrow(self.data)@.len() as int,
            )[0]);
            assert(after_borrow(self.data)@.subrange(
                k + 1,
                after_borrow(self.data)@.len() as int,
            ) =~= after_borrow(self.data)@.subrange(
                k,
                after_borrow(self.data)@.len() as int,
            ).drop_first());
        }
        out
    }

    /// A draining iterator over the trees of this forest. It takes all the
    /// nodes with it: the forest is empty from now on.
    pub fn drain_trees(&mut self) -> (d: NodeListDrain<T>)
        requires
            old(self).wf(),
        ensures
            d.wf(),
            d.raw() == old(self).raw(),
            d@ == old(self)@,
            final(self).wf(),
            final(self).raw() == Seq::<NodeData<T>>::empty(),
    {
        let reversed = self.take_reversed();
        NodeListDrain::over_reversed(reversed)
    }

    /// Move all the nodes out of the forest, the last one first.
    fn take_reversed(&mut self) -> (reversed: Vec<NodeData<T>>)
        ensures
            reversed@.reverse() == old(self).raw(),
            reversed@.len() == old(self).raw().len(),
            final(self).raw() == Seq::<NodeData<T>>::empty(),
    {
        let ghost before = self.data@;
        let mut reversed: Vec<NodeData<T>> = Vec::with_capacity(self.data.len());
        while self.data.len() > 0
            invariant
                self.data@.len() + reversed@.len() == before.len(),
                self.data@ == before.subrange(0, self.data@.len() as int),
                forall|k: int|
                    0 <= k < reversed@.len() ==> #[trigger] reversed@[k] == before[before.len() - 1
                        - k],
            decreases self.data@.len(),
        {
            match self.data.pop() {
                Some(node) => {
                    reversed.push(node);
                },
                None => {},
            }
        }
        proof {
            assert(reversed@.reverse() =~= before);
        }
        reversed
    }

    /// Move the values of all the nodes out of the forest, in pre-order. The
    /// forest is empty from now on.
    pub fn drain_flattened(&mut self) -> (r: Vec<T>)
        ensures
            r@.len() == old(self).raw().len(),
            forall|i: int| 0 <= i < r@.len() ==> #[trigger] r@[i] == old(self).raw()[i].val,
            final(self).wf(),
            final(self).raw() == Seq::<NodeData<T>>::empty(),
    {
        let ghost before = self.data@;
        let mut reversed = self.take_reversed();
        let mut out: Vec<T> = Vec::with_capacity(reversed.len());
        while reversed.len() > 0
            invariant
                out@.len() + reversed@.len() == before.len(),
                forall|k: int|
                    0 <= k < reversed@.len() ==> #[trigger] reversed@[k] == before[before.len() - 1
                        - k],
                forall|i: int| 0 <= i < out@.len() ==> #[trigger] out@[i] == before[i].val,
            decreases reversed@.len(),
        {
            match reversed.pop() {
                Some(node) => {
                    out.push(node.val);
                },
                None => {},
            }
        }
        out
    }

    /// The backing array: one slot per node, in pre-order.
    pub fn raw_data(&self) -> (r: &Vec<NodeData<T>>)
        ensures
            r@ == self.raw(),
    {
        &self.data
    }

    /// The number of nodes of all the trees of the forest.
    pub fn tot_num_nodes(&self) -> (r: usize)
        ensures
            r == self.raw().len(),
            self.wf() ==> r == forest_size(self@),
    {
        proof {
            if is_forest(self.data@) {
                lemma_flatten_trees_of(self.data@);
            }
        }
        self.data.len()
    }
}

/// Split a non-empty run of slots into the value of the first slot and the
/// other slots, both to change them. The run ends up holding the first slot
/// with its new value and its old size, followed by what the other slots end
/// up holding.
fn split_first_val_mut<'a, T>(slice: &'a mut [NodeData<T>]) -> (r: (
    &'a mut T,
    &'a mut [NodeData<T>],
))
    requires
        old(slice)@.len() > 0,
    ensures
        *r.0 == old(slice)@[0].val,
        r.1@ == old(slice)@.drop_first(),
        final(slice)@ == seq![
            NodeData { val: *final(r.0), subtree_size: old(slice)@[0].subtree_size },
        ] + final(r.1)@,
{
    let (head, tail) = slice.split_at_mut(1);
    assert(tail@ =~= old(slice)@.drop_first());
    (&mut head[0].val, tail)
}

/// Appending the flat form of a new tree to a well-formed run adds that tree
/// to the trees the run stands for.
pub proof fn lemma_append_tree<T>(base: Seq<NodeData<T>>, val: T, kids: Seq<NodeData<T>>)
    requires
        is_forest(base),
        is_forest(kids),
        kids.len() < usize::MAX,
    ensures
        ({
            let node = NodeData { val, subtree_size: (kids.len() + 1) as usize };
            let tree = Tree { val, children: trees_of(kids) };
            &&& is_forest(base + (seq![node] + kids))
            &&& trees_of(base + (seq![node] + kids)) == trees_of(base).push(tree)
            &&& flatten_tree(tree) == seq![node] + kids
        }),
{
    let node = NodeData { val, subtree_size: (kids.len() + 1) as usize };
    let tree = Tree { val, children: trees_of(kids) };
    lemma_single(node, kids);
    lemma_concat(base, seq![node] + kids);
    assert(trees_of(base) + seq![tree] =~= trees_of(base).push(tree));
    lemma_flatten_trees_of(kids);
    assert(tree_size(tree) == kids.len() + 1);
}

/// The builder of one node: it collects the node's children, and
/// [`finish`](NodeBuilder::finish) gives the node its value and adds it, with
/// its children, to the forest or to the parent builder.
///
/// The fields are public so that contracts can speak of what the target holds
/// once the borrow ends.
pub struct NodeBuilder<'a, T> {
    /// Where the finished node goes: the forest for a root, the children of
    /// the parent builder for any other node.
    pub forest: &'a mut PackedForest<T>,
    /// The children finished so far.
    pub children: PackedForest<T>,
    /// The position of the node in the pre-order walk of the forest.
    pub index: usize,
}

impl<'a, T> View for NodeBuilder<'a, T> {
    type V = Seq<Tree<T>>;

    /// The children finished so far.
    open spec fn view(&self) -> Seq<Tree<T>> {
        self.children@
    }
}

impl<'a, T> NodeBuilder<'a, T> {
    /// The children and the target are well formed, and the position of the
    /// next child fits in a `usize`.
    pub open spec fn wf(&self) -> bool {
        &&& self.children.wf()
        &&& self.forest.wf()
        &&& self.index + self.children.raw().len() < usize::MAX
    }

    /// The number of nodes of the subtree built so far, the node itself
    /// included.
    pub open spec fn spec_subtree_size(&self) -> nat {
        self.children.raw().len() + 1
    }

    /// The position that the next child of this node gets.
    pub open spec fn next_child_index(&self) -> int {
        self.index + self.spec_subtree_size()
    }

    /// A fresh builder, without children yet, for the node at position
    /// `index`, which will be added to a target that now holds `base`.
    pub open spec fn is_new_at(&self, base: Seq<NodeData<T>>, index: int) -> bool {
        &&& self.wf()
        &&& self.forest.raw() == base
        &&& self.children.raw() == Seq::<NodeData<T>>::empty()
        &&& self.index == index
    }

    /// This builder is `prev` after some children were added or none: same
    /// position, same target, untouched.
    pub open spec fn extends(&self, prev: Self) -> bool {
        &&& self.wf()
        &&& self.index == prev.index
        &&& *self.forest == *prev.forest
    }

    /// The position of the node that is being built in the pre-order walk of
    /// the forest.
    pub fn index(&self) -> (r: usize)
        ensures
            r == self.index,
    {
        self.index
    }

    /// A builder for a new child of the node that is being built: its
    /// position is this node's position plus the size of what this node holds
    /// so far. The child is added when its builder is finished; dropping that
    /// builder instead adds nothing.
    pub fn get_child_builder<'b>(&'b mut self) -> (c: NodeBuilder<'b, T>)
        requires
            old(self).wf(),
            old(self).next_child_index() < usize::MAX,
        ensures
            c.is_new_at(old(self).children.raw(), old(self).next_child_index()),
            *final(c.forest) == final(self).children,
            final(self).index == old(self).index,
            *final(self).forest == *old(self).forest,
            *final(final(self).forest) == *final(old(self).forest),
    {
        let index = self.index + self.children.data.len() + 1;
        NodeBuilder { forest: &mut self.children, children: PackedForest::new(), index }
    }

    /// Finish the node: give it its value and add it, followed by its
    /// children, to the target. The size written is one more than the number
    /// of slots of the children. Returns a mutable reference to the node; the
    /// target ends up holding what it held, followed by what that reference
    /// holds when its borrow ends.
    pub fn finish(self, val: T) -> (r: NodeRefMut<'a, T>)
        requires
            self.wf(),
        ensures
            r.wf(),
            r.raw() == flatten_tree(Tree { val, children: self.children@ }),
            r.raw() == seq![
                NodeData { val, subtree_size: self.spec_subtree_size() as usize },
            ] + self.children.raw(),
            r@ == (Tree { val, children: self.children@ }),
            final(self.forest).raw() == old(self.forest).raw() + final(r.slice)@,
            old(self.forest).raw().len() + self.spec_subtree_size() <= usize::MAX,
            same_shape(r.raw(), final(r.slice)@)
                ==> final(self.forest).wf()
                    && final(self.forest)@ == old(self.forest)@ + trees_of(final(r.slice)@),
            final(r.slice)@ == r.raw() ==> final(self.forest)@ == old(self.forest)@.push(
                Tree { val, children: self.children@ },
            ),
    {
        let NodeBuilder { forest, mut children, index } = self;
        let data = &mut forest.data;
        let start = data.len();
        let ghost base = data@;
        let ghost kids = children.data@;
        data.push(NodeData { val, subtree_size: 1 });
        data.append(&mut children.data);
        let subtree_size = data.len() - start;
        data[start].subtree_size = subtree_size;
        let whole = data.as_mut_slice();
        let (head, slice) = whole.split_at_mut(start);
        proof {
            let node = NodeData { val, subtree_size: (kids.len() + 1) as usize };
            assert(slice@ =~= seq![node] + kids);
            assert(head@ =~= base);
            lemma_single(node, kids);
            lemma_append_tree(base, val, kids);
        }
        let r = NodeRefMut { slice };
        proof {
            let run = r.raw();
            assert forall|end: Seq<NodeData<T>>| #[trigger] same_shape(run, end) implies is_forest(
                base + end,
            ) && trees_of(base + end) == trees_of(base) + trees_of(end) by {
                lemma_same_shape(run, end);
                lemma_concat(base, end);
            }
            assert(trees_of(base) + trees_of(run) =~= trees_of(base).push(tree_of(run)));
        }
        r
    }

    /// Build a child with the given value and add it to the node that is
    /// being built. The callback adds the children of the child; what it
    /// returns is returned.
    pub fn build_child<R>(
        &mut self,
        val: T,
        child_builder_cb: impl FnOnce(&mut NodeBuilder<T>) -> R,
    ) -> (ret: R)
        requires
            old(self).wf(),
            old(self).next_child_index() < usize::MAX,
            forall|b: &mut NodeBuilder<T>|
                b.is_new_at(old(self).children.raw(), old(self).next_child_index())
                    ==> call_requires(child_builder_cb, (b,)),
            forall|b: &mut NodeBuilder<T>, r: R|
                b.is_new_at(old(self).children.raw(), old(self).next_child_index())
                    && call_ensures(child_builder_cb, (b,), r)
                    ==> final(b).extends(*b) && *final(final(b).forest) == *final(b.forest),
        ensures
            final(self).extends(*old(self)),
            *final(final(self).forest) == *final(old(self).forest),
            exists|b: &mut NodeBuilder<T>|
                b.is_new_at(old(self).children.raw(), old(self).next_child_index())
                    && #[trigger] call_ensures(child_builder_cb, (b,), ret)
                    && final(self)@ == old(self)@.push(
                    Tree { val, children: final(b).children@ },
                ) && final(self).children.raw() == old(self).children.raw() + (seq![
                    NodeData { val, subtree_size: final(b).spec_subtree_size() as usize },
                ] + final(b).children.raw()),
    {
        let mut builder = self.get_child_builder();
        let ret = child_builder_cb(&mut builder);
        let ghost base = builder.forest.raw();
        let ghost kids = builder.children.raw();
        builder.finish(val);
        proof {
            lemma_append_tree(base, val, kids);
        }
        ret
    }

    /// Build a child whose value is what the callback returns, and add it to
    /// the node that is being built. The callback adds the children of the
    /// child. Returns a mutable reference to the child.
    pub fn build_child_by_ret_val(
        &mut self,
        child_builder_cb: impl FnOnce(&mut NodeBuilder<T>) -> T,
    ) -> (r: NodeRefMut<'_, T>)
        requires
            old(self).wf(),
            old(self).next_child_index() < usize::MAX,
            forall|b: &mut NodeBuilder<T>|
                b.is_new_at(old(self).children.raw(), old(self).next_child_index())
                    ==> call_requires(child_builder_cb, (b,)),
            forall|b: &mut NodeBuilder<T>, v: T|
                b.is_new_at(old(self).children.raw(), old(self).next_child_index())
                    && call_ensures(child_builder_cb, (b,), v)
                    ==> final(b).extends(*b) && *final(final(b).forest) == *final(b.forest),
        ensures
            r.wf(),
            final(self).index == old(self).index,
            *final(self).forest == *old(self).forest,
            *final(final(self).forest) == *final(old(self).forest),
            final(self).children.raw() == old(self).children.raw() + final(r.slice)@,
            same_shape(r.raw(), final(r.slice)@)
                ==> final(self).wf() && final(self)@ == old(self)@ + trees_of(final(r.slice)@),
            exists|b: &mut NodeBuilder<T>, val: T|
                b.is_new_at(old(self).children.raw(), old(self).next_child_index())
                    && #[trigger] call_ensures(child_builder_cb, (b,), val)
                    && r@ == (Tree { val, children: final(b).children@ }) && r.raw() == seq![
                    NodeData { val, subtree_size: final(b).spec_subtree_size() as usize },
                ] + final(b).children.raw(),
    {
        let mut builder = self.get_child_builder();
        let val = child_builder_cb(&mut builder);
        builder.finish(val)
    }

    /// Add a child without children, with the given value, to the node that
    /// is being built. Returns a mutable reference to the child.
    pub fn add_child(&mut self, val: T) -> (r: NodeRefMut<'_, T>)
        requires
            old(self).wf(),
            old(self).next_child_index() < usize::MAX,
        ensures
            r.wf(),
            r.raw() == seq![NodeData { val, subtree_size: 1 }],
            r@ == (Tree { val, children: Seq::empty() }),
            final(self).index == old(self).index,
            *final(self).forest == *old(self).forest,
            *final(final(self).forest) == *final(old(self).forest),
            final(self).children.raw() == old(self).children.raw() + final(r.slice)@,
            same_shape(r.raw(), final(r.slice)@)
                ==> final(self).wf() && final(self)@ == old(self)@ + trees_of(final(r.slice)@),
            final(r.slice)@ == r.raw() ==> final(self)@ == old(self)@.push(
                Tree { val, children: Seq::empty() },
            ),
    {
        let r = self.get_child_builder().finish(val);
        proof {
            assert(r.raw() =~= seq![NodeData { val, subtree_size: 1 }]);
        }
        r
    }
}

/// An iterator over a run of sibling trees: the children of a node, or the
/// trees of a forest.
pub struct NodeIter<'t, T> {
    remaining_nodes: &'t [NodeData<T>],
}

impl<'t, T> Clone for NodeIter<'t, T> {
    fn clone(&self) -> (r: Self)
        ensures
            r == *self,
    {
        *self
    }
}

impl<'t, T> Copy for NodeIter<'t, T> {}

impl<'t, T> View for NodeIter<'t, T> {
    type V = Seq<Tree<T>>;

    /// The trees that the iterator has yet to yield.
    open spec fn view(&self) -> Seq<Tree<T>> {
        trees_of(self.raw())
    }
}

impl<'t, T> NodeIter<'t, T> {
    /// The flat form of what remains.
    pub closed spec fn raw(&self) -> Seq<NodeData<T>> {
        self.remaining_nodes@
    }

    /// What remains is the flat form of a list of trees.
    pub open spec fn wf(&self) -> bool {
        is_forest(self.raw())
    }

    /// The iterator over the trees that a well-formed run of slots holds.
    pub(crate) fn over(remaining_nodes: &'t [NodeData<T>]) -> (it: Self)
        ensures
            it.raw() == remaining_nodes@,
    {
        NodeIter { remaining_nodes }
    }

    /// The number of nodes that remain, descendants included.
    pub fn num_remaining_nodes_incl_descendants(&self) -> (r: usize)
        ensures
            r == self.raw().len(),
            self.wf() ==> r == forest_size(self@),
    {
        proof {
            if is_forest(self.remaining_nodes@) {
                lemma_flatten_trees_of(self.remaining_nodes@);
            }
        }
        self.remaining_nodes.len()
    }

    /// Yield the next tree of the run: its first slot says how many slots to
    /// split off.
    pub fn next(&mut self) -> (r: Option<NodeRef<'t, T>>)
        requires
            old(self).wf(),
        ensures
            final(self).wf(),
            r is None <==> old(self)@.len() == 0,
            r is None ==> *final(self) == *old(self),
            r is Some ==> {
                let n = r.unwrap();
                &&& n.wf()
                &&& n@ == old(self)@[0]
                &&& final(self)@ == old(self)@.drop_first()
                &&& old(self).raw() == n.raw() + final(self).raw()
            },
    {
        proof {
            crate::lemmas::lemma_trees_len(self.remaining_nodes@);
        }
        if self.remaining_nodes.len() == 0 {
            None
        } else {
            proof {
                lemma_first(self.remaining_nodes@);
            }
            let size = self.remaining_nodes[0].subtree_size;
            let (first, rest) = self.remaining_nodes.split_at(size);
            assert(self.remaining_nodes@ =~= first@ + rest@);
            self.remaining_nodes = rest;
            Some(NodeRef { slice: first })
        }
    }
}

impl<'t, T> From<NodeIterMut<'t, T>> for NodeIter<'t, T> {
    /// The mutable iterator, as a shared one. The slots end up holding what
    /// they hold now.
    fn from(val: NodeIterMut<'t, T>) -> (r: Self)
        ensures
            r.raw() == val.raw(),
            final(val.remaining_nodes)@ == val.raw(),
    {
        let NodeIterMut { remaining_nodes } = val;
        NodeIter { remaining_nodes: &*remaining_nodes }
    }
}

impl<'t, T> vstd::std_specs::convert::FromSpecImpl<NodeIterMut<'t, T>> for NodeIter<'t, T> {
    open spec fn obeys_from_spec() -> bool {
        true
    }

    closed spec fn from_spec(val: NodeIterMut<'t, T>) -> Self {
        NodeIter { remaining_nodes: &*val.remaining_nodes }
    }
}

/// A shared reference to a node of a forest and, through it, to its
/// descendants.
pub struct NodeRef<'t, T> {
    slice: &'t [NodeData<T>],
}

impl<'t, T> From<NodeRefMut<'t, T>> for NodeRef<'t, T> {
    /// The mutable reference, as a shared one. The slots end up holding what
    /// they hold now.
    fn from(val: NodeRefMut<'t, T>) -> (r: Self)
        ensures
            r.raw() == val.raw(),
            final(val.slice)@ == val.raw(),
    {
        let NodeRefMut { slice } = val;
        NodeRef { slice: &*slice }
    }
}

impl<'t, T> vstd::std_specs::convert::FromSpecImpl<NodeRefMut<'t, T>> for NodeRef<'t, T> {
    open spec fn obeys_from_spec() -> bool {
        true
    }

    closed spec fn from_spec(val: NodeRefMut<'t, T>) -> Self {
        NodeRef { slice: &*val.slice }
    }
}

impl<'t, T> Clone for NodeRef<'t, T> {
    fn clone(&self) -> (r: Self)
        ensures
            r == *self,
    {
        *self
    }
}

impl<'t, T> Copy for NodeRef<'t, T> {}

impl<'t, T> View for NodeRef<'t, T> {
    type V = Tree<T>;

    /// The tree rooted at the node.
    open spec fn view(&self) -> Tree<T> {
        tree_of(self.raw())
    }
}

impl<'t, T> NodeRef<'t, T> {
    /// The flat form of the node and its descendants.
    pub closed spec fn raw(&self) -> Seq<NodeData<T>> {
        self.slice@
    }

    /// The slots are the flat form of exactly one tree.
    pub open spec fn wf(&self) -> bool {
        is_tree(self.raw())
    }

    /// The reference to the node that a one-tree run of slots holds.
    pub(crate) fn over(slice: &'t [NodeData<T>]) -> (n: Self)
        ensures
            n.raw() == slice@,
    {
        NodeRef { slice }
    }

    /// An iterator over the children of this node.
    pub fn children(&self) -> (it: NodeIter<'t, T>)
        requires
            self.wf(),
        ensures
            it.wf(),
            it.raw() == self.raw().drop_first(),
            it@ == self@.children,
    {
        let (_, remaining_nodes) = self.slice.split_at(1);
        NodeIter { remaining_nodes }
    }

    /// The value of this node.
    pub fn val(&self) -> (r: &'t T)
        requires
            self.wf(),
        ensures
            *r == self@.val,
            *r == self.raw()[0].val,
    {
        &self.slice[0].val
    }

    /// The number of descendants of this node, the node itself included.
    pub fn num_descendants_incl_self(&self) -> (r: usize)
        requires
            self.wf(),
        ensures
            r == tree_size(self@),
            r == self.raw().len(),
    {
        proof {
            crate::lemmas::lemma_tree_len(self.slice@);
        }
        self.slice.len()
    }

    /// The number of descendants of this node, the node itself excluded.
    pub fn num_descendants_excl_self(&self) -> (r: usize)
        requires
            self.wf(),
        ensures
            r == forest_size(self@.children),
            r == self.raw().len() - 1,
    {
        proof {
            crate::lemmas::lemma_tree_len(self.slice@);
        }
        self.slice.len() - 1
    }
}

} // verus!
