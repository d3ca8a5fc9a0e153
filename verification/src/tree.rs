//! A single tree: a forest that holds exactly one.

use vstd::prelude::*;
use crate::model::{NodeData, Tree, is_tree, trees_of, tree_of, tree_size, preorder, same_shape};
use crate::lemmas::{lemma_first, lemma_tree_len, lemma_tree_is_forest, lemma_trees_len};
use crate::forest::{PackedForest, NodeBuilder, NodeRef};
use crate::mutable::NodeRefMut;
use crate::drain::NodeDrain;

verus! {

/// A tree whose nodes are all stored in one `Vec` in pre-order, with one
/// `usize` of overhead per node. It is built in one go; afterwards values can
/// change, the shape cannot.
#[derive(Clone, PartialEq, Eq, Hash)]
pub struct PackedTree<T> {
    forest: PackedForest<T>,
}

impl<T> View for PackedTree<T> {
    type V = Tree<T>;

    /// The tree.
    open spec fn view(&self) -> Tree<T> {
        self.inner()@[0]
    }
}

impl<T> PackedTree<T> {
    /// The forest that holds the tree.
    pub closed spec fn inner(&self) -> PackedForest<T> {
        self.forest
    }

    /// The content of the backing array.
    pub open spec fn raw(&self) -> Seq<NodeData<T>> {
        self.inner().raw()
    }

    /// The forest is well formed and holds exactly one tree.
    pub open spec fn wf(&self) -> bool {
        &&& self.inner().wf()
        &&& self.inner()@.len() == 1
    }

    /// The array of a well-formed tree is the flat form of one tree: its
    /// first slot spans all of it.
    pub proof fn lemma_wf(&self)
        requires
            self.wf(),
        ensures
            is_tree(self.raw()),
            self@ == tree_of(self.raw()),
            self.raw().len() == tree_size(self@),
    {
        let s = self.raw();
        lemma_trees_len(s);
        lemma_first(s);
        let n = s[0].subtree_size as int;
        lemma_trees_len(s.subrange(n, s.len() as int));
        assert(trees_of(s).drop_first().len() == 0);
        assert(s.subrange(0, n) =~= s);
        lemma_tree_is_forest(s);
        lemma_tree_len(s);
    }

    /// Create a tree with the given root value. The callback adds the
    /// children of the root.
    pub fn new(root_val: T, node_builder_cb: impl FnOnce(&mut NodeBuilder<T>)) -> (t: PackedTree<T>)
        requires
            forall|b: &mut NodeBuilder<T>|
                b.is_new_at(Seq::empty(), 0) ==> call_requires(node_builder_cb, (b,)),
            forall|b: &mut NodeBuilder<T>, r: ()|
                b.is_new_at(Seq::empty(), 0) && call_ensures(node_builder_cb, (b,), r)
                    ==> final(b).extends(*b) && *final(final(b).forest) == *final(b.forest),
        ensures
            t.wf(),
            exists|b: &mut NodeBuilder<T>|
                b.is_new_at(Seq::empty(), 0) && #[trigger] call_ensures(node_builder_cb, (b,), ())
                    && t@ == (Tree { val: root_val, children: final(b).children@ }),
    {
        let mut forest = PackedForest::new();
        forest.build_tree(root_val, node_builder_cb);
        PackedTree { forest }
    }

    /// Create a tree whose root value is what the callback returns. The
    /// callback adds the children of the root.
    pub fn new_by_ret_val(node_builder_cb: impl FnOnce(&mut NodeBuilder<T>) -> T) -> (t: PackedTree<T>)
        requires
            forall|b: &mut NodeBuilder<T>|
                b.is_new_at(Seq::empty(), 0) ==> call_requires(node_builder_cb, (b,)),
            forall|b: &mut NodeBuilder<T>, r: T|
                b.is_new_at(Seq::empty(), 0) && call_ensures(node_builder_cb, (b,), r)
                    ==> final(b).extends(*b) && *final(final(b).forest) == *final(b.forest),
        ensures
            t.wf(),
            exists|b: &mut NodeBuilder<T>, root_val: T|
                b.is_new_at(Seq::empty(), 0) && #[trigger] call_ensures(
                    node_builder_cb,
                    (b,),
                    root_val,
                ) && t@ == (Tree { val: root_val, children: final(b).children@ }),
    {
        let mut forest = PackedForest::new();
        forest.build_tree_by_ret_val(node_builder_cb);
        PackedTree { forest }
    }

    /// Make a tree of a forest that holds exactly one tree; `None` for any
    /// other forest.
    pub fn try_from_forest(forest: PackedForest<T>) -> (r: Option<PackedTree<T>>)
        requires
            forest.wf(),
        ensures
            r is Some <==> forest@.len() == 1,
            r is Some ==> r.unwrap().wf() && r.unwrap().inner() == forest,
    {
        let mut iter = forest.iter_trees();
        let exactly_one = match iter.next() {
            Some(_) => iter.next().is_none(),
            None => false,
        };
        if exactly_one {
            Some(PackedTree { forest })
        } else {
            None
        }
    }

    /// A reference to the root of the tree.
    pub fn root(&self) -> (n: NodeRef<'_, T>)
        requires
            self.wf(),
        ensures
            n.wf(),
            n@ == self@,
            n.raw() == self.raw(),
    {
        proof {
            self.lemma_wf();
        }
        let mut iter = self.forest.iter_trees();
        let r = iter.next();
        proof {
            lemma_trees_len(iter.raw());
            assert(r.unwrap().raw() =~= self.raw());
        }
        r.unwrap()
    }

    /// A mutable reference to the root of the tree. The tree ends up holding
    /// what that reference holds when its borrow ends.
    pub fn root_mut(&mut self) -> (n: NodeRefMut<'_, T>)
        requires
            old(self).wf(),
        ensures
            n.wf(),
            n@ == old(self)@,
            n.raw() == old(self).raw(),
            final(self).raw() == final(n.slice)@,
    {
        proof {
            self.lemma_wf();
        }
        let mut iter = self.forest.iter_trees_mut();
        let r = iter.next();
        proof {
            lemma_trees_len(iter.raw());
            assert(r.unwrap().raw() =~= old(self).raw());
        }
        r.unwrap()
    }

    /// The node at position `index` of the pre-order walk of the tree, or
    /// `None` if the tree has no such position.
    pub fn get(&self, index: usize) -> (r: Option<NodeRef<'_, T>>)
        requires
            self.wf(),
        ensures
            r is Some <==> index < self.raw().len(),
            r is Some ==> {
                let n = r.unwrap();
                &&& n.wf()
                &&& index + self.raw()[index as int].subtree_size <= self.raw().len()
                &&& n.raw() == self.raw().subrange(
                    index as int,
                    index + self.raw()[index as int].subtree_size,
                )
                &&& n@ == preorder(seq![self@])[index as int]
            },
    {
        proof {
            self.lemma_wf();
            lemma_tree_is_forest(self.raw());
        }
        self.forest.get(index)
    }

    /// A mutable reference to the node at position `index` of the pre-order
    /// walk of the tree, or `None` if the tree has no such position.
    pub fn get_mut(&mut self, index: usize) -> (r: Option<NodeRefMut<'_, T>>)
        requires
            old(self).wf(),
        ensures
            r is Some <==> index < old(self).raw().len(),
            r is None ==> *final(self) == *old(self),
            r is Some ==> {
                let n = r.unwrap();
                let end = index + old(self).raw()[index as int].subtree_size;
                &&& n.wf()
                &&& end <= old(self).raw().len()
                &&& n.raw() == old(self).raw().subrange(index as int, end)
                &&& n@ == preorder(seq![old(self)@])[index as int]
                &&& final(self).raw()
                    == old(self).raw().subrange(0, index as int)
                        + final(n.slice)@
                        + old(self).raw().subrange(end, old(self).raw().len() as int)
            },
    {
        proof {
            self.lemma_wf();
            lemma_tree_is_forest(self.raw());
        }
        self.forest.get_mut(index)
    }

    /// The node at position `index` of the pre-order walk of the tree, for a
    /// caller who knows that the position exists.
    pub fn get_unchecked(&self, index: usize) -> (n: NodeRef<'_, T>)
        requires
            self.wf(),
            index < self.raw().len(),
        ensures
            n.wf(),
            index + self.raw()[index as int].subtree_size <= self.raw().len(),
            n.raw() == self.raw().subrange(
                index as int,
                index + self.raw()[index as int].subtree_size,
            ),
            n@ == preorder(seq![self@])[index as int],
    {
        proof {
            self.lemma_wf();
            lemma_tree_is_forest(self.raw());
        }
        self.forest.get_unchecked(index)
    }

    /// A mutable reference to the node at position `index` of the pre-order
    /// walk of the tree, for a caller who knows that the position exists.
    pub fn get_unchecked_mut(&mut self, index: usize) -> (n: NodeRefMut<'_, T>)
        requires
            old(self).wf(),
            index < old(self).raw().len(),
        ensures
            n.wf(),
            index + old(self).raw()[index as int].subtree_size <= old(self).raw().len(),
            n.raw() == old(self).raw().subrange(
                index as int,
                index + old(self).raw()[index as int].subtree_size,
            ),
            n@ == preorder(seq![old(self)@])[index as int],
            final(self).raw() == old(self).raw().subrange(0, index as int) + final(n.slice)@
                + old(self).raw().subrange(
                index + old(self).raw()[index as int].subtree_size,
                old(self).raw().len() as int,
            ),
    {
        proof {
            self.lemma_wf();
            lemma_tree_is_forest(self.raw());
        }
        self.forest.get_unchecked_mut(index)
    }

    /// Turn the tree into something that can be drained.
    pub fn drain(self) -> (d: PackedTreeDrain<T>)
        requires
            self.wf(),
        ensures
            d.wf(),
            d.inner() == self.inner(),
    {
        PackedTreeDrain { forest: self.forest }
    }

    /// The values of all the nodes of the tree, in pre-order.
    pub fn iter_flattened(&self) -> (r: Vec<&T>)
        ensures
            r@.len() == self.raw().len(),
            forall|i: int| 0 <= i < r@.len() ==> *(#[trigger] r@[i]) == self.raw()[i].val,
    {
        self.forest.iter_flattened()
    }

    /// The values of all the nodes of the tree, in pre-order, to change them.
    /// Each slot of the tree ends up holding what its reference holds when
    /// the borrow ends, with the size it had.
    pub fn iter_flattened_mut(&mut self) -> (r: Vec<&mut T>)
        ensures
            r@.len() == old(self).raw().len(),
            forall|i: int| 0 <= i < r@.len() ==> *(#[trigger] r@[i]) == old(self).raw()[i].val,
            final(self).raw().len() == old(self).raw().len(),
            forall|i: int|
                0 <= i < r@.len() ==> #[trigger] final(self).raw()[i] == (NodeData {
                    val: *final(r@[i]),
                    subtree_size: old(self).raw()[i].subtree_size,
                }),
            same_shape(old(self).raw(), final(self).raw()),
    {
        self.forest.iter_flattened_mut()
    }

    /// The backing array: one slot per node, in pre-order.
    pub fn raw_data(&self) -> (r: &Vec<NodeData<T>>)
        ensures
            r@ == self.raw(),
    {
        self.forest.raw_data()
    }

    /// The number of nodes of the tree.
    pub fn tot_num_nodes(&self) -> (r: usize)
        ensures
            r == self.raw().len(),
            self.wf() ==> r == tree_size(self@),
    {
        proof {
            if self.wf() {
                self.lemma_wf();
            }
        }
        self.forest.tot_num_nodes()
    }
}

impl<T> TryFrom<PackedForest<T>> for PackedTree<T> {
    type Error = ();

    /// Make a tree of a forest whose first slot spans all of it: for a
    /// well-formed forest, one that holds exactly one tree.
    fn try_from(forest: PackedForest<T>) -> (r: Result<Self, ()>)
        ensures
            r is Ok <==> forest.raw().len() > 0 && forest.raw()[0].subtree_size
                == forest.raw().len(),
            forest.wf() ==> (r is Ok <==> forest@.len() == 1),
            r matches Ok(t) ==> t.inner() == forest && (forest.wf() ==> t.wf()),
    {
        proof {
            let s = forest.raw();
            if forest.wf() && s.len() > 0 {
                lemma_first(s);
                lemma_trees_len(s.subrange(s[0].subtree_size as int, s.len() as int));
            }
            if forest.wf() {
                lemma_trees_len(s);
            }
        }
        let one_root = {
            let data = forest.raw_data();
            data.len() > 0 && data[0].subtree_size == data.len()
        };
        if one_root {
            Ok(PackedTree { forest })
        } else {
            Err(())
        }
    }
}

impl<T> vstd::std_specs::convert::TryFromSpecImpl<PackedForest<T>> for PackedTree<T> {
    open spec fn obeys_try_from_spec() -> bool {
        true
    }

    closed spec fn try_from_spec(forest: PackedForest<T>) -> Result<Self, ()> {
        if forest.raw().len() > 0 && forest.raw()[0].subtree_size == forest.raw().len() {
            Ok(PackedTree { forest })
        } else {
            Err(())
        }
    }
}

impl<T> From<PackedTree<T>> for PackedForest<T> {
    /// The forest that held the tree.
    fn from(tree: PackedTree<T>) -> (r: Self) {
        tree.forest
    }
}

impl<T> AsRef<PackedForest<T>> for PackedTree<T> {
    /// The forest that holds the tree.
    fn as_ref(&self) -> (r: &PackedForest<T>)
        ensures
            *r == self.inner(),
    {
        &self.forest
    }
}

impl<T> vstd::std_specs::convert::FromSpecImpl<PackedTree<T>> for PackedForest<T> {
    open spec fn obeys_from_spec() -> bool {
        true
    }

    open spec fn from_spec(tree: PackedTree<T>) -> Self {
        tree.inner()
    }
}

/// A tree that is being drained. It owns the nodes until they are drained.
pub struct PackedTreeDrain<T> {
    forest: PackedForest<T>,
}

impl<T> PackedTreeDrain<T> {
    /// The forest that holds what is left to drain.
    pub closed spec fn inner(&self) -> PackedForest<T> {
        self.forest
    }

    /// What is left is a well-formed forest.
    pub open spec fn wf(&self) -> bool {
        self.inner().wf()
    }

    /// The value of the root, moved out, and a draining iterator over the
    /// children of the root; `None` if the tree was drained before. Nothing
    /// is left afterwards.
    pub fn drain_root(&mut self) -> (r: Option<NodeDrain<T>>)
        requires
            old(self).wf(),
        ensures
            final(self).wf(),
            final(self).inner().raw() == Seq::<NodeData<T>>::empty(),
            r is None <==> old(self).inner()@.len() == 0,
            r is Some ==> {
                let d = r.unwrap();
                &&& d.children.wf()
                &&& d.val == old(self).inner()@[0].val
                &&& d.children@ == old(self).inner()@[0].children
            },
    {
        self.forest.drain_trees().next()
    }

    /// Move the values of all the nodes that are left out, in pre-order.
    /// Nothing is left afterwards.
    pub fn drain_flattened(&mut self) -> (r: Vec<T>)
        ensures
            r@.len() == old(self).inner().raw().len(),
            forall|i: int|
                0 <= i < r@.len() ==> #[trigger] r@[i] == old(self).inner().raw()[i].val,
            final(self).wf(),
            final(self).inner().raw() == Seq::<NodeData<T>>::empty(),
    {
        self.forest.drain_flattened()
    }
}

} // verus!
