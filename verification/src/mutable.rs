//! Exclusive views of a forest: they let values change, never the shape.

use vstd::prelude::*;
use crate::model::{NodeData, Tree, is_forest, is_tree, trees_of, tree_of, forest_size,
    tree_size};
use crate::lemmas::{lemma_first, lemma_flatten_trees_of, lemma_trees_len};
use crate::forest::{NodeIter, NodeRef};

verus! {

/// A mutable reference to a node of a forest and, through it, to its
/// descendants.
///
/// The slots are public so that contracts can speak of what they hold once
/// the borrow ends; the methods never change a size.
pub struct NodeRefMut<'t, T> {
    pub slice: &'t mut [NodeData<T>],
}

impl<'t, T> View for NodeRefMut<'t, T> {
    type V = Tree<T>;

    /// The tree rooted at the node.
    open spec fn view(&self) -> Tree<T> {
        tree_of(self.raw())
    }
}

impl<'t, T> NodeRefMut<'t, T> {
    /// The flat form of the node and its descendants, as it is now.
    pub open spec fn raw(&self) -> Seq<NodeData<T>> {
        self.slice@
    }

    /// The slots are the flat form of exactly one tree.
    pub open spec fn wf(&self) -> bool {
        is_tree(self.raw())
    }

    /// An iterator over the children of this node, for as long as the node
    /// itself was borrowed.
    pub fn into_children(self) -> (it: NodeIterMut<'t, T>)
        requires
            self.wf(),
        ensures
            it.wf(),
            it.raw() == self.raw().drop_first(),
            it@ == self@.children,
            final(self.slice)@ == seq![self.raw()[0]] + final(it.remaining_nodes)@,
    {
        let NodeRefMut { slice } = self;
        let ghost before = slice@;
        let (head, remaining_nodes) = slice.split_at_mut(1);
        proof {
            assert(remaining_nodes@ =~= before.drop_first());
            assert(head@ =~= seq![before[0]]);
        }
        NodeIterMut { remaining_nodes }
    }

    /// An iterator over the children of this node, for as long as this
    /// reference is borrowed.
    pub fn children(&mut self) -> (it: NodeIterMut<'_, T>)
        requires
            old(self).wf(),
        ensures
            it.wf(),
            it.raw() == old(self).raw().drop_first(),
            it@ == old(self)@.children,
            final(self).raw() == seq![old(self).raw()[0]] + final(it.remaining_nodes)@,
            final(final(self).slice)@ == final(old(self).slice)@,
    {
        let ghost before = self.slice@;
        let (head, remaining_nodes) = self.slice.split_at_mut(1);
        proof {
            assert(remaining_nodes@ =~= before.drop_first());
            assert(head@ =~= seq![before[0]]);
        }
        NodeIterMut { remaining_nodes }
    }

    /// The value of this node.
    pub fn val(&self) -> (r: &T)
        requires
            self.wf(),
        ensures
            *r == self@.val,
    {
        &self.slice[0].val
    }

    /// The value of this node, to change it. The size stays as it is.
    pub fn val_mut(&mut self) -> (r: &mut T)
        requires
            old(self).wf(),
        ensures
            *r == old(self)@.val,
            final(self).raw() == old(self).raw().update(
                0,
                NodeData { val: *final(r), subtree_size: old(self).raw()[0].subtree_size },
            ),
            final(final(self).slice)@ == final(old(self).slice)@,
            final(self).wf(),
            final(self)@ == (Tree { val: *final(r), children: old(self)@.children }),
    {
        proof {
            let s = self.slice@;
            assert forall|n: NodeData<T>| #[trigger]
                s.update(0, n).subrange(1, s.len() as int) =~= s.subrange(1, s.len() as int) by {}
        }
        &mut self.slice[0].val
    }

    /// This node, as a shared reference.
    pub fn reborrow_shared(&self) -> (r: NodeRef<'_, T>)
        requires
            self.wf(),
        ensures
            r.wf(),
            r.raw() == self.raw(),
            r@ == self@,
    {
        NodeRef::over(&*self.slice)
    }

    /// The number of descendants of this node, the node itself included.
    pub fn num_descendants_incl_self(&self) -> (r: usize)
        requires
            self.wf(),
        ensures
            r == tree_size(self@),
            r == self.raw().len(),
    {
        proof {
            crate::lemmas::lemma_tree_len(self.slice@);
        }
        self.slice.len()
    }

    /// The number of descendants of this node, the node itself excluded.
    pub fn num_descendants_excl_self(&self) -> (r: usize)
        requires
            self.wf(),
        ensures
            r == forest_size(self@.children),
            r == self.raw().len() - 1,
    {
        proof {
            crate::lemmas::lemma_tree_len(self.slice@);
        }
        self.slice.len() - 1
    }
}

/// A mutable iterator over a run of sibling trees.
///
/// The slots are public so that contracts can speak of what they hold once
/// the borrow ends; the methods never change a size.
pub struct NodeIterMut<'t, T> {
    pub remaining_nodes: &'t mut [NodeData<T>],
}

impl<'t, T> View for NodeIterMut<'t, T> {
    type V = Seq<Tree<T>>;

    /// The trees that the iterator has yet to yield.
    open spec fn view(&self) -> Seq<Tree<T>> {
        trees_of(self.raw())
    }
}

impl<'t, T> NodeIterMut<'t, T> {
    /// The flat form of what remains, as it is now.
    pub open spec fn raw(&self) -> Seq<NodeData<T>> {
        self.remaining_nodes@
    }

    /// What remains is the flat form of a list of trees.
    pub open spec fn wf(&self) -> bool {
        is_forest(self.raw())
    }

    /// Yield the next tree of the run: its first slot says how many slots to
    /// split off. What the whole run holds in the end is what the yielded
    /// node holds in the end, followed by what the rest holds in the end.
    pub fn next(&mut self) -> (r: Option<NodeRefMut<'t, T>>)
        requires
            old(self).wf(),
        ensures
            final(self).wf(),
            r is None <==> old(self)@.len() == 0,
            r is None ==> {
                &&& final(self).raw() == old(self).raw()
                &&& final(final(self).remaining_nodes)@ == final(old(self).remaining_nodes)@
            },
            r is Some ==> {
                let n = r.unwrap();
                &&& n.wf()
                &&& n@ == old(self)@[0]
                &&& final(self)@ == old(self)@.drop_first()
                &&& old(self).raw() == n.raw() + final(self).raw()
                &&& final(old(self).remaining_nodes)@
                    == final(n.slice)@ + final(final(self).remaining_nodes)@
            },
    {
        proof {
            lemma_trees_len(self.remaining_nodes@);
        }
        if self.remaining_nodes.len() == 0 {
            None
        } else {
            proof {
                lemma_first(self.remaining_nodes@);
            }
            let size = self.remaining_nodes[0].subtree_size;
            let mut whole: &'t mut [NodeData<T>] = &mut [];
            core::mem::swap(&mut self.remaining_nodes, &mut whole);
            let (first, rest) = whole.split_at_mut(size);
            assert(old(self).remaining_nodes@ =~= first@ + rest@);
            self.remaining_nodes = rest;
            Some(NodeRefMut { slice: first })
        }
    }

    /// This iterator, as a shared one.
    pub fn reborrow_shared(&self) -> (r: NodeIter<'_, T>)
        requires
            self.wf(),
        ensures
            r.wf(),
            r.raw() == self.raw(),
            r@ == self@,
    {
        NodeIter::over(&*self.remaining_nodes)
    }

    /// The number of nodes that remain, descendants included.
    pub fn num_remaining_nodes_incl_descendants(&self) -> (r: usize)
        ensures
            r == self.raw().len(),
            self.wf() ==> r == forest_size(self@),
    {
        proof {
            if is_forest(self.remaining_nodes@) {
                lemma_flatten_trees_of(self.remaining_nodes@);
            }
        }
        self.remaining_nodes.len()
    }
}

} // verus!
