//! Draining: moving the values out of a forest, tree by tree.

use vstd::prelude::*;
use crate::model::{NodeData, Tree, is_forest, trees_of, forest_size};
use crate::lemmas::{lemma_first, lemma_flatten_trees_of, lemma_trees_len};

verus! {

/// A draining iterator over a run of sibling trees. It owns the nodes that it
/// has yet to yield: dropping it drops them.
pub struct NodeListDrain<T> {
    // In reverse pre-order, so that the next node to yield is the last one.
    remaining_nodes: Vec<NodeData<T>>,
}

impl<T> View for NodeListDrain<T> {
    type V = Seq<Tree<T>>;

    /// The trees that the iterator has yet to yield.
    open spec fn view(&self) -> Seq<Tree<T>> {
        trees_of(self.raw())
    }
}

impl<T> NodeListDrain<T> {
    /// The flat form of what remains, in pre-order.
    pub closed spec fn raw(&self) -> Seq<NodeData<T>> {
        self.remaining_nodes@.reverse()
    }

    /// What remains is the flat form of a list of trees.
    pub open spec fn wf(&self) -> bool {
        is_forest(self.raw())
    }

    /// The draining iterator over the nodes of `nodes`, which holds them in
    /// reverse pre-order.
    pub(crate) fn over_reversed(nodes: Vec<NodeData<T>>) -> (d: Self)
        ensures
            d.raw() == nodes@.reverse(),
    {
        NodeListDrain { remaining_nodes: nodes }
    }

    /// The number of nodes that remain, descendants included.
    pub fn num_remaining_nodes_incl_descendants(&self) -> (r: usize)
        ensures
            r == self.raw().len(),
            self.wf() ==> r == forest_size(self@),
    {
        proof {
            if is_forest(self.raw()) {
                lemma_flatten_trees_of(self.raw());
            }
        }
        self.remaining_nodes.len()
    }

    /// Yield the next tree of the run: the value of its root, moved out, and
    /// a draining iterator over the children of that root.
    pub fn next(&mut self) -> (r: Option<NodeDrain<T>>)
        requires
            old(self).wf(),
        ensures
            final(self).wf(),
            r is None <==> old(self)@.len() == 0,
            r is None ==> final(self).raw() == old(self).raw(),
            r is Some ==> {
                let d = r.unwrap();
                &&& d.children.wf()
                &&& d.val == old(self)@[0].val
                &&& d.children@ == old(self)@[0].children
                &&& final(self)@ == old(self)@.drop_first()
                &&& d.val == old(self).raw()[0].val
                &&& old(self).raw()
                    == seq![old(self).raw()[0]] + d.children.raw() + final(self).raw()
            },
    {
        let ghost before = self.raw();
        let ghost stored = self.remaining_nodes@;
        proof {
            lemma_trees_len(before);
        }
        match self.remaining_nodes.pop() {
            None => None,
            Some(node) => {
                proof {
                    lemma_first(before);
                    assert(before[0] == stored[stored.len() - 1]);
                }
                let num_children_nodes = node.subtree_size - 1;
                let at = self.remaining_nodes.len() - num_children_nodes;
                let children = self.remaining_nodes.split_off(at);
                proof {
                    let n = node.subtree_size as int;
                    assert(children@.reverse() =~= before.subrange(1, n));
                    assert(self.remaining_nodes@.reverse() =~= before.subrange(
                        n,
                        before.len() as int,
                    ));
                    assert(before.subrange(0, n).subrange(1, n) =~= before.subrange(1, n));
                    assert(before =~= seq![before[0]] + before.subrange(1, n) + before.subrange(
                        n,
                        before.len() as int,
                    ));
                }
                Some(NodeDrain { val: node.val, children: NodeListDrain { remaining_nodes: children } })
            },
        }
    }
}

/// A node that is being drained: its value, moved out of the forest, and a
/// draining iterator over its children.
pub struct NodeDrain<T> {
    pub val: T,
    pub children: NodeListDrain<T>,
}

impl<T> NodeDrain<T> {
    /// The number of descendants of this node, the node itself included.
    pub fn num_descendants_incl_self(&self) -> (r: usize)
        requires
            self.children.raw().len() < usize::MAX,
        ensures
            r == self.children.raw().len() + 1,
            self.children.wf() ==> r == forest_size(self.children@) + 1,
    {
        self.children.num_remaining_nodes_incl_descendants() + 1
    }

    /// The number of descendants of this node, the node itself excluded.
    pub fn num_descendants_excl_self(&self) -> (r: usize)
        ensures
            r == self.children.raw().len(),
            self.children.wf() ==> r == forest_size(self.children@),
    {
        self.children.num_remaining_nodes_incl_descendants()
    }
}

} // verus!
