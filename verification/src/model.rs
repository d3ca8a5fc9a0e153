//! The mathematical model: logical trees, their flat pre-order form, and the
//! facts that relate the two.

use vstd::prelude::*;

verus! {

/// What the backing array stores per node: the node's value and the number of
/// nodes in the subtree rooted at it (the node itself included).
#[derive(Clone, Copy, PartialEq, Eq, Hash, Debug)]
pub struct NodeData<T> {
    pub val: T,
    pub subtree_size: usize,
}

impl<T> NodeData<T> {
    /// The value of the node.
    pub fn val(&self) -> (r: &T)
        ensures
            *r == self.val,
    {
        &self.val
    }

    /// The number of nodes in the subtree that has this node as root.
    pub fn subtree_size(&self) -> (r: usize)
        ensures
            r == self.subtree_size,
    {
        self.subtree_size
    }
}

/// A logical tree: a value and the ordered list of its children.
#[verifier::ext_equal]
pub ghost struct Tree<T> {
    pub val: T,
    pub children: Seq<Tree<T>>,
}

/// Number of nodes of a tree: one for the root plus the sizes of its children.
pub open spec fn tree_size<T>(t: Tree<T>) -> nat
    decreases t,
{
    1 + forest_size(t.children)
}

/// Number of nodes of a list of trees.
pub open spec fn forest_size<T>(ts: Seq<Tree<T>>) -> nat
    decreases ts,
{
    if ts.len() == 0 {
        0
    } else {
        tree_size(ts[0]) + forest_size(ts.drop_first())
    }
}

/// The nodes visited by a pre-order walk of one tree, each given as the
/// subtree rooted at it: the root first, then the walk of its children.
pub open spec fn preorder_tree<T>(t: Tree<T>) -> Seq<Tree<T>>
    decreases t,
{
    seq![t] + preorder(t.children)
}

/// The nodes visited by a pre-order walk of a list of trees, tree after tree.
pub open spec fn preorder<T>(ts: Seq<Tree<T>>) -> Seq<Tree<T>>
    decreases ts,
{
    if ts.len() == 0 {
        Seq::empty()
    } else {
        preorder_tree(ts[0]) + preorder(ts.drop_first())
    }
}

/// The array slot that stands for the root of `t`.
pub open spec fn record<T>(t: Tree<T>) -> NodeData<T> {
    NodeData { val: t.val, subtree_size: tree_size(t) as usize }
}

/// The flat form of one tree: its root's slot, then the flat form of its
/// children.
pub open spec fn flatten_tree<T>(t: Tree<T>) -> Seq<NodeData<T>>
    decreases t,
{
    seq![record(t)] + flatten(t.children)
}

/// The flat form of a list of trees: the flat forms of the trees, back to back.
pub open spec fn flatten<T>(ts: Seq<Tree<T>>) -> Seq<NodeData<T>>
    decreases ts,
{
    if ts.len() == 0 {
        Seq::empty()
    } else {
        flatten_tree(ts[0]) + flatten(ts.drop_first())
    }
}

/// Whether `s` is the flat form of a list of trees: empty, or a first slot
/// whose size spans a well-formed run of children, followed by a well-formed
/// run of siblings.
pub open spec fn is_forest<T>(s: Seq<NodeData<T>>) -> bool
    decreases s.len(),
{
    s.len() == 0 || {
        let n = s[0].subtree_size as int;
        &&& 1 <= n <= s.len()
        &&& is_forest(s.subrange(1, n))
        &&& is_forest(s.subrange(n, s.len() as int))
    }
}

/// Whether `s` is the flat form of exactly one tree.
pub open spec fn is_tree<T>(s: Seq<NodeData<T>>) -> bool {
    &&& s.len() >= 1
    &&& s[0].subtree_size == s.len()
    &&& is_forest(s.subrange(1, s.len() as int))
}

/// The list of trees that a flat sequence stands for.
pub open spec fn trees_of<T>(s: Seq<NodeData<T>>) -> Seq<Tree<T>>
    decreases s.len(),
{
    if s.len() == 0 {
        Seq::empty()
    } else {
        let n = s[0].subtree_size as int;
        if 1 <= n <= s.len() {
            seq![Tree { val: s[0].val, children: trees_of(s.subrange(1, n)) }] + trees_of(
                s.subrange(n, s.len() as int),
            )
        } else {
            Seq::empty()
        }
    }
}

/// The tree that a flat sequence holding one tree stands for.
pub open spec fn tree_of<T>(s: Seq<NodeData<T>>) -> Tree<T> {
    Tree { val: s[0].val, children: trees_of(s.subrange(1, s.len() as int)) }
}

/// Whether two flat sequences have the same length and the same sizes slot by
/// slot, so that they differ at most in the values.
pub open spec fn same_shape<T>(a: Seq<NodeData<T>>, b: Seq<NodeData<T>>) -> bool {
    &&& a.len() == b.len()
    &&& forall|i: int| 0 <= i < a.len() ==> (#[trigger] a[i]).subtree_size == b[i].subtree_size
}

} // verus!
