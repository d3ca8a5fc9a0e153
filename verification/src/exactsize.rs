//! Forests whose nodes also record how many children they have, so that an
//! iterator over siblings knows how many are left.

use vstd::prelude::*;
use crate::model::{NodeData, Tree, is_forest, is_tree, trees_of, tree_of, forest_size,
    tree_size, preorder, same_shape};
use crate::lemmas::{lemma_first, lemma_node, lemma_tree_is_forest, lemma_trees_len,
    lemma_same_shape, lemma_concat, lemma_single};
use crate::forest::{PackedForest, NodeBuilder, NodeIter, NodeRef};
use crate::mutable::{NodeIterMut, NodeRefMut};
use crate::drain::{NodeDrain, NodeListDrain};

verus! {

/// A value together with the number of children of the node that holds it.
#[derive(Default, Clone, PartialEq, Eq, Hash)]
pub struct ExactSize<T> {
    pub val: T,
    pub num_children: usize,
}

/// The number of children of the node at position `i` of a run.
pub open spec fn child_count<T>(s: Seq<NodeData<T>>, i: int) -> nat {
    trees_of(s.subrange(i + 1, i + s[i].subtree_size)).len()
}

/// Every node of the run records the number of children it has.
pub open spec fn counted<T>(s: Seq<NodeData<ExactSize<T>>>) -> bool {
    forall|i: int| 0 <= i < s.len() ==> s[i].val.num_children == #[trigger] child_count(s, i)
}

/// A well-formed run whose nodes record their numbers of children.
pub open spec fn exact<T>(s: Seq<NodeData<ExactSize<T>>>) -> bool {
    is_forest(s) && counted(s)
}

/// Two runs record the same numbers of children, slot by slot.
pub open spec fn same_counts<T>(a: Seq<NodeData<ExactSize<T>>>, b: Seq<NodeData<ExactSize<T>>>) -> bool {
    &&& a.len() == b.len()
    &&& forall|i: int| 0 <= i < a.len()
        ==> (#[trigger] a[i]).val.num_children == b[i].val.num_children
}

/// A well-formed part of a counted run is counted.
pub proof fn lemma_counted_sub<T>(s: Seq<NodeData<ExactSize<T>>>, a: int, b: int)
    requires
        counted(s),
        0 <= a <= b <= s.len(),
        is_forest(s.subrange(a, b)),
    ensures
        counted(s.subrange(a, b)),
{
    let sub = s.subrange(a, b);
    assert forall|i: int| 0 <= i < sub.len() implies sub[i].val.num_children
        == #[trigger] child_count(
        sub,
        i,
    ) by {
        lemma_node(sub, i);
        assert(sub[i] == s[a + i]);
        let m = sub[i].subtree_size as int;
        assert(sub.subrange(i + 1, i + m) =~= s.subrange(a + i + 1, a + i + m));
        assert(s[a + i].val.num_children == child_count(s, a + i));
    }
}

/// Two counted runs placed back to back form a counted run.
pub proof fn lemma_counted_concat<T>(a: Seq<NodeData<ExactSize<T>>>, b: Seq<NodeData<ExactSize<T>>>)
    requires
        exact(a),
        exact(b),
    ensures
        exact(a + b),
        trees_of(a + b) == trees_of(a) + trees_of(b),
{
    lemma_concat(a, b);
    let s = a + b;
    assert forall|i: int| 0 <= i < s.len() implies s[i].val.num_children == #[trigger] child_count(
        s,
        i,
    ) by {
        if i < a.len() {
            lemma_node(a, i);
            let m = a[i].subtree_size as int;
            assert(s.subrange(i + 1, i + m) =~= a.subrange(i + 1, i + m));
            assert(a[i].val.num_children == child_count(a, i));
        } else {
            let j = i - a.len();
            lemma_node(b, j);
            let m = b[j].subtree_size as int;
            assert(s.subrange(i + 1, i + m) =~= b.subrange(j + 1, j + m));
            assert(b[j].val.num_children == child_count(b, j));
        }
    }
}

/// A slot that records the number of trees of the counted run that follows
/// it, and spans that run, forms with it a counted one-tree run.
pub proof fn lemma_counted_single<T>(node: NodeData<ExactSize<T>>, kids: Seq<NodeData<ExactSize<T>>>)
    requires
        exact(kids),
        node.subtree_size == kids.len() + 1,
        node.val.num_children == trees_of(kids).len(),
    ensures
        exact(seq![node] + kids),
        is_tree(seq![node] + kids),
{
    lemma_single(node, kids);
    let s = seq![node] + kids;
    assert forall|i: int| 0 <= i < s.len() implies s[i].val.num_children == #[trigger] child_count(
        s,
        i,
    ) by {
        if i == 0 {
            assert(s.subrange(1, s.len() as int) =~= kids);
        } else {
            let j = i - 1;
            lemma_node(kids, j);
            let m = kids[j].subtree_size as int;
            assert(s.subrange(i + 1, i + m) =~= kids.subrange(j + 1, j + m));
            assert(kids[j].val.num_children == child_count(kids, j));
        }
    }
}

/// Changing values only, neither sizes nor recorded numbers of children,
/// keeps a run counted.
pub proof fn lemma_counted_same<T>(a: Seq<NodeData<ExactSize<T>>>, b: Seq<NodeData<ExactSize<T>>>)
    requires
        exact(a),
        same_shape(a, b),
        same_counts(a, b),
    ensures
        exact(b),
        trees_of(b).len() == trees_of(a).len(),
{
    lemma_same_shape(a, b);
    assert forall|i: int| 0 <= i < b.len() implies b[i].val.num_children == #[trigger] child_count(
        b,
        i,
    ) by {
        lemma_node(a, i);
        let m = a[i].subtree_size as int;
        let sa = a.subrange(i + 1, i + m);
        let sb = b.subrange(i + 1, i + m);
        assert(is_forest(sa)) by {
            let t = a.subrange(i, i + m);
            assert(t.subrange(1, m) =~= sa);
        }
        assert(same_shape(sa, sb)) by {
            assert forall|k: int| 0 <= k < sa.len() implies (#[trigger] sa[k]).subtree_size
                == sb[k].subtree_size by {
                assert(sa[k] == a[i + 1 + k]);
                assert(sb[k] == b[i + 1 + k]);
            }
        }
        lemma_same_shape(sa, sb);
        assert(a[i].val.num_children == child_count(a, i));
        assert(a[i].subtree_size == b[i].subtree_size);
    }
}

/// The children of the root of a counted one-tree run form a counted run,
/// and the root records how many trees that run holds.
pub proof fn lemma_counted_children<T>(s: Seq<NodeData<ExactSize<T>>>)
    requires
        is_tree(s),
        counted(s),
    ensures
        exact(s.subrange(1, s.len() as int)),
        s[0].val.num_children == trees_of(s.subrange(1, s.len() as int)).len(),
        s[0].val.num_children == tree_of(s).children.len(),
{
    lemma_counted_sub(s, 1, s.len() as int);
    assert(s[0].val.num_children == child_count(s, 0));
}

/// The first tree of a counted run and what follows it are counted.
pub proof fn lemma_counted_first<T>(s: Seq<NodeData<ExactSize<T>>>)
    requires
        exact(s),
        s.len() > 0,
    ensures
        1 <= s[0].subtree_size <= s.len(),
        is_tree(s.subrange(0, s[0].subtree_size as int)),
        counted(s.subrange(0, s[0].subtree_size as int)),
        exact(s.subrange(s[0].subtree_size as int, s.len() as int)),
{
    lemma_first(s);
    let n = s[0].subtree_size as int;
    lemma_tree_is_forest(s.subrange(0, n));
    lemma_counted_sub(s, 0, n);
    lemma_counted_sub(s, n, s.len() as int);
}

/// Split a non-empty run of slots into the value of the first slot and the
/// other slots, both to change them. The run ends up holding the first slot
/// with its new value, its old number of children and its old size, followed
/// by what the other slots end up holding.
fn split_first_val_mut<'a, T>(slice: &'a mut [NodeData<ExactSize<T>>]) -> (r: (
    &'a mut T,
    &'a mut [NodeData<ExactSize<T>>],
))
    requires
        old(slice)@.len() > 0,
    ensures
        *r.0 == old(slice)@[0].val.val,
        r.1@ == old(slice)@.drop_first(),
        final(slice)@ == seq![
            NodeData {
                val: ExactSize {
                    val: *final(r.0),
                    num_children: old(slice)@[0].val.num_children,
                },
                subtree_size: old(slice)@[0].subtree_size,
            },
        ] + final(r.1)@,
{
    let (head, tail) = slice.split_at_mut(1);
    assert(tail@ =~= old(slice)@.drop_first());
    (&mut head[0].val.val, tail)
}

/// A variant of [`PackedForest`] whose nodes keep track of how many children
/// they have, and which keeps track of how many trees it has.
#[derive(Clone, PartialEq, Eq, Hash)]
pub struct ExactSizePackedForest<T> {
    forest: PackedForest<ExactSize<T>>,
    num_trees: usize,
}

impl<T> View for ExactSizePackedForest<T> {
    type V = Seq<Tree<ExactSize<T>>>;

    /// The trees of the forest, in order; each value comes with the number
    /// of children of its node.
    open spec fn view(&self) -> Seq<Tree<ExactSize<T>>> {
        self.inner()@
    }
}

impl<T> Default for ExactSizePackedForest<T> {
    fn default() -> (r: Self)
        ensures
            r.wf(),
            r.raw() == Seq::<NodeData<ExactSize<T>>>::empty(),
    {
        ExactSizePackedForest::new()
    }
}

impl<T> ExactSizePackedForest<T> {
    /// The forest underneath.
    pub closed spec fn inner(&self) -> PackedForest<ExactSize<T>> {
        self.forest
    }

    /// The number of trees that the forest keeps track of.
    pub closed spec fn spec_num_trees(&self) -> usize {
        self.num_trees
    }

    /// The content of the backing array.
    pub open spec fn raw(&self) -> Seq<NodeData<ExactSize<T>>> {
        self.inner().raw()
    }

    /// The array is the flat form of a list of trees, every node records the
    /// number of children it has, and the forest the number of its trees.
    pub open spec fn wf(&self) -> bool {
        &&& exact(self.raw())
        &&& self.spec_num_trees() == self@.len()
    }

    /// Create a new, empty forest.
    pub fn new() -> (r: ExactSizePackedForest<T>)
        ensures
            r.wf(),
            r.raw() == Seq::<NodeData<ExactSize<T>>>::empty(),
    {
        ExactSizePackedForest { forest: PackedForest::new(), num_trees: 0 }
    }

    /// Create a new, empty forest whose array has room for `capacity` nodes.
    pub fn with_capacity(capacity: usize) -> (r: ExactSizePackedForest<T>)
        ensures
            r.wf(),
            r.raw() == Seq::<NodeData<ExactSize<T>>>::empty(),
    {
        ExactSizePackedForest { forest: PackedForest::with_capacity(capacity), num_trees: 0 }
    }

    /// An iterator over the trees of this forest, which knows how many there
    /// are.
    pub fn iter_trees(&self) -> (it: ExactSizeNodeIter<'_, T>)
        requires
            self.wf(),
        ensures
            it.wf(),
            it.raw() == self.raw(),
            it@ == self@,
            it.spec_len() == self@.len(),
    {
        ExactSizeNodeIter { sub_iter: self.forest.iter_trees(), len: self.num_trees }
    }

    /// The node at position `index` of the pre-order walk of the forest, or
    /// `None` if the forest has no such position.
    pub fn get(&self, index: usize) -> (r: Option<ExactSizeNodeRef<'_, T>>)
        requires
            self.wf(),
        ensures
            r is Some <==> index < self.raw().len(),
            r is Some ==> {
                let n = r.unwrap();
                &&& n.wf()
                &&& index + self.raw()[index as int].subtree_size <= self.raw().len()
                &&& n.raw() == self.raw().subrange(
                    index as int,
                    index + self.raw()[index as int].subtree_size,
                )
                &&& n@ == preorder(self@)[index as int]
            },
    {
        match self.forest.get(index) {
            Some(sub_ref) => {
                proof {
                    lemma_tree_is_forest(sub_ref.raw());
                    lemma_counted_sub(
                        self.raw(),
                        index as int,
                        index + self.raw()[index as int].subtree_size,
                    );
                }
                Some(ExactSizeNodeRef { sub_ref })
            },
            None => None,
        }
    }

    /// The node at position `index` of the pre-order walk of the forest, for
    /// a caller who knows that the position exists.
    pub fn get_unchecked(&self, index: usize) -> (n: ExactSizeNodeRef<'_, T>)
        requires
            self.wf(),
            index < self.raw().len(),
        ensures
            n.wf(),
            index + self.raw()[index as int].subtree_size <= self.raw().len(),
            n.raw() == self.raw().subrange(
                index as int,
                index + self.raw()[index as int].subtree_size,
            ),
            n@ == preorder(self@)[index as int],
    {
        let sub_ref = self.forest.get_unchecked(index);
        proof {
            lemma_tree_is_forest(sub_ref.raw());
            lemma_counted_sub(
                self.raw(),
                index as int,
                index + self.raw()[index as int].subtree_size,
            );
        }
        ExactSizeNodeRef { sub_ref }
    }

    /// Remove all nodes from the forest.
    pub fn clear(&mut self)
        ensures
            final(self).wf(),
            final(self).raw() == Seq::<NodeData<ExactSize<T>>>::empty(),
    {
        self.forest.clear();
        self.num_trees = 0;
    }

    /// The values of all the nodes of the forest, in pre-order.
    pub fn iter_flattened(&self) -> (r: Vec<&T>)
        ensures
            r@.len() == self.raw().len(),
            forall|i: int| 0 <= i < r@.len() ==> *(#[trigger] r@[i]) == self.raw()[i].val.val,
    {
        let data = self.forest.raw_data();
        let mut out: Vec<&T> = Vec::with_capacity(data.len());
        let mut i: usize = 0;
        while i < data.len()
            invariant
                i <= data@.len(),
                out@.len() == i,
                forall|k: int| 0 <= k < i ==> *(#[trigger] out@[k]) == data@[k].val.val,
            decreases data@.len() - i,
        {
            out.push(&data[i].val.val);
            i += 1;
        }
        out
    }

    /// The values of all the nodes of the forest, in pre-order, to change
    /// them. Each slot of the forest ends up holding what its reference holds
    /// when the borrow ends, with the number of children and the size it had.
    pub fn iter_flattened_mut(&mut self) -> (r: Vec<&mut T>)
        ensures
            r@.len() == old(self).raw().len(),
            forall|i: int| 0 <= i < r@.len() ==> *(#[trigger] r@[i]) == old(self).raw()[i].val.val,
            final(self).raw().len() == old(self).raw().len(),
            final(self).spec_num_trees() == old(self).spec_num_trees(),
            forall|i: int|
                0 <= i < r@.len() ==> #[trigger] final(self).raw()[i] == (NodeData {
                    val: ExactSize {
                        val: *final(r@[i]),
                        num_children: old(self).raw()[i].val.num_children,
                    },
                    subtree_size: old(self).raw()[i].subtree_size,
                }),
            same_shape(old(self).raw(), final(self).raw()),
            same_counts(old(self).raw(), final(self).raw()),
    {
        let ghost before = self.raw();
        let mut out: Vec<&mut T> = Vec::with_capacity(self.forest.tot_num_nodes());
        let mut rest: &mut [NodeData<ExactSize<T>>] = self.forest.slots_mut();
        while rest.len() > 0
            invariant
                out@.len() + rest@.len() == before.len(),
                rest@ == before.subrange(out@.len() as int, before.len() as int),
                forall|i: int| 0 <= i < out@.len() ==> *(#[trigger] out@[i]) == before[i].val.val,
                after_borrow(self.forest).raw().len() == out@.len() + final(rest)@.len(),
                forall|i: int|
                    0 <= i < out@.len() ==> #[trigger] after_borrow(self.forest).raw()[i]
                        == (NodeData {
                        val: ExactSize {
                            val: *final(out@[i]),
                            num_children: before[i].val.num_children,
                        },
                        subtree_size: before[i].subtree_size,
                    }),
                after_borrow(self.forest).raw().subrange(
                    out@.len() as int,
                    after_borrow(self.forest).raw().len() as int,
                ) == final(rest)@,
            decreases rest@.len(),
        {
            let ghost k = out@.len() as int;
            assert(rest@[0] == before[k]);
            let (val, tail) = split_first_val_mut(rest);
            out.push(val);
            rest = tail;
            assert(rest@ =~= before.subrange(k + 1, before.len() as int));
            assert(after_borrow(self.forest).raw()[k] == after_borrow(self.forest).raw().subrange(
                k,
                after_borrow(self.forest).raw().len() as int,
            )[0]);
            assert(after_borrow(self.forest).raw().subrange(
                k + 1,
                after_borrow(self.forest).raw().len() as int,
            ) =~= after_borrow(self.forest).raw().subrange(
                k,
                after_borrow(self.forest).raw().len() as int,
            ).drop_first());
        }
        out
    }

    /// Move the values of all the nodes out of the forest, in pre-order. The
    /// forest is empty from now on.
    pub fn drain_flattened(&mut self) -> (r: Vec<T>)
        ensures
            r@.len() == old(self).raw().len(),
            forall|i: int| 0 <= i < r@.len() ==> #[trigger] r@[i] == old(self).raw()[i].val.val,
            final(self).wf(),
            final(self).raw() == Seq::<NodeData<ExactSize<T>>>::empty(),
    {
        let ghost before = self.raw();
        let mut drained = self.forest.drain_flattened();
        self.num_trees = 0;
        let mut reversed: Vec<T> = Vec::with_capacity(drained.len());
        while drained.len() > 0
            invariant
                drained@.len() + reversed@.len() == before.len(),
                forall|i: int| 0 <= i < drained@.len() ==> #[trigger] drained@[i] == before[i].val,
                forall|k: int|
                    0 <= k < reversed@.len() ==> #[trigger] reversed@[k] == before[before.len() - 1
                        - k].val.val,
            decreases drained@.len(),
        {
            match drained.pop() {
                Some(exact_size) => {
                    reversed.push(exact_size.val);
                },
                None => {},
            }
        }
        let mut out: Vec<T> = Vec::with_capacity(reversed.len());
        while reversed.len() > 0
            invariant
                out@.len() + reversed@.len() == before.len(),
                forall|k: int|
                    0 <= k < reversed@.len() ==> #[trigger] reversed@[k] == before[before.len() - 1
                        - k].val.val,
                forall|i: int| 0 <= i < out@.len() ==> #[trigger] out@[i] == before[i].val.val,
            decreases reversed@.len(),
        {
            match reversed.pop() {
                Some(val) => {
                    out.push(val);
                },
                None => {},
            }
        }
        out
    }

    /// The backing array: one slot per node, in pre-order.
    pub fn raw_data(&self) -> (r: &Vec<NodeData<ExactSize<T>>>)
        ensures
            r@ == self.raw(),
    {
        self.forest.raw_data()
    }

    /// The number of nodes of all the trees of the forest.
    pub fn tot_num_nodes(&self) -> (r: usize)
        ensures
            r == self.raw().len(),
            self.wf() ==> r == forest_size(self@),
    {
        self.forest.tot_num_nodes()
    }
}

/// An iterator over a run of sibling trees that knows how many are left.
pub struct ExactSizeNodeIter<'t, T> {
    sub_iter: NodeIter<'t, ExactSize<T>>,
    len: usize,
}

impl<'t, T> Clone for ExactSizeNodeIter<'t, T> {
    fn clone(&self) -> (r: Self)
        ensures
            r == *self,
    {
        *self
    }
}

impl<'t, T> Copy for ExactSizeNodeIter<'t, T> {}

impl<'t, T> View for ExactSizeNodeIter<'t, T> {
    type V = Seq<Tree<ExactSize<T>>>;

    /// The trees that the iterator has yet to yield.
    open spec fn view(&self) -> Seq<Tree<ExactSize<T>>> {
        trees_of(self.raw())
    }
}

impl<'t, T> ExactSizeNodeIter<'t, T> {
    /// The flat form of what remains.
    pub closed spec fn raw(&self) -> Seq<NodeData<ExactSize<T>>> {
        self.sub_iter.raw()
    }

    /// The number of trees that the iterator says are left.
    pub closed spec fn spec_len(&self) -> usize {
        self.len
    }

    /// What remains is a counted run, and the iterator knows how many trees
    /// it holds.
    pub open spec fn wf(&self) -> bool {
        &&& exact(self.raw())
        &&& self.spec_len() == self@.len()
    }

    /// The iterator over the trees of a counted run, of which there are
    /// `len`.
    pub(crate) fn over(sub_iter: NodeIter<'t, ExactSize<T>>, len: usize) -> (it: Self)
        ensures
            it.raw() == sub_iter.raw(),
            it.spec_len() == len,
    {
        ExactSizeNodeIter { sub_iter, len }
    }

    /// The number of nodes that remain, descendants included.
    pub fn num_remaining_nodes_incl_descendants(&self) -> (r: usize)
        ensures
            r == self.raw().len(),
            self.wf() ==> r == forest_size(self@),
    {
        self.sub_iter.num_remaining_nodes_incl_descendants()
    }

    /// The number of trees that are left to yield.
    pub fn len(&self) -> (r: usize)
        ensures
            r == self.spec_len(),
            self.wf() ==> r == self@.len(),
    {
        self.len
    }

    /// The number of trees that are left to yield, as a lower and an upper
    /// bound.
    pub fn size_hint(&self) -> (r: (usize, Option<usize>))
        ensures
            r == (self.spec_len(), Some(self.spec_len())),
    {
        (self.len, Some(self.len))
    }

    /// Yield the next tree of the run.
    pub fn next(&mut self) -> (r: Option<ExactSizeNodeRef<'t, T>>)
        requires
            old(self).wf(),
        ensures
            final(self).wf(),
            r is None <==> old(self)@.len() == 0,
            r is None ==> *final(self) == *old(self),
            r is Some ==> {
                let n = r.unwrap();
                &&& n.wf()
                &&& n@ == old(self)@[0]
                &&& final(self)@ == old(self)@.drop_first()
                &&& final(self).spec_len() == old(self).spec_len() - 1
                &&& old(self).raw() == n.raw() + final(self).raw()
            },
    {
        let ghost before = self.raw();
        proof {
            lemma_trees_len(before);
            if before.len() > 0 {
                lemma_counted_first(before);
            }
        }
        match self.sub_iter.next() {
            Some(sub_ref) => {
                proof {
                    let n = before[0].subtree_size as int;
                    lemma_first(before);
                    assert(sub_ref.raw().len() == n) by {
                        crate::lemmas::lemma_tree_len(sub_ref.raw());
                        crate::lemmas::lemma_tree_len(before.subrange(0, n));
                    }
                    assert(sub_ref.raw() =~= before.subrange(0, n));
                    assert(self.sub_iter.raw() =~= before.subrange(n, before.len() as int));
                }
                self.len = self.len - 1;
                Some(ExactSizeNodeRef { sub_ref })
            },
            None => None,
        }
    }
}

impl<'t, T> From<ExactSizeNodeIterMut<'t, T>> for ExactSizeNodeIter<'t, T> {
    /// The mutable iterator, as a shared one. The slots end up holding what
    /// they hold now.
    fn from(val: ExactSizeNodeIterMut<'t, T>) -> (r: Self)
        ensures
            r.raw() == val.raw(),
            r.spec_len() == val.len,
            final(val.sub_iter.remaining_nodes)@ == val.raw(),
    {
        let ExactSizeNodeIterMut { sub_iter, len } = val;
        ExactSizeNodeIter { sub_iter: NodeIter::from(sub_iter), len }
    }
}

impl<'t, T> vstd::std_specs::convert::FromSpecImpl<ExactSizeNodeIterMut<'t, T>> for ExactSizeNodeIter<'t, T> {
    open spec fn obeys_from_spec() -> bool {
        true
    }

    closed spec fn from_spec(val: ExactSizeNodeIterMut<'t, T>) -> Self {
        ExactSizeNodeIter {
            sub_iter: <NodeIter<'t, ExactSize<T>> as vstd::std_specs::convert::FromSpec<
                NodeIterMut<'t, ExactSize<T>>,
            >>::from_spec(val.sub_iter),
            len: val.len,
        }
    }
}

impl<'t, T> From<ExactSizeNodeRefMut<'t, T>> for ExactSizeNodeRef<'t, T> {
    /// The mutable reference, as a shared one. The slots end up holding what
    /// they hold now.
    fn from(val: ExactSizeNodeRefMut<'t, T>) -> (r: Self)
        ensures
            r.raw() == val.raw(),
            final(val.sub_ref.slice)@ == val.raw(),
    {
        let ExactSizeNodeRefMut { sub_ref } = val;
        ExactSizeNodeRef { sub_ref: NodeRef::from(sub_ref) }
    }
}

impl<'t, T> vstd::std_specs::convert::FromSpecImpl<ExactSizeNodeRefMut<'t, T>> for ExactSizeNodeRef<'t, T> {
    open spec fn obeys_from_spec() -> bool {
        true
    }

    closed spec fn from_spec(val: ExactSizeNodeRefMut<'t, T>) -> Self {
        ExactSizeNodeRef {
            sub_ref: <NodeRef<'t, ExactSize<T>> as vstd::std_specs::convert::FromSpec<
                NodeRefMut<'t, ExactSize<T>>,
            >>::from_spec(val.sub_ref),
        }
    }
}

/// A shared reference to a node of a forest whose nodes record their numbers
/// of children.
pub struct ExactSizeNodeRef<'t, T> {
    sub_ref: NodeRef<'t, ExactSize<T>>,
}

impl<'t, T> Clone for ExactSizeNodeRef<'t, T> {
    fn clone(&self) -> (r: Self)
        ensures
            r == *self,
    {
        *self
    }
}

impl<'t, T> Copy for ExactSizeNodeRef<'t, T> {}

impl<'t, T> View for ExactSizeNodeRef<'t, T> {
    type V = Tree<ExactSize<T>>;

    /// The tree rooted at the node.
    open spec fn view(&self) -> Tree<ExactSize<T>> {
        tree_of(self.raw())
    }
}

impl<'t, T> ExactSizeNodeRef<'t, T> {
    /// The flat form of the node and its descendants.
    pub closed spec fn raw(&self) -> Seq<NodeData<ExactSize<T>>> {
        self.sub_ref.raw()
    }

    /// The slots are the flat form of exactly one tree, and every node
    /// records the number of children it has.
    pub open spec fn wf(&self) -> bool {
        &&& is_tree(self.raw())
        &&& counted(self.raw())
    }

    /// The reference to the node that a counted one-tree run holds.
    pub(crate) fn over(sub_ref: NodeRef<'t, ExactSize<T>>) -> (n: Self)
        ensures
            n.raw() == sub_ref.raw(),
    {
        ExactSizeNodeRef { sub_ref }
    }

    /// An iterator over the children of this node, which knows how many
    /// there are.
    pub fn children(&self) -> (it: ExactSizeNodeIter<'t, T>)
        requires
            self.wf(),
        ensures
            it.wf(),
            it.raw() == self.raw().drop_first(),
            it@ == self@.children,
            it.spec_len() == self@.children.len(),
    {
        proof {
            lemma_counted_children(self.raw());
        }
        ExactSizeNodeIter { sub_iter: self.sub_ref.children(), len: self.sub_ref.val().num_children }
    }

    /// The value of this node.
    pub fn val(&self) -> (r: &'t T)
        requires
            self.wf(),
        ensures
            *r == self@.val.val,
    {
        &self.sub_ref.val().val
    }

    /// The number of children of this node.
    pub fn num_children(&self) -> (r: usize)
        requires
            self.wf(),
        ensures
            r == self@.children.len(),
    {
        proof {
            lemma_counted_children(self.raw());
        }
        self.sub_ref.val().num_children
    }

    /// The number of descendants of this node, the node itself included.
    pub fn num_descendants_incl_self(&self) -> (r: usize)
        requires
            self.wf(),
        ensures
            r == tree_size(self@),
            r == self.raw().len(),
    {
        self.sub_ref.num_descendants_incl_self()
    }

    /// The number of descendants of this node, the node itself excluded.
    pub fn num_descendants_excl_self(&self) -> (r: usize)
        requires
            self.wf(),
        ensures
            r == forest_size(self@.children),
            r == self.raw().len() - 1,
    {
        self.sub_ref.num_descendants_excl_self()
    }
}

/// The builder of one node of a forest whose nodes record their numbers of
/// children: it counts the children as they are finished.
///
/// The fields are public so that contracts can speak of what the targets
/// hold once the borrows end.
pub struct ExactSizeNodeBuilder<'a, T> {
    /// The builder underneath.
    pub sub_node_builder: NodeBuilder<'a, ExactSize<T>>,
    /// The number of children finished so far.
    pub num_children: usize,
    /// The count that grows by one when this node is finished: the number of
    /// trees of the forest for a root, the number of children of the parent
    /// for any other node.
    pub parent_num_children: &'a mut usize,
}

impl<'a, T> View for ExactSizeNodeBuilder<'a, T> {
    type V = Seq<Tree<ExactSize<T>>>;

    /// The children finished so far.
    open spec fn view(&self) -> Seq<Tree<ExactSize<T>>> {
        self.sub_node_builder@
    }
}

impl<'a, T> ExactSizeNodeBuilder<'a, T> {
    /// The builder underneath is well formed, the children and the target
    /// are counted runs, and the two counts are those of the trees of the
    /// children and of the target.
    pub open spec fn wf(&self) -> bool {
        &&& self.sub_node_builder.wf()
        &&& counted(self.sub_node_builder.children.raw())
        &&& counted(self.sub_node_builder.forest.raw())
        &&& self.num_children == self.sub_node_builder.children@.len()
        &&& *self.parent_num_children == self.sub_node_builder.forest@.len()
    }

    /// The flat form of the children finished so far.
    pub open spec fn children_raw(&self) -> Seq<NodeData<ExactSize<T>>> {
        self.sub_node_builder.children.raw()
    }

    /// The position that the next child of this node gets.
    pub open spec fn next_child_index(&self) -> int {
        self.sub_node_builder.next_child_index()
    }

    /// A fresh builder, without children yet, for the node at position
    /// `index`, which will be added to a target that now holds `base`.
    pub open spec fn is_new_at(&self, base: Seq<NodeData<ExactSize<T>>>, index: int) -> bool {
        &&& self.wf()
        &&& self.sub_node_builder.is_new_at(base, index)
    }

    /// This builder is `prev` after some children were added or none: same
    /// position, same targets, untouched.
    pub open spec fn extends(&self, prev: Self) -> bool {
        &&& self.wf()
        &&& self.sub_node_builder.extends(prev.sub_node_builder)
        &&& *self.parent_num_children == *prev.parent_num_children
    }

    /// The position of the node that is being built in the pre-order walk of
    /// the forest.
    pub fn index(&self) -> (r: usize)
        ensures
            r == self.sub_node_builder.index,
    {
        self.sub_node_builder.index()
    }

    /// A builder for a new child of the node that is being built.
    pub fn get_child_builder<'b>(&'b mut self) -> (c: ExactSizeNodeBuilder<'b, T>)
        requires
            old(self).wf(),
            old(self).next_child_index() < usize::MAX,
        ensures
            c.is_new_at(old(self).children_raw(), old(self).next_child_index()),
            *final(c.sub_node_builder.forest) == final(self).sub_node_builder.children,
            *final(c.parent_num_children) == final(self).num_children,
            final(self).sub_node_builder.index == old(self).sub_node_builder.index,
            *final(self).sub_node_builder.forest == *old(self).sub_node_builder.forest,
            *final(final(self).sub_node_builder.forest)
                == *final(old(self).sub_node_builder.forest),
            *final(self).parent_num_children == *old(self).parent_num_children,
            *final(final(self).parent_num_children) == *final(old(self).parent_num_children),
    {
        ExactSizeNodeBuilder {
            sub_node_builder: self.sub_node_builder.get_child_builder(),
            num_children: 0,
            parent_num_children: &mut self.num_children,
        }
    }

    /// Finish the node: give it its value, record the number of its
    /// children, add it with its children to the target, and count it there.
    pub fn finish(self, val: T) -> (r: ExactSizeNodeRefMut<'a, T>)
        requires
            self.wf(),
        ensures
            r.wf(),
            r.raw() == seq![
                NodeData {
                    val: ExactSize { val, num_children: self.num_children },
                    subtree_size: self.sub_node_builder.spec_subtree_size() as usize,
                },
            ] + self.sub_node_builder.children.raw(),
            r@ == (Tree {
                val: ExactSize { val, num_children: self.num_children },
                children: self.sub_node_builder.children@,
            }),
            final(self.sub_node_builder.forest).raw() == old(self.sub_node_builder.forest).raw()
                + final(r.sub_ref.slice)@,
            *final(self.parent_num_children) == *old(self.parent_num_children) + 1,
            same_shape(r.raw(), final(r.sub_ref.slice)@) && same_counts(
                r.raw(),
                final(r.sub_ref.slice)@,
            ) ==> exact(final(self.sub_node_builder.forest).raw())
                && final(self.sub_node_builder.forest)@.len()
                == old(self.sub_node_builder.forest)@.len() + 1,
            final(r.sub_ref.slice)@ == r.raw()
                ==> final(self.sub_node_builder.forest)@ == old(self.sub_node_builder.forest)@.push(
                Tree {
                    val: ExactSize { val, num_children: self.num_children },
                    children: self.sub_node_builder.children@,
                },
            ),
    {
        let ExactSizeNodeBuilder { sub_node_builder, num_children, parent_num_children } = self;
        let ghost base = sub_node_builder.forest.raw();
        let ghost kids = sub_node_builder.children.raw();
        proof {
            lemma_trees_len(base);
        }
        let sub_ref = sub_node_builder.finish(ExactSize { val, num_children });
        *parent_num_children = *parent_num_children + 1;
        proof {
            let run = sub_ref.raw();
            lemma_counted_single(run[0], kids);
            assert(run =~= seq![run[0]] + kids);
            lemma_tree_is_forest(run);
            assert forall|end: Seq<NodeData<ExactSize<T>>>|
                #[trigger] same_shape(run, end) && same_counts(run, end) implies exact(base + end)
                && trees_of(base + end).len() == trees_of(base).len() + 1 by {
                lemma_counted_same(run, end);
                lemma_counted_concat(base, end);
            }
        }
        ExactSizeNodeRefMut { sub_ref }
    }

    /// Build a child with the given value and add it to the node that is
    /// being built. The callback adds the children of the child; what it
    /// returns is returned.
    pub fn build_child<R>(
        &mut self,
        val: T,
        child_builder_cb: impl FnOnce(&mut ExactSizeNodeBuilder<T>) -> R,
    ) -> (ret: R)
        requires
            old(self).wf(),
            old(self).next_child_index() < usize::MAX,
            forall|b: &mut ExactSizeNodeBuilder<T>|
                b.is_new_at(old(self).children_raw(), old(self).next_child_index())
                    ==> call_requires(child_builder_cb, (b,)),
            forall|b: &mut ExactSizeNodeBuilder<T>, r: R|
                b.is_new_at(old(self).children_raw(), old(self).next_child_index())
                    && call_ensures(child_builder_cb, (b,), r)
                    ==> final(b).extends(*b)
                    && *final(final(b).sub_node_builder.forest) == *final(b.sub_node_builder.forest)
                    && *final(final(b).parent_num_children) == *final(b.parent_num_children),
        ensures
            final(self).extends(*old(self)),
            *final(final(self).sub_node_builder.forest)
                == *final(old(self).sub_node_builder.forest),
            *final(final(self).parent_num_children) == *final(old(self).parent_num_children),
            final(self).num_children == old(self).num_children + 1,
            exists|b: &mut ExactSizeNodeBuilder<T>|
                b.is_new_at(old(self).children_raw(), old(self).next_child_index())
                    && #[trigger] call_ensures(child_builder_cb, (b,), ret)
                    && final(self)@ == old(self)@.push(
                    Tree {
                        val: ExactSize { val, num_children: final(b).num_children },
                        children: final(b)@,
                    },
                ),
    {
        let mut builder = self.get_child_builder();
        let ret = child_builder_cb(&mut builder);
        builder.finish(val);
        ret
    }

    /// Build a child whose value is what the callback returns, and add it to
    /// the node that is being built. The callback adds the children of the
    /// child. Returns a mutable reference to the child.
    pub fn build_child_by_ret_val(
        &mut self,
        child_builder_cb: impl FnOnce(&mut ExactSizeNodeBuilder<T>) -> T,
    ) -> (r: ExactSizeNodeRefMut<'_, T>)
        requires
            old(self).wf(),
            old(self).next_child_index() < usize::MAX,
            forall|b: &mut ExactSizeNodeBuilder<T>|
                b.is_new_at(old(self).children_raw(), old(self).next_child_index())
                    ==> call_requires(child_builder_cb, (b,)),
            forall|b: &mut ExactSizeNodeBuilder<T>, v: T|
                b.is_new_at(old(self).children_raw(), old(self).next_child_index())
                    && call_ensures(child_builder_cb, (b,), v)
                    ==> final(b).extends(*b)
                    && *final(final(b).sub_node_builder.forest) == *final(b.sub_node_builder.forest)
                    && *final(final(b).parent_num_children) == *final(b.parent_num_children),
        ensures
            r.wf(),
            final(self).sub_node_builder.index == old(self).sub_node_builder.index,
            *final(self).sub_node_builder.forest == *old(self).sub_node_builder.forest,
            *final(final(self).sub_node_builder.forest)
                == *final(old(self).sub_node_builder.forest),
            *final(self).parent_num_children == *old(self).parent_num_children,
            *final(final(self).parent_num_children) == *final(old(self).parent_num_children),
            final(self).num_children == old(self).num_children + 1,
            final(self).children_raw() == old(self).children_raw()
                + final(r.sub_ref.slice)@,
            exists|b: &mut ExactSizeNodeBuilder<T>, val: T|
                b.is_new_at(old(self).children_raw(), old(self).next_child_index())
                    && #[trigger] call_ensures(child_builder_cb, (b,), val)
                    && r@ == (Tree {
                    val: ExactSize { val, num_children: final(b).num_children },
                    children: final(b)@,
                }),
    {
        let mut builder = self.get_child_builder();
        let val = child_builder_cb(&mut builder);
        builder.finish(val)
    }

    /// Add a child without children, with the given value, to the node that
    /// is being built. Returns a mutable reference to the child.
    pub fn add_child(&mut self, val: T) -> (r: ExactSizeNodeRefMut<'_, T>)
        requires
            old(self).wf(),
            old(self).next_child_index() < usize::MAX,
        ensures
            r.wf(),
            r.raw() == seq![
                NodeData { val: ExactSize { val, num_children: 0 }, subtree_size: 1 },
            ],
            final(self).sub_node_builder.index == old(self).sub_node_builder.index,
            *final(self).sub_node_builder.forest == *old(self).sub_node_builder.forest,
            *final(final(self).sub_node_builder.forest)
                == *final(old(self).sub_node_builder.forest),
            *final(self).parent_num_children == *old(self).parent_num_children,
            *final(final(self).parent_num_children) == *final(old(self).parent_num_children),
            final(self).num_children == old(self).num_children + 1,
            final(self).children_raw() == old(self).children_raw()
                + final(r.sub_ref.slice)@,
            same_shape(r.raw(), final(r.sub_ref.slice)@) && same_counts(
                r.raw(),
                final(r.sub_ref.slice)@,
            ) ==> final(self).wf(),
            final(r.sub_ref.slice)@ == r.raw() ==> final(self)@ == old(self)@.push(
                Tree { val: ExactSize { val, num_children: 0 }, children: Seq::empty() },
            ),
    {
        let r = self.get_child_builder().finish(val);
        proof {
            assert(r.raw() =~= seq![
                NodeData { val: ExactSize { val, num_children: 0 }, subtree_size: 1 },
            ]);
        }
        r
    }
}

impl<T> ExactSizePackedForest<T> {
    /// A builder for a tree that is added to this forest once the builder is
    /// finished. Dropping the builder instead adds nothing.
    pub fn get_tree_builder(&mut self) -> (b: ExactSizeNodeBuilder<'_, T>)
        requires
            old(self).wf(),
            old(self).raw().len() < usize::MAX,
        ensures
            b.is_new_at(old(self).raw(), old(self).raw().len() as int),
            *final(b.sub_node_builder.forest) == final(self).inner(),
            *final(b.parent_num_children) == final(self).spec_num_trees(),
    {
        ExactSizeNodeBuilder {
            sub_node_builder: self.forest.get_tree_builder(),
            num_children: 0,
            parent_num_children: &mut self.num_trees,
        }
    }

    /// Build a tree with the given root value and add it to the forest. The
    /// callback adds the children of the root; what it returns is returned.
    pub fn build_tree<R>(
        &mut self,
        root_val: T,
        node_builder_cb: impl FnOnce(&mut ExactSizeNodeBuilder<T>) -> R,
    ) -> (ret: R)
        requires
            old(self).wf(),
            old(self).raw().len() < usize::MAX,
            forall|b: &mut ExactSizeNodeBuilder<T>|
                b.is_new_at(old(self).raw(), old(self).raw().len() as int) ==> call_requires(
                    node_builder_cb,
                    (b,),
                ),
            forall|b: &mut ExactSizeNodeBuilder<T>, r: R|
                b.is_new_at(old(self).raw(), old(self).raw().len() as int) && call_ensures(
                    node_builder_cb,
                    (b,),
                    r,
                ) ==> final(b).extends(*b)
                    && *final(final(b).sub_node_builder.forest) == *final(b.sub_node_builder.forest)
                    && *final(final(b).parent_num_children) == *final(b.parent_num_children),
        ensures
            final(self).wf(),
            exists|b: &mut ExactSizeNodeBuilder<T>|
                b.is_new_at(old(self).raw(), old(self).raw().len() as int)
                    && #[trigger] call_ensures(
                    node_builder_cb,
                    (b,),
                    ret,
                ) && final(self)@ == old(self)@.push(
                    Tree {
                        val: ExactSize { val: root_val, num_children: final(b).num_children },
                        children: final(b)@,
                    },
                ),
    {
        let mut builder = self.get_tree_builder();
        let ret = node_builder_cb(&mut builder);
        builder.finish(root_val);
        ret
    }

    /// Build a tree whose root value is what the callback returns, and add it
    /// to the forest. The callback adds the children of the root.
    pub fn build_tree_by_ret_val(
        &mut self,
        node_builder_cb: impl FnOnce(&mut ExactSizeNodeBuilder<T>) -> T,
    )
        requires
            old(self).wf(),
            old(self).raw().len() < usize::MAX,
            forall|b: &mut ExactSizeNodeBuilder<T>|
                b.is_new_at(old(self).raw(), old(self).raw().len() as int) ==> call_requires(
                    node_builder_cb,
                    (b,),
                ),
            forall|b: &mut ExactSizeNodeBuilder<T>, r: T|
                b.is_new_at(old(self).raw(), old(self).raw().len() as int) && call_ensures(
                    node_builder_cb,
                    (b,),
                    r,
                ) ==> final(b).extends(*b)
                    && *final(final(b).sub_node_builder.forest) == *final(b.sub_node_builder.forest)
                    && *final(final(b).parent_num_children) == *final(b.parent_num_children),
        ensures
            final(self).wf(),
            exists|b: &mut ExactSizeNodeBuilder<T>, root_val: T|
                b.is_new_at(old(self).raw(), old(self).raw().len() as int)
                    && #[trigger] call_ensures(
                    node_builder_cb,
                    (b,),
                    root_val,
                ) && final(self)@ == old(self)@.push(
                    Tree {
                        val: ExactSize { val: root_val, num_children: final(b).num_children },
                        children: final(b)@,
                    },
                ),
    {
        let mut builder = self.get_tree_builder();
        let root_val = node_builder_cb(&mut builder);
        builder.finish(root_val);
    }

    /// Add a tree of a single node, with the given value, to the forest.
    pub fn add_single_node_tree(&mut self, val: T)
        requires
            old(self).wf(),
            old(self).raw().len() < usize::MAX,
        ensures
            final(self).wf(),
            final(self)@ == old(self)@.push(
                Tree { val: ExactSize { val, num_children: 0 }, children: Seq::empty() },
            ),
    {
        self.get_tree_builder().finish(val);
    }
}

/// A mutable reference to a node of a forest whose nodes record their
/// numbers of children. It lets the value change, nothing else.
///
/// The field is public so that contracts can speak of what the slots hold
/// once the borrow ends.
pub struct ExactSizeNodeRefMut<'t, T> {
    pub sub_ref: NodeRefMut<'t, ExactSize<T>>,
}

impl<'t, T> View for ExactSizeNodeRefMut<'t, T> {
    type V = Tree<ExactSize<T>>;

    /// The tree rooted at the node.
    open spec fn view(&self) -> Tree<ExactSize<T>> {
        tree_of(self.raw())
    }
}

impl<'t, T> ExactSizeNodeRefMut<'t, T> {
    /// The flat form of the node and its descendants, as it is now.
    pub open spec fn raw(&self) -> Seq<NodeData<ExactSize<T>>> {
        self.sub_ref.raw()
    }

    /// The slots are the flat form of exactly one tree, and every node
    /// records the number of children it has.
    pub open spec fn wf(&self) -> bool {
        &&& is_tree(self.raw())
        &&& counted(self.raw())
    }

    /// An iterator over the children of this node, for as long as the node
    /// itself was borrowed.
    pub fn into_children(self) -> (it: ExactSizeNodeIterMut<'t, T>)
        requires
            self.wf(),
        ensures
            it.wf(),
            it.raw() == self.raw().drop_first(),
            it@ == self@.children,
            it.len == self@.children.len(),
            final(self.sub_ref.slice)@ == seq![self.raw()[0]] + final(it.sub_iter.remaining_nodes)@,
    {
        proof {
            lemma_counted_children(self.raw());
        }
        let len = self.sub_ref.val().num_children;
        ExactSizeNodeIterMut { sub_iter: self.sub_ref.into_children(), len }
    }

    /// An iterator over the children of this node, for as long as this
    /// reference is borrowed.
    pub fn children(&mut self) -> (it: ExactSizeNodeIterMut<'_, T>)
        requires
            old(self).wf(),
        ensures
            it.wf(),
            it.raw() == old(self).raw().drop_first(),
            it@ == old(self)@.children,
            it.len == old(self)@.children.len(),
            final(self).raw() == seq![old(self).raw()[0]] + final(it.sub_iter.remaining_nodes)@,
            final(final(self).sub_ref.slice)@ == final(old(self).sub_ref.slice)@,
    {
        proof {
            lemma_counted_children(self.raw());
        }
        let len = self.sub_ref.val().num_children;
        ExactSizeNodeIterMut { sub_iter: self.sub_ref.children(), len }
    }

    /// The value of this node.
    pub fn val(&self) -> (r: &T)
        requires
            self.wf(),
        ensures
            *r == self@.val.val,
    {
        &self.sub_ref.val().val
    }

    /// The value of this node, to change it. The size and the number of
    /// children stay as they are.
    pub fn val_mut(&mut self) -> (r: &mut T)
        requires
            old(self).wf(),
        ensures
            *r == old(self)@.val.val,
            final(self).raw() == old(self).raw().update(
                0,
                NodeData {
                    val: ExactSize {
                        val: *final(r),
                        num_children: old(self).raw()[0].val.num_children,
                    },
                    subtree_size: old(self).raw()[0].subtree_size,
                },
            ),
            final(final(self).sub_ref.slice)@ == final(old(self).sub_ref.slice)@,
            same_shape(old(self).raw(), final(self).raw()),
            same_counts(old(self).raw(), final(self).raw()),
    {
        &mut self.sub_ref.val_mut().val
    }

    /// The number of children of this node.
    pub fn num_children(&self) -> (r: usize)
        requires
            self.wf(),
        ensures
            r == self@.children.len(),
    {
        proof {
            lemma_counted_children(self.raw());
        }
        self.sub_ref.val().num_children
    }

    /// This node, as a shared reference.
    pub fn reborrow_shared(&self) -> (r: ExactSizeNodeRef<'_, T>)
        requires
            self.wf(),
        ensures
            r.wf(),
            r.raw() == self.raw(),
            r@ == self@,
    {
        ExactSizeNodeRef { sub_ref: self.sub_ref.reborrow_shared() }
    }

    /// The number of descendants of this node, the node itself included.
    pub fn num_descendants_incl_self(&self) -> (r: usize)
        requires
            self.wf(),
        ensures
            r == tree_size(self@),
            r == self.raw().len(),
    {
        self.sub_ref.num_descendants_incl_self()
    }

    /// The number of descendants of this node, the node itself excluded.
    pub fn num_descendants_excl_self(&self) -> (r: usize)
        requires
            self.wf(),
        ensures
            r == forest_size(self@.children),
            r == self.raw().len() - 1,
    {
        self.sub_ref.num_descendants_excl_self()
    }
}

/// A mutable iterator over a run of sibling trees that knows how many are
/// left.
///
/// The fields are public so that contracts can speak of what the slots hold
/// once the borrow ends.
pub struct ExactSizeNodeIterMut<'t, T> {
    pub sub_iter: NodeIterMut<'t, ExactSize<T>>,
    pub len: usize,
}

impl<'t, T> View for ExactSizeNodeIterMut<'t, T> {
    type V = Seq<Tree<ExactSize<T>>>;

    /// The trees that the iterator has yet to yield.
    open spec fn view(&self) -> Seq<Tree<ExactSize<T>>> {
        trees_of(self.raw())
    }
}

impl<'t, T> ExactSizeNodeIterMut<'t, T> {
    /// The flat form of what remains, as it is now.
    pub open spec fn raw(&self) -> Seq<NodeData<ExactSize<T>>> {
        self.sub_iter.raw()
    }

    /// What remains is a counted run, and the iterator knows how many trees
    /// it holds.
    pub open spec fn wf(&self) -> bool {
        &&& exact(self.raw())
        &&& self.len == self@.len()
    }

    /// Yield the next tree of the run.
    pub fn next(&mut self) -> (r: Option<ExactSizeNodeRefMut<'t, T>>)
        requires
            old(self).wf(),
        ensures
            final(self).wf(),
            r is None <==> old(self)@.len() == 0,
            r is None ==> {
                &&& final(self).raw() == old(self).raw()
                &&& final(self).len == old(self).len
                &&& final(final(self).sub_iter.remaining_nodes)@
                    == final(old(self).sub_iter.remaining_nodes)@
            },
            r is Some ==> {
                let n = r.unwrap();
                &&& n.wf()
                &&& n@ == old(self)@[0]
                &&& final(self)@ == old(self)@.drop_first()
                &&& final(self).len == old(self).len - 1
                &&& old(self).raw() == n.raw() + final(self).raw()
                &&& final(old(self).sub_iter.remaining_nodes)@
                    == final(n.sub_ref.slice)@ + final(final(self).sub_iter.remaining_nodes)@
            },
    {
        let ghost before = self.raw();
        proof {
            lemma_trees_len(before);
            if before.len() > 0 {
                lemma_counted_first(before);
            }
        }
        match self.sub_iter.next() {
            Some(sub_ref) => {
                proof {
                    let n = before[0].subtree_size as int;
                    lemma_first(before);
                    assert(sub_ref.raw().len() == n) by {
                        crate::lemmas::lemma_tree_len(sub_ref.raw());
                        crate::lemmas::lemma_tree_len(before.subrange(0, n));
                    }
                    assert(sub_ref.raw() =~= before.subrange(0, n));
                    assert(self.sub_iter.raw() =~= before.subrange(n, before.len() as int));
                }
                self.len = self.len - 1;
                Some(ExactSizeNodeRefMut { sub_ref })
            },
            None => None,
        }
    }

    /// The number of trees that are left to yield.
    pub fn len(&self) -> (r: usize)
        ensures
            r == self.len,
            self.wf() ==> r == self@.len(),
    {
        self.len
    }

    /// The number of trees that are left to yield, as a lower and an upper
    /// bound.
    pub fn size_hint(&self) -> (r: (usize, Option<usize>))
        ensures
            r == (self.len, Some(self.len)),
    {
        (self.len, Some(self.len))
    }

    /// This iterator, as a shared one.
    pub fn reborrow_shared(&self) -> (r: ExactSizeNodeIter<'_, T>)
        requires
            self.wf(),
        ensures
            r.wf(),
            r.raw() == self.raw(),
            r@ == self@,
            r.spec_len() == self.len,
    {
        ExactSizeNodeIter { sub_iter: self.sub_iter.reborrow_shared(), len: self.len }
    }

    /// The number of nodes that remain, descendants included.
    pub fn num_remaining_nodes_incl_descendants(&self) -> (r: usize)
        ensures
            r == self.raw().len(),
            self.wf() ==> r == forest_size(self@),
    {
        self.sub_iter.num_remaining_nodes_incl_descendants()
    }
}

impl<T> ExactSizePackedForest<T> {
    /// A mutable iterator over the trees of this forest: it lets values
    /// change, nothing else. The forest ends up holding what the iterator's
    /// slots hold when the borrow ends.
    pub fn iter_trees_mut(&mut self) -> (it: ExactSizeNodeIterMut<'_, T>)
        requires
            old(self).wf(),
        ensures
            it.wf(),
            it.raw() == old(self).raw(),
            it@ == old(self)@,
            final(self).raw() == final(it.sub_iter.remaining_nodes)@,
            final(self).spec_num_trees() == old(self).spec_num_trees(),
    {
        let len = self.num_trees;
        ExactSizeNodeIterMut { sub_iter: self.forest.iter_trees_mut(), len }
    }

    /// A mutable reference to the node at position `index` of the pre-order
    /// walk of the forest, or `None` if the forest has no such position.
    pub fn get_mut(&mut self, index: usize) -> (r: Option<ExactSizeNodeRefMut<'_, T>>)
        requires
            old(self).wf(),
        ensures
            r is Some <==> index < old(self).raw().len(),
            r is None ==> *final(self) == *old(self),
            final(self).spec_num_trees() == old(self).spec_num_trees(),
            r is Some ==> {
                let n = r.unwrap();
                let end = index + old(self).raw()[index as int].subtree_size;
                &&& n.wf()
                &&& end <= old(self).raw().len()
                &&& n.raw() == old(self).raw().subrange(index as int, end)
                &&& n@ == preorder(old(self)@)[index as int]
                &&& final(self).raw()
                    == old(self).raw().subrange(0, index as int)
                        + final(n.sub_ref.slice)@
                        + old(self).raw().subrange(end, old(self).raw().len() as int)
            },
    {
        if index < self.forest.tot_num_nodes() {
            Some(self.get_unchecked_mut(index))
        } else {
            None
        }
    }

    /// A mutable reference to the node at position `index` of the pre-order
    /// walk of the forest, for a caller who knows that the position exists.
    pub fn get_unchecked_mut(&mut self, index: usize) -> (n: ExactSizeNodeRefMut<'_, T>)
        requires
            old(self).wf(),
            index < old(self).raw().len(),
        ensures
            n.wf(),
            index + old(self).raw()[index as int].subtree_size <= old(self).raw().len(),
            n.raw() == old(self).raw().subrange(
                index as int,
                index + old(self).raw()[index as int].subtree_size,
            ),
            n@ == preorder(old(self)@)[index as int],
            final(self).spec_num_trees() == old(self).spec_num_trees(),
            final(self).raw()
                == old(self).raw().subrange(0, index as int)
                    + final(n.sub_ref.slice)@
                    + old(self).raw().subrange(
                index + old(self).raw()[index as int].subtree_size,
                old(self).raw().len() as int,
            ),
    {
        let ghost before = self.raw();
        let sub_ref = self.forest.get_unchecked_mut(index);
        proof {
            lemma_tree_is_forest(sub_ref.raw());
            lemma_counted_sub(before, index as int, index + before[index as int].subtree_size);
        }
        ExactSizeNodeRefMut { sub_ref }
    }

    /// A draining iterator over the trees of this forest. It takes all the
    /// nodes with it: the forest is empty from now on.
    pub fn drain_trees(&mut self) -> (d: ExactSizeNodeListDrain<T>)
        requires
            old(self).wf(),
        ensures
            d.wf(),
            d.raw() == old(self).raw(),
            d@ == old(self)@,
            final(self).wf(),
            final(self).raw() == Seq::<NodeData<ExactSize<T>>>::empty(),
    {
        let len = self.num_trees;
        self.num_trees = 0;
        ExactSizeNodeListDrain { sub_iter: self.forest.drain_trees(), len }
    }
}

/// A draining iterator over a run of sibling trees that knows how many are
/// left. It owns the nodes that it has yet to yield.
pub struct ExactSizeNodeListDrain<T> {
    sub_iter: NodeListDrain<ExactSize<T>>,
    len: usize,
}

impl<T> View for ExactSizeNodeListDrain<T> {
    type V = Seq<Tree<ExactSize<T>>>;

    /// The trees that the iterator has yet to yield.
    open spec fn view(&self) -> Seq<Tree<ExactSize<T>>> {
        trees_of(self.raw())
    }
}

impl<T> ExactSizeNodeListDrain<T> {
    /// The flat form of what remains, in pre-order.
    pub closed spec fn raw(&self) -> Seq<NodeData<ExactSize<T>>> {
        self.sub_iter.raw()
    }

    /// The number of trees that the iterator says are left.
    pub closed spec fn spec_len(&self) -> usize {
        self.len
    }

    /// What remains is a counted run, and the iterator knows how many trees
    /// it holds.
    pub open spec fn wf(&self) -> bool {
        &&& exact(self.raw())
        &&& self.spec_len() == self@.len()
    }

    /// The number of nodes that remain, descendants included.
    pub fn num_remaining_nodes_incl_descendants(&self) -> (r: usize)
        ensures
            r == self.raw().len(),
            self.wf() ==> r == forest_size(self@),
    {
        self.sub_iter.num_remaining_nodes_incl_descendants()
    }

    /// The number of trees that are left to yield.
    pub fn len(&self) -> (r: usize)
        ensures
            r == self.spec_len(),
            self.wf() ==> r == self@.len(),
    {
        self.len
    }

    /// The number of trees that are left to yield, as a lower and an upper
    /// bound.
    pub fn size_hint(&self) -> (r: (usize, Option<usize>))
        ensures
            r == (self.spec_len(), Some(self.spec_len())),
    {
        (self.len, Some(self.len))
    }

    /// Yield the next tree of the run: the value of its root, moved out, and
    /// a draining iterator over the children of that root.
    pub fn next(&mut self) -> (r: Option<ExactSizeNodeDrain<T>>)
        requires
            old(self).wf(),
        ensures
            final(self).wf(),
            r is None <==> old(self)@.len() == 0,
            r is None ==> final(self).raw() == old(self).raw(),
            r is Some ==> {
                let d = r.unwrap();
                &&& d.children.wf()
                &&& d.val == old(self)@[0].val.val
                &&& d.children@ == old(self)@[0].children
                &&& d.children.spec_len() == old(self)@[0].children.len()
                &&& final(self)@ == old(self)@.drop_first()
                &&& final(self).spec_len() == old(self).spec_len() - 1
                &&& old(self).raw()
                    == seq![old(self).raw()[0]] + d.children.raw() + final(self).raw()
            },
    {
        let ghost before = self.raw();
        proof {
            lemma_trees_len(before);
            if before.len() > 0 {
                lemma_counted_first(before);
                lemma_first(before);
                lemma_counted_children(before.subrange(0, before[0].subtree_size as int));
            }
        }
        match self.sub_iter.next() {
            Some(sub_drain) => {
                let NodeDrain { val: exact_size, children } = sub_drain;
                proof {
                    let n = before[0].subtree_size as int;
                    let kids = children.raw();
                    let rest = self.sub_iter.raw();
                    assert(before.len() == 1 + kids.len() + rest.len());
                    lemma_trees_len(rest);
                    crate::lemmas::lemma_flatten_trees_of(kids);
                    crate::lemmas::lemma_tree_len(before.subrange(0, n));
                    assert(kids.len() == n - 1);
                    assert(kids =~= before.subrange(0, n).subrange(1, n));
                    assert(rest =~= before.subrange(n, before.len() as int));
                }
                self.len = self.len - 1;
                Some(
                    ExactSizeNodeDrain {
                        val: exact_size.val,
                        children: ExactSizeNodeListDrain {
                            sub_iter: children,
                            len: exact_size.num_children,
                        },
                    },
                )
            },
            None => None,
        }
    }
}

/// A node that is being drained: its value, moved out of the forest, and a
/// draining iterator over its children.
pub struct ExactSizeNodeDrain<T> {
    pub val: T,
    pub children: ExactSizeNodeListDrain<T>,
}

impl<T> ExactSizeNodeDrain<T> {
    /// The number of descendants of this node, the node itself included.
    pub fn num_descendants_incl_self(&self) -> (r: usize)
        requires
            self.children.raw().len() < usize::MAX,
        ensures
            r == self.children.raw().len() + 1,
            self.children.wf() ==> r == forest_size(self.children@) + 1,
    {
        self.children.num_remaining_nodes_incl_descendants() + 1
    }

    /// The number of descendants of this node, the node itself excluded.
    pub fn num_descendants_excl_self(&self) -> (r: usize)
        ensures
            r == self.children.raw().len(),
            self.children.wf() ==> r == forest_size(self.children@),
    {
        self.children.num_remaining_nodes_incl_descendants()
    }
}

/// A single tree whose nodes record their numbers of children: a forest of
/// that kind that holds exactly one tree.
#[derive(Clone, PartialEq, Eq, Hash)]
pub struct ExactSizePackedTree<T> {
    forest: ExactSizePackedForest<T>,
}

impl<T> View for ExactSizePackedTree<T> {
    type V = Tree<ExactSize<T>>;

    /// The tree.
    open spec fn view(&self) -> Tree<ExactSize<T>> {
        self.inner()@[0]
    }
}

impl<T> ExactSizePackedTree<T> {
    /// The forest that holds the tree.
    pub closed spec fn inner(&self) -> ExactSizePackedForest<T> {
        self.forest
    }

    /// The content of the backing array.
    pub open spec fn raw(&self) -> Seq<NodeData<ExactSize<T>>> {
        self.inner().raw()
    }

    /// The forest is well formed and holds exactly one tree.
    pub open spec fn wf(&self) -> bool {
        &&& self.inner().wf()
        &&& self.inner()@.len() == 1
    }

    /// The array of a well-formed tree is the flat form of one tree: its
    /// first slot spans all of it.
    pub proof fn lemma_wf(&self)
        requires
            self.wf(),
        ensures
            is_tree(self.raw()),
            self@ == tree_of(self.raw()),
            self.raw().len() == tree_size(self@),
    {
        let s = self.raw();
        lemma_trees_len(s);
        lemma_first(s);
        let n = s[0].subtree_size as int;
        lemma_trees_len(s.subrange(n, s.len() as int));
        assert(trees_of(s).drop_first().len() == 0);
        assert(s.subrange(0, n) =~= s);
        lemma_tree_is_forest(s);
        crate::lemmas::lemma_tree_len(s);
    }

    /// Create a tree with the given root value. The callback adds the
    /// children of the root.
    pub fn new(
        root_val: T,
        node_builder_cb: impl FnOnce(&mut ExactSizeNodeBuilder<T>),
    ) -> (t: ExactSizePackedTree<T>)
        requires
            forall|b: &mut ExactSizeNodeBuilder<T>|
                b.is_new_at(Seq::empty(), 0) ==> call_requires(node_builder_cb, (b,)),
            forall|b: &mut ExactSizeNodeBuilder<T>, r: ()|
                b.is_new_at(Seq::empty(), 0) && call_ensures(node_builder_cb, (b,), r)
                    ==> final(b).extends(*b)
                        && *final(final(b).sub_node_builder.forest)
                            == *final(b.sub_node_builder.forest)
                        && *final(final(b).parent_num_children) == *final(b.parent_num_children),
        ensures
            t.wf(),
            exists|b: &mut ExactSizeNodeBuilder<T>|
                b.is_new_at(Seq::empty(), 0) && #[trigger] call_ensures(node_builder_cb, (b,), ())
                    && t@ == (Tree {
                    val: ExactSize { val: root_val, num_children: final(b).num_children },
                    children: final(b)@,
                }),
    {
        let mut forest = ExactSizePackedForest::new();
        forest.build_tree(root_val, node_builder_cb);
        ExactSizePackedTree { forest }
    }

    /// Create a tree whose root value is what the callback returns. The
    /// callback adds the children of the root.
    pub fn new_by_ret_val(
        node_builder_cb: impl FnOnce(&mut ExactSizeNodeBuilder<T>) -> T,
    ) -> (t: ExactSizePackedTree<T>)
        requires
            forall|b: &mut ExactSizeNodeBuilder<T>|
                b.is_new_at(Seq::empty(), 0) ==> call_requires(node_builder_cb, (b,)),
            forall|b: &mut ExactSizeNodeBuilder<T>, r: T|
                b.is_new_at(Seq::empty(), 0) && call_ensures(node_builder_cb, (b,), r)
                    ==> final(b).extends(*b)
                        && *final(final(b).sub_node_builder.forest)
                            == *final(b.sub_node_builder.forest)
                        && *final(final(b).parent_num_children) == *final(b.parent_num_children),
        ensures
            t.wf(),
            exists|b: &mut ExactSizeNodeBuilder<T>, root_val: T|
                b.is_new_at(Seq::empty(), 0) && #[trigger] call_ensures(
                    node_builder_cb,
                    (b,),
                    root_val,
                ) && t@ == (Tree {
                    val: ExactSize { val: root_val, num_children: final(b).num_children },
                    children: final(b)@,
                }),
    {
        let mut forest = ExactSizePackedForest::new();
        forest.build_tree_by_ret_val(node_builder_cb);
        ExactSizePackedTree { forest }
    }

    /// Make a tree of a forest that holds exactly one tree; `None` for any
    /// other forest.
    pub fn try_from_forest(forest: ExactSizePackedForest<T>) -> (r: Option<ExactSizePackedTree<T>>)
        requires
            forest.wf(),
        ensures
            r is Some <==> forest@.len() == 1,
            r is Some ==> r.unwrap().wf() && r.unwrap().inner() == forest,
    {
        let mut iter = forest.iter_trees();
        let exactly_one = match iter.next() {
            Some(_) => iter.next().is_none(),
            None => false,
        };
        if exactly_one {
            Some(ExactSizePackedTree { forest })
        } else {
            None
        }
    }

    /// A reference to the root of the tree.
    pub fn root(&self) -> (n: ExactSizeNodeRef<'_, T>)
        requires
            self.wf(),
        ensures
            n.wf(),
            n@ == self@,
            n.raw() == self.raw(),
    {
        proof {
            self.lemma_wf();
        }
        let mut iter = self.forest.iter_trees();
        let r = iter.next();
        proof {
            lemma_trees_len(iter.raw());
            assert(r.unwrap().raw() =~= self.raw());
        }
        r.unwrap()
    }

    /// A mutable reference to the root of the tree. The tree ends up holding
    /// what that reference holds when its borrow ends.
    pub fn root_mut(&mut self) -> (n: ExactSizeNodeRefMut<'_, T>)
        requires
            old(self).wf(),
        ensures
            n.wf(),
            n@ == old(self)@,
            n.raw() == old(self).raw(),
            final(self).raw() == final(n.sub_ref.slice)@,
            final(self).inner().spec_num_trees() == old(self).inner().spec_num_trees(),
    {
        proof {
            self.lemma_wf();
        }
        let mut iter = self.forest.iter_trees_mut();
        let r = iter.next();
        proof {
            lemma_trees_len(iter.raw());
            assert(r.unwrap().raw() =~= old(self).raw());
        }
        r.unwrap()
    }

    /// Turn the tree into something that can be drained.
    pub fn drain(self) -> (d: ExactSizePackedTreeDrain<T>)
        requires
            self.wf(),
        ensures
            d.wf(),
            d.inner() == self.inner(),
    {
        ExactSizePackedTreeDrain { forest: self.forest }
    }

    /// The values of all the nodes of the tree, in pre-order.
    pub fn iter_flattened(&self) -> (r: Vec<&T>)
        ensures
            r@.len() == self.raw().len(),
            forall|i: int| 0 <= i < r@.len() ==> *(#[trigger] r@[i]) == self.raw()[i].val.val,
    {
        self.forest.iter_flattened()
    }

    /// The values of all the nodes of the tree, in pre-order, to change them.
    /// Each slot of the tree ends up holding what its reference holds when
    /// the borrow ends, with the number of children and the size it had.
    pub fn iter_flattened_mut(&mut self) -> (r: Vec<&mut T>)
        ensures
            r@.len() == old(self).raw().len(),
            forall|i: int| 0 <= i < r@.len() ==> *(#[trigger] r@[i]) == old(self).raw()[i].val.val,
            final(self).raw().len() == old(self).raw().len(),
            final(self).inner().spec_num_trees() == old(self).inner().spec_num_trees(),
            forall|i: int|
                0 <= i < r@.len() ==> #[trigger] final(self).raw()[i] == (NodeData {
                    val: ExactSize {
                        val: *final(r@[i]),
                        num_children: old(self).raw()[i].val.num_children,
                    },
                    subtree_size: old(self).raw()[i].subtree_size,
                }),
            same_shape(old(self).raw(), final(self).raw()),
            same_counts(old(self).raw(), final(self).raw()),
    {
        self.forest.iter_flattened_mut()
    }

    /// The backing array: one slot per node, in pre-order.
    pub fn raw_data(&self) -> (r: &Vec<NodeData<ExactSize<T>>>)
        ensures
            r@ == self.raw(),
    {
        self.forest.raw_data()
    }

    /// The number of nodes of the tree.
    pub fn tot_num_nodes(&self) -> (r: usize)
        ensures
            r == self.raw().len(),
            self.wf() ==> r == tree_size(self@),
    {
        proof {
            if self.wf() {
                self.lemma_wf();
            }
        }
        self.forest.tot_num_nodes()
    }
}

impl<T> TryFrom<ExactSizePackedForest<T>> for ExactSizePackedTree<T> {
    type Error = ();

    /// Make a tree of a forest whose first slot spans all of it: for a
    /// well-formed forest, one that holds exactly one tree.
    fn try_from(forest: ExactSizePackedForest<T>) -> (r: Result<Self, ()>)
        ensures
            r is Ok <==> forest.raw().len() > 0 && forest.raw()[0].subtree_size
                == forest.raw().len(),
            forest.wf() ==> (r is Ok <==> forest@.len() == 1),
            r matches Ok(t) ==> t.inner() == forest && (forest.wf() ==> t.wf()),
    {
        proof {
            let s = forest.raw();
            if forest.wf() && s.len() > 0 {
                lemma_first(s);
                lemma_trees_len(s.subrange(s[0].subtree_size as int, s.len() as int));
            }
            if forest.wf() {
                lemma_trees_len(s);
            }
        }
        let one_root = {
            let data = forest.raw_data();
            data.len() > 0 && data[0].subtree_size == data.len()
        };
        if one_root {
            Ok(ExactSizePackedTree { forest })
        } else {
            Err(())
        }
    }
}

impl<T> vstd::std_specs::convert::TryFromSpecImpl<ExactSizePackedForest<T>> for ExactSizePackedTree<T> {
    open spec fn obeys_try_from_spec() -> bool {
        true
    }

    closed spec fn try_from_spec(forest: ExactSizePackedForest<T>) -> Result<Self, ()> {
        if forest.raw().len() > 0 && forest.raw()[0].subtree_size == forest.raw().len() {
            Ok(ExactSizePackedTree { forest })
        } else {
            Err(())
        }
    }
}

impl<T> From<ExactSizePackedTree<T>> for ExactSizePackedForest<T> {
    /// The forest that held the tree.
    fn from(tree: ExactSizePackedTree<T>) -> (r: Self) {
        tree.forest
    }
}

impl<T> vstd::std_specs::convert::FromSpecImpl<ExactSizePackedTree<T>> for ExactSizePackedForest<T> {
    open spec fn obeys_from_spec() -> bool {
        true
    }

    open spec fn from_spec(tree: ExactSizePackedTree<T>) -> Self {
        tree.inner()
    }
}

impl<T> AsRef<ExactSizePackedForest<T>> for ExactSizePackedTree<T> {
    /// The forest that holds the tree.
    fn as_ref(&self) -> (r: &ExactSizePackedForest<T>)
        ensures
            *r == self.inner(),
    {
        &self.forest
    }
}

/// A tree of that kind that is being drained. It owns the nodes until they
/// are drained.
pub struct ExactSizePackedTreeDrain<T> {
    forest: ExactSizePackedForest<T>,
}

impl<T> ExactSizePackedTreeDrain<T> {
    /// The forest that holds what is left to drain.
    pub closed spec fn inner(&self) -> ExactSizePackedForest<T> {
        self.forest
    }

    /// What is left is a well-formed forest.
    pub open spec fn wf(&self) -> bool {
        self.inner().wf()
    }

    /// The value of the root, moved out, and a draining iterator over the
    /// children of the root; `None` if the tree was drained before. Nothing
    /// is left afterwards.
    pub fn drain_root(&mut self) -> (r: Option<ExactSizeNodeDrain<T>>)
        requires
            old(self).wf(),
        ensures
            final(self).wf(),
            final(self).inner().raw() == Seq::<NodeData<ExactSize<T>>>::empty(),
            r is None <==> old(self).inner()@.len() == 0,
            r is Some ==> {
                let d = r.unwrap();
                &&& d.children.wf()
                &&& d.val == old(self).inner()@[0].val.val
                &&& d.children@ == old(self).inner()@[0].children
                &&& d.children.spec_len() == old(self).inner()@[0].children.len()
            },
    {
        self.forest.drain_trees().next()
    }

    /// Move the values of all the nodes that are left out, in pre-order.
    /// Nothing is left afterwards.
    pub fn drain_flattened(&mut self) -> (r: Vec<T>)
        ensures
            r@.len() == old(self).inner().raw().len(),
            forall|i: int|
                0 <= i < r@.len() ==> #[trigger] r@[i] == old(self).inner().raw()[i].val.val,
            final(self).wf(),
            final(self).inner().raw() == Seq::<NodeData<ExactSize<T>>>::empty(),
    {
        self.forest.drain_flattened()
    }
}

} // verus!
