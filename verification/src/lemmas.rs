//! Facts about the flat form that the proofs of the library rest on.

use vstd::prelude::*;
use crate::model::{NodeData, Tree, is_forest, is_tree, trees_of, tree_of, same_shape,
    flatten, flatten_tree, forest_size, tree_size, preorder, preorder_tree, record};

verus! {

/// Two well-formed runs placed back to back form a well-formed run, which
/// stands for the trees of the first followed by the trees of the second.
pub proof fn lemma_concat<T>(a: Seq<NodeData<T>>, b: Seq<NodeData<T>>)
    requires
        is_forest(a),
        is_forest(b),
    ensures
        is_forest(a + b),
        trees_of(a + b) == trees_of(a) + trees_of(b),
    decreases a.len(),
{
    let s = a + b;
    if a.len() == 0 {
        assert(s =~= b);
        assert(trees_of(a) + trees_of(b) =~= trees_of(b));
    } else {
        let n = a[0].subtree_size as int;
        let rest = a.subrange(n, a.len() as int);
        lemma_concat(rest, b);
        assert(s[0] == a[0]);
        assert(s.subrange(1, n) =~= a.subrange(1, n));
        assert(s.subrange(n, s.len() as int) =~= rest + b);
        let first = seq![Tree { val: a[0].val, children: trees_of(a.subrange(1, n)) }];
        assert(trees_of(s) == first + (trees_of(rest) + trees_of(b)));
        assert(trees_of(a) == first + trees_of(rest));
        assert(first + (trees_of(rest) + trees_of(b)) =~= (first + trees_of(rest)) + trees_of(b));
    }
}

/// A slot whose size is one more than the length of a well-formed run,
/// followed by that run, is the flat form of one tree: the slot's value over
/// the trees of the run.
pub proof fn lemma_single<T>(node: NodeData<T>, c: Seq<NodeData<T>>)
    requires
        is_forest(c),
        node.subtree_size == c.len() + 1,
    ensures
        is_tree(seq![node] + c),
        is_forest(seq![node] + c),
        tree_of(seq![node] + c) == (Tree { val: node.val, children: trees_of(c) }),
        trees_of(seq![node] + c) == seq![Tree { val: node.val, children: trees_of(c) }],
{
    let s = seq![node] + c;
    let n = s.len() as int;
    assert(s[0] == node);
    assert(s.subrange(1, n) =~= c);
    assert(s.subrange(n, n) =~= Seq::<NodeData<T>>::empty());
    assert(is_forest(s.subrange(n, n)));
    assert(is_forest(s.subrange(1, n)));
    assert(trees_of(s.subrange(n, n)) =~= Seq::<Tree<T>>::empty());
    let t = Tree { val: node.val, children: trees_of(c) };
    assert(trees_of(s) =~= seq![t]);
}

/// The flat form of one tree is a well-formed run that stands for that tree
/// alone.
pub proof fn lemma_tree_is_forest<T>(s: Seq<NodeData<T>>)
    requires
        is_tree(s),
    ensures
        is_forest(s),
        trees_of(s) == seq![tree_of(s)],
{
    let c = s.subrange(1, s.len() as int);
    lemma_single(s[0], c);
    assert(seq![s[0]] + c =~= s);
}

/// The first slot of a non-empty well-formed run spans one tree, the first
/// tree of the run; what follows it is a well-formed run of the other trees.
pub proof fn lemma_first<T>(s: Seq<NodeData<T>>)
    requires
        is_forest(s),
        s.len() > 0,
    ensures
        1 <= s[0].subtree_size <= s.len(),
        is_tree(s.subrange(0, s[0].subtree_size as int)),
        is_forest(s.subrange(s[0].subtree_size as int, s.len() as int)),
        trees_of(s).len() >= 1,
        trees_of(s)[0] == tree_of(s.subrange(0, s[0].subtree_size as int)),
        trees_of(s).drop_first() == trees_of(s.subrange(s[0].subtree_size as int, s.len() as int)),
{
    let n = s[0].subtree_size as int;
    let head = s.subrange(0, n);
    assert(head.subrange(1, n) =~= s.subrange(1, n));
    let first = seq![Tree { val: s[0].val, children: trees_of(s.subrange(1, n)) }];
    let rest = trees_of(s.subrange(n, s.len() as int));
    assert(trees_of(s) == first + rest);
    assert((first + rest).drop_first() =~= rest);
}

/// A run is empty exactly when it stands for no tree, and it never stands for
/// more trees than it has slots.
pub proof fn lemma_trees_len<T>(s: Seq<NodeData<T>>)
    requires
        is_forest(s),
    ensures
        trees_of(s).len() <= s.len(),
        trees_of(s).len() == 0 <==> s.len() == 0,
    decreases s.len(),
{
    if s.len() > 0 {
        let n = s[0].subtree_size as int;
        lemma_trees_len(s.subrange(n, s.len() as int));
    }
}

/// Changing values only, not sizes, keeps a run well formed.
pub proof fn lemma_same_shape<T>(a: Seq<NodeData<T>>, b: Seq<NodeData<T>>)
    requires
        is_forest(a),
        same_shape(a, b),
    ensures
        is_forest(b),
        trees_of(b).len() == trees_of(a).len(),
    decreases a.len(),
{
    if a.len() > 0 {
        let n = a[0].subtree_size as int;
        assert(b[0].subtree_size == a[0].subtree_size);
        let a1 = a.subrange(1, n);
        let b1 = b.subrange(1, n);
        assert(same_shape(a1, b1)) by {
            assert forall|i: int| 0 <= i < a1.len() implies (#[trigger] a1[i]).subtree_size
                == b1[i].subtree_size by {
                assert(a1[i] == a[i + 1]);
                assert(b1[i] == b[i + 1]);
            }
        }
        let a2 = a.subrange(n, a.len() as int);
        let b2 = b.subrange(n, b.len() as int);
        assert(same_shape(a2, b2)) by {
            assert forall|i: int| 0 <= i < a2.len() implies (#[trigger] a2[i]).subtree_size
                == b2[i].subtree_size by {
                assert(a2[i] == a[i + n]);
                assert(b2[i] == b[i + n]);
            }
        }
        lemma_same_shape(a1, b1);
        lemma_same_shape(a2, b2);
    }
}

/// Every slot of a well-formed run is the root of one tree that lies inside
/// the run.
pub proof fn lemma_node<T>(s: Seq<NodeData<T>>, i: int)
    requires
        is_forest(s),
        0 <= i < s.len(),
    ensures
        1 <= s[i].subtree_size,
        i + s[i].subtree_size <= s.len(),
        is_tree(s.subrange(i, i + s[i].subtree_size)),
    decreases s.len(),
{
    let n = s[0].subtree_size as int;
    let m = s[i].subtree_size as int;
    if i == 0 {
        lemma_first(s);
    } else if i < n {
        let inner = s.subrange(1, n);
        lemma_node(inner, i - 1);
        assert(inner[i - 1] == s[i]);
        assert(inner.subrange(i - 1, i - 1 + m) =~= s.subrange(i, i + m));
    } else {
        let rest = s.subrange(n, s.len() as int);
        lemma_node(rest, i - n);
        assert(rest[i - n] == s[i]);
        assert(rest.subrange(i - n, i - n + m) =~= s.subrange(i, i + m));
    }
}

/// A one-tree run has one slot per node of its tree.
pub proof fn lemma_tree_len<T>(s: Seq<NodeData<T>>)
    requires
        is_tree(s),
    ensures
        tree_size(tree_of(s)) == s.len(),
        forest_size(tree_of(s).children) == s.len() - 1,
{
    lemma_flatten_trees_of(s.subrange(1, s.len() as int));
}

/// A well-formed run is the flat form of the trees it stands for, and has one
/// slot per node of them.
pub proof fn lemma_flatten_trees_of<T>(s: Seq<NodeData<T>>)
    requires
        is_forest(s),
    ensures
        flatten(trees_of(s)) == s,
        forest_size(trees_of(s)) == s.len(),
    decreases s.len(),
{
    if s.len() == 0 {
        assert(flatten(trees_of(s)) =~= s);
    } else {
        let n = s[0].subtree_size as int;
        let inner = s.subrange(1, n);
        let rest = s.subrange(n, s.len() as int);
        lemma_flatten_trees_of(inner);
        lemma_flatten_trees_of(rest);
        let t0 = Tree { val: s[0].val, children: trees_of(inner) };
        let ts = trees_of(s);
        assert(ts == seq![t0] + trees_of(rest));
        assert(ts[0] == t0);
        assert(ts.drop_first() =~= trees_of(rest));
        assert(tree_size(t0) == n);
        assert(record(t0) == s[0]);
        assert(flatten_tree(t0) == seq![s[0]] + inner);
        assert(flatten(ts) == flatten_tree(t0) + flatten(ts.drop_first()));
        assert((seq![s[0]] + inner) + rest =~= s);
    }
}

/// The flat form of one tree whose size fits in a `usize` is a well-formed
/// one-tree run, which stands for that tree and has one slot per node.
pub proof fn lemma_tree_of_flatten_tree<T>(t: Tree<T>)
    requires
        tree_size(t) <= usize::MAX,
    ensures
        is_tree(flatten_tree(t)),
        tree_of(flatten_tree(t)) == t,
        flatten_tree(t).len() == tree_size(t),
    decreases t, 0nat,
{
    lemma_trees_of_flatten(t.children);
    lemma_single(record(t), flatten(t.children));
    assert(tree_of(flatten_tree(t)) =~= t);
}

/// The flat form of a list of trees whose total size fits in a `usize` is a
/// well-formed run, which stands for exactly those trees and has one slot per
/// node.
pub proof fn lemma_trees_of_flatten<T>(ts: Seq<Tree<T>>)
    requires
        forest_size(ts) <= usize::MAX,
    ensures
        is_forest(flatten(ts)),
        trees_of(flatten(ts)) == ts,
        flatten(ts).len() == forest_size(ts),
    decreases ts, 1nat,
{
    if ts.len() == 0 {
        assert(trees_of(flatten(ts)) =~= ts);
    } else {
        lemma_tree_of_flatten_tree(ts[0]);
        lemma_trees_of_flatten(ts.drop_first());
        lemma_tree_is_forest(flatten_tree(ts[0]));
        lemma_concat(flatten_tree(ts[0]), flatten(ts.drop_first()));
        assert(seq![ts[0]] + ts.drop_first() =~= ts);
    }
}

/// The pre-order walk of a list of trees visits one node per slot of the flat
/// form, and the slot at each position is the record of the node visited at
/// that position.
pub proof fn lemma_preorder_flatten<T>(ts: Seq<Tree<T>>)
    ensures
        preorder(ts).len() == flatten(ts).len(),
        preorder(ts).len() == forest_size(ts),
        forall|i: int| 0 <= i < preorder(ts).len()
            ==> #[trigger] flatten(ts)[i] == record(preorder(ts)[i]),
    decreases ts, 1nat,
{
    if ts.len() > 0 {
        lemma_preorder_flatten_tree(ts[0]);
        lemma_preorder_flatten(ts.drop_first());
        let a = preorder_tree(ts[0]);
        let b = preorder(ts.drop_first());
        let fa = flatten_tree(ts[0]);
        let fb = flatten(ts.drop_first());
        assert forall|i: int| 0 <= i < preorder(ts).len() implies #[trigger] flatten(ts)[i]
            == record(preorder(ts)[i]) by {
            if i < a.len() {
                assert(flatten(ts)[i] == fa[i]);
                assert(preorder(ts)[i] == a[i]);
            } else {
                assert(flatten(ts)[i] == fb[i - a.len()]);
                assert(preorder(ts)[i] == b[i - a.len()]);
            }
        }
    }
}

/// The same for one tree.
pub proof fn lemma_preorder_flatten_tree<T>(t: Tree<T>)
    ensures
        preorder_tree(t).len() == flatten_tree(t).len(),
        preorder_tree(t).len() == tree_size(t),
        forall|i: int| 0 <= i < preorder_tree(t).len()
            ==> #[trigger] flatten_tree(t)[i] == record(preorder_tree(t)[i]),
    decreases t, 0nat,
{
    lemma_preorder_flatten(t.children);
    let b = preorder(t.children);
    let fb = flatten(t.children);
    assert forall|i: int| 0 <= i < preorder_tree(t).len() implies #[trigger] flatten_tree(t)[i]
        == record(preorder_tree(t)[i]) by {
        if i == 0 {
            assert(flatten_tree(t)[0] == record(t));
            assert(preorder_tree(t)[0] == t);
        } else {
            assert(flatten_tree(t)[i] == fb[i - 1]);
            assert(preorder_tree(t)[i] == b[i - 1]);
        }
    }
}

/// In a well-formed run the tree rooted at position `i` is the node that a
/// pre-order walk of the run's trees visits at position `i`.
pub proof fn lemma_preorder_index<T>(s: Seq<NodeData<T>>, i: int)
    requires
        is_forest(s),
        0 <= i < s.len(),
    ensures
        preorder(trees_of(s)).len() == s.len(),
        i + s[i].subtree_size <= s.len(),
        preorder(trees_of(s))[i] == tree_of(s.subrange(i, i + s[i].subtree_size)),
    decreases s.len(),
{
    let n = s[0].subtree_size as int;
    let m = s[i].subtree_size as int;
    let inner = s.subrange(1, n);
    let rest = s.subrange(n, s.len() as int);
    let ts = trees_of(s);
    let t0 = Tree { val: s[0].val, children: trees_of(inner) };
    lemma_node(s, i);
    lemma_flatten_trees_of(s);
    lemma_preorder_flatten(ts);
    lemma_flatten_trees_of(inner);
    lemma_preorder_flatten(trees_of(inner));
    assert(ts == seq![t0] + trees_of(rest));
    assert(ts[0] == t0);
    assert(ts.drop_first() =~= trees_of(rest));
    assert(ts.len() > 0);
    assert(preorder(ts) == preorder_tree(ts[0]) + preorder(ts.drop_first()));
    assert(preorder_tree(t0) == seq![t0] + preorder(t0.children));
    assert(preorder(ts) == (seq![t0] + preorder(trees_of(inner))) + preorder(trees_of(rest)));
    lemma_flatten_trees_of(rest);
    lemma_preorder_flatten(trees_of(rest));
    if i == 0 {
        lemma_first(s);
        assert(preorder(ts)[0] == t0);
        assert(s.subrange(0, n).subrange(1, n) =~= inner);
    } else if i < n {
        lemma_preorder_index(inner, i - 1);
        assert(inner[i - 1] == s[i]);
        assert(inner.subrange(i - 1, i - 1 + m) =~= s.subrange(i, i + m));
        assert(preorder(ts)[i] == preorder(trees_of(inner))[i - 1]);
    } else {
        lemma_preorder_index(rest, i - n);
        assert(rest[i - n] == s[i]);
        assert(rest.subrange(i - n, i - n + m) =~= s.subrange(i, i + m));
        assert(preorder(ts)[i] == preorder(trees_of(rest))[i - n]);
    }
}

} // verus!
