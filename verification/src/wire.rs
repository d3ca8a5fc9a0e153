//! The flat wire form: a pre-order sequence of values with subtree sizes, as
//! it comes from outside, checked before it becomes a forest.

use vstd::prelude::*;
use crate::model::{NodeData, is_forest};
use crate::forest::PackedForest;

verus! {

/// What is wrong with a flat sequence that is not a forest.
#[derive(Clone, Copy, PartialEq, Eq, Debug)]
pub enum FlatErrorKind {
    /// A slot declares a size of zero, or a size that reaches beyond the end
    /// of the subtree that holds it.
    InvalidSize,
    /// The sequence ends before a declared subtree is complete.
    TooShort,
}

/// Why a flat sequence was refused, and where: `num_read` counts the slots
/// read, at the nesting level where the fault was found, up to and including
/// the faulty one (a faulty root counts as none read).
#[derive(Clone, Copy, PartialEq, Eq, Debug)]
pub struct FlatError {
    pub kind: FlatErrorKind,
    pub num_read: usize,
}

/// The first fault found when reading from the front of `s` the children of
/// one node, which span `n` slots in all, after `num_read` slots of that node
/// were read already; `None` when the `n` slots are there and well formed.
pub open spec fn scan_children<T>(s: Seq<NodeData<T>>, n: nat, num_read: nat) -> Option<FlatError>
    decreases s.len(),
{
    if n == 0 {
        None
    } else if s.len() == 0 {
        Some(FlatError { kind: FlatErrorKind::TooShort, num_read: num_read as usize })
    } else {
        let size = s[0].subtree_size as nat;
        if size == 0 || size > n {
            Some(FlatError { kind: FlatErrorKind::InvalidSize, num_read: (num_read + 1) as usize })
        } else {
            match scan_children(s.drop_first(), (size - 1) as nat, 0) {
                Some(e) => Some(e),
                None => if size <= s.len() {
                    scan_children(
                        s.subrange(size as int, s.len() as int),
                        (n - size) as nat,
                        num_read + size,
                    )
                } else {
                    None
                },
            }
        }
    }
}

/// The first fault found when reading `s` as a list of trees; `None` when `s`
/// is one.
pub open spec fn scan_trees<T>(s: Seq<NodeData<T>>) -> Option<FlatError>
    decreases s.len(),
{
    if s.len() == 0 {
        None
    } else {
        let size = s[0].subtree_size as nat;
        if size == 0 {
            Some(FlatError { kind: FlatErrorKind::InvalidSize, num_read: 0 })
        } else {
            match scan_children(s.drop_first(), (size - 1) as nat, 0) {
                Some(e) => Some(e),
                None => if size <= s.len() {
                    scan_trees(s.subrange(size as int, s.len() as int))
                } else {
                    None
                },
            }
        }
    }
}

/// Reading `n` slots of children finds no fault exactly when the slots are
/// there and form a well-formed run.
pub proof fn lemma_scan_children<T>(s: Seq<NodeData<T>>, n: nat, num_read: nat)
    ensures
        scan_children(s, n, num_read) is None <==> n <= s.len()
            && is_forest(s.subrange(0, n as int)),
    decreases s.len(),
{
    if n == 0 {
        assert(s.subrange(0, 0).len() == 0);
    } else if s.len() == 0 {
    } else {
        let size = s[0].subtree_size as nat;
        let head = s.subrange(0, n as int);
        if size == 0 || size > n {
            if n <= s.len() {
                assert(head[0] == s[0]);
            }
        } else {
            let inner = s.drop_first();
            lemma_scan_children(inner, (size - 1) as nat, 0);
            if n <= s.len() {
                assert(head[0] == s[0]);
                assert(head.subrange(1, size as int) =~= inner.subrange(0, size - 1));
            }
            if scan_children(inner, (size - 1) as nat, 0) is None {
                let rest = s.subrange(size as int, s.len() as int);
                lemma_scan_children(rest, (n - size) as nat, num_read + size);
                if n <= s.len() {
                    assert(head.subrange(size as int, n as int) =~= rest.subrange(0, n - size));
                }
            }
        }
    }
}

/// Reading a sequence as a list of trees finds no fault exactly when the
/// sequence is the flat form of one.
pub proof fn lemma_scan_trees<T>(s: Seq<NodeData<T>>)
    ensures
        scan_trees(s) is None <==> is_forest(s),
    decreases s.len(),
{
    if s.len() > 0 {
        let size = s[0].subtree_size as nat;
        if size > 0 {
            let inner = s.drop_first();
            lemma_scan_children(inner, (size - 1) as nat, 0);
            if size <= s.len() {
                assert(s.subrange(1, size as int) =~= inner.subrange(0, size - 1));
            }
            if scan_children(inner, (size - 1) as nat, 0) is None {
                lemma_scan_trees(s.subrange(size as int, s.len() as int));
            }
        }
    }
}

/// Read, from position `start` of `nodes`, the children of one node, which
/// span `n` slots in all, and report the first fault.
fn rec_check_n_children<T>(nodes: &Vec<NodeData<T>>, start: usize, n: usize) -> (r: Result<
    (),
    FlatError,
>)
    requires
        start <= nodes@.len(),
    ensures
        match scan_children(nodes@.subrange(start as int, nodes@.len() as int), n as nat, 0) {
            None => r is Ok,
            Some(e) => r == Err::<(), FlatError>(e),
        },
    decreases nodes@.len() - start,
{
    let ghost all = nodes@.subrange(start as int, nodes@.len() as int);
    let len = nodes.len();
    let mut num_read: usize = 0;
    while num_read < n
        invariant
            len == nodes@.len(),
            num_read <= n,
            start + num_read <= nodes@.len(),
            start <= nodes@.len(),
            all == nodes@.subrange(start as int, nodes@.len() as int),
            scan_children(all, n as nat, 0) == scan_children(
                nodes@.subrange(start + num_read, nodes@.len() as int),
                (n - num_read) as nat,
                num_read as nat,
            ),
        decreases n - num_read,
    {
        let pos = start + num_read;
        let ghost here = nodes@.subrange(pos as int, nodes@.len() as int);
        if pos >= len {
            return Err(FlatError { kind: FlatErrorKind::TooShort, num_read });
        }
        let size = nodes[pos].subtree_size;
        assert(here[0] == nodes@[pos as int]);
        num_read += 1;
        let max_num_left_to_read = n - num_read;
        if size == 0 {
            return Err(FlatError { kind: FlatErrorKind::InvalidSize, num_read });
        }
        let n_rec = size - 1;
        if n_rec > max_num_left_to_read {
            return Err(FlatError { kind: FlatErrorKind::InvalidSize, num_read });
        }
        proof {
            assert(here.drop_first() =~= nodes@.subrange(pos + 1, nodes@.len() as int));
            lemma_scan_children(here.drop_first(), n_rec as nat, 0);
        }
        match rec_check_n_children(nodes, pos + 1, n_rec) {
            Err(e) => {
                return Err(e);
            },
            Ok(_) => {},
        }
        num_read += n_rec;
        proof {
            assert(here.subrange(size as int, here.len() as int) =~= nodes@.subrange(
                start + num_read,
                nodes@.len() as int,
            ));
        }
    }
    Ok(())
}

/// Read `nodes` as a list of trees and report the first fault.
fn check_trees<T>(nodes: &Vec<NodeData<T>>) -> (r: Result<(), FlatError>)
    ensures
        match scan_trees(nodes@) {
            None => r is Ok,
            Some(e) => r == Err::<(), FlatError>(e),
        },
{
    let mut pos: usize = 0;
    assert(nodes@.subrange(0, nodes@.len() as int) =~= nodes@);
    while pos < nodes.len()
        invariant
            pos <= nodes@.len(),
            scan_trees(nodes@) == scan_trees(nodes@.subrange(pos as int, nodes@.len() as int)),
        decreases nodes@.len() - pos,
    {
        let ghost here = nodes@.subrange(pos as int, nodes@.len() as int);
        let subtree_size = nodes[pos].subtree_size;
        assert(here[0] == nodes@[pos as int]);
        if subtree_size == 0 {
            return Err(FlatError { kind: FlatErrorKind::InvalidSize, num_read: 0 });
        }
        proof {
            assert(here.drop_first() =~= nodes@.subrange(pos + 1, nodes@.len() as int));
            lemma_scan_children(here.drop_first(), (subtree_size - 1) as nat, 0);
        }
        match rec_check_n_children(nodes, pos + 1, subtree_size - 1) {
            Err(e) => {
                return Err(e);
            },
            Ok(_) => {},
        }
        proof {
            assert(here.subrange(subtree_size as int, here.len() as int) =~= nodes@.subrange(
                pos + subtree_size,
                nodes@.len() as int,
            ));
        }
        pos += subtree_size;
    }
    proof {
        assert(nodes@.subrange(pos as int, nodes@.len() as int).len() == 0);
    }
    Ok(())
}

impl<T> PackedForest<T> {
    /// Make a forest of a flat pre-order sequence of values with subtree
    /// sizes, as a decoder hands it over. The sequence is adopted as it is
    /// when it is the flat form of a list of trees, and refused with the
    /// first fault otherwise.
    pub fn from_flat(nodes: Vec<NodeData<T>>) -> (r: Result<PackedForest<T>, FlatError>)
        ensures
            r is Ok <==> is_forest(nodes@),
            r matches Ok(f) ==> f.wf() && f.raw() == nodes@,
            r matches Err(e) ==> scan_trees(nodes@) == Some(e),
    {
        proof {
            lemma_scan_trees(nodes@);
        }
        match check_trees(&nodes) {
            Ok(_) => Ok(PackedForest::adopt(nodes)),
            Err(e) => Err(e),
        }
    }
}

} // verus!
