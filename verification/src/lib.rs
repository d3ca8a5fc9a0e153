//! Trees and forests stored in one contiguous array, in pre-order, with one
//! `usize` of overhead per node.
//!
//! A [`PackedForest`] holds its nodes in a single `Vec`. Each slot holds the
//! value of a node and the size of the subtree rooted at it, which is all it
//! takes to find the children of a node (they follow it) and its next sibling
//! (it follows the subtree). A [`PackedTree`] is a forest with exactly one
//! tree. The `ExactSize` variants also record, per node, the number of its
//! children, so that iterators over siblings know how many are left.
//!
//! Trees are built top-down through a [`NodeBuilder`] per node: a builder
//! collects the finished children of its node, and finishing it adds the node,
//! followed by those children, to the forest or to the builder of the parent.
//! A builder that is dropped without being finished adds nothing, and drops
//! what it had collected. Once a tree is in a forest, its values can change
//! and be moved out, its shape cannot change.
//!
//! Every function states what it does over a logical model: a forest stands
//! for a sequence of [`Tree`]s, and its array is the flat form of that
//! sequence. The modules `model`, `lemmas` and `laws` hold the model, the
//! facts proved of it, and what holds of every forest.

pub mod model;
pub mod lemmas;
pub mod forest;
pub mod mutable;
pub mod drain;
pub mod tree;
pub mod wire;
pub mod laws;
pub mod exactsize;

pub use crate::model::{NodeData, Tree};
pub use crate::forest::{PackedForest, NodeBuilder, NodeIter, NodeRef};
pub use crate::mutable::{NodeIterMut, NodeRefMut};
pub use crate::drain::{NodeDrain, NodeListDrain};
pub use crate::tree::{PackedTree, PackedTreeDrain};
pub use crate::wire::{FlatError, FlatErrorKind};
pub use crate::exactsize::{ExactSize, ExactSizePackedForest, ExactSizeNodeIter, ExactSizeNodeRef,
    ExactSizeNodeBuilder, ExactSizeNodeRefMut, ExactSizeNodeIterMut, ExactSizeNodeListDrain,
    ExactSizeNodeDrain, ExactSizePackedTree, ExactSizePackedTreeDrain};
