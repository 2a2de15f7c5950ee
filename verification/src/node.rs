//! What a type must offer to serve as a node handle.

use std::fmt::Debug;
use std::hash::Hash;
use vstd::prelude::*;

verus! {

/// A node handle: cheap to copy, comparable, ordered, hashable, and standing
/// for a dense index by which a representation may address its own tables.
pub trait NodeIndex: Copy + Debug + Eq + Ord + Hash + Into<usize> + From<usize> {
    /// The index that this handle stands for.
    spec fn index(self) -> nat;

    /// The index loses nothing: two handles with one index are one handle.
    proof fn index_is_lossless(a: Self, b: Self)
        requires
            a.index() == b.index(),
        ensures
            a == b,
    ;

    /// The index of this handle.
    fn as_usize(self) -> (i: usize)
        ensures
            i == self.index(),
    ;
}

impl NodeIndex for usize {
    open spec fn index(self) -> nat {
        self as nat
    }

    proof fn index_is_lossless(a: Self, b: Self) {
    }

    fn as_usize(self) -> (i: usize) {
        self
    }
}

} // verus!
