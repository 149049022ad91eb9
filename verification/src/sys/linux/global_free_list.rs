//! The root of the process-wide list of free allocations.
use vstd::prelude::*;

verus! {

/// The process-wide free list: the address of its first allocation, zero
/// when empty.
pub struct GlobalFreeList {
    root: usize,
}

impl GlobalFreeList {
    /// The address of the first free allocation.
    pub closed spec fn root(self) -> usize {
        self.root
    }

    /// The empty list.
    pub fn new() -> (r: Self)
        ensures
            r.root() == 0,
    {
        GlobalFreeList { root: 0 }
    }

    /// Whether the list has no allocation.
    pub fn is_empty(&self) -> (r: bool)
        ensures
            r == (self.root() == 0),
    {
        self.root == 0
    }

    /// Reads the list's first allocation; the list itself is left as it is
    /// (it is taken by shared reference), and nothing is linked in.
    pub fn push_free_alloc(&self, alloc_start: usize, size: usize) {
        let _curr_start_alloc = self.root;
    }
}

} // verus!
