use crate::types::object::MemoryObject;
use vstd::prelude::*;

verus! {

/// Stable runtime handle to an object payload in a slab arena.
#[derive(Copy, Clone, Debug, PartialEq, Eq, Structural)]
pub struct TypeHandle {
    pub object: MemoryObject,
    pub slab_index: usize,
    pub offset: usize,
    pub len: usize,
}

/// `a + b`, or `usize::MAX` when the sum does not fit.
pub open spec fn sat_add(a: usize, b: usize) -> usize {
    if a + b > usize::MAX {
        usize::MAX
    } else {
        (a + b) as usize
    }
}

impl TypeHandle {
    pub fn new(object: MemoryObject, slab_index: usize, offset: usize, len: usize) -> (r: Self)
        ensures
            r == (TypeHandle { object, slab_index, offset, len }),
    {
        Self { object, slab_index, offset, len }
    }

    pub open spec fn spec_end(self) -> usize {
        sat_add(self.offset, self.len)
    }

    /// One past the last byte of the handle's region (saturating).
    pub fn end(self) -> (r: usize)
        ensures
            r == self.spec_end(),
    {
        self.offset.saturating_add(self.len)
    }
}

} // verus!
