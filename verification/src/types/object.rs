use crate::ids::{Id, SegmentId};
use vstd::prelude::*;

verus! {

/// Shared identity anchor for all custom memory-resident types.
#[derive(Copy, Clone, Debug, PartialEq, Eq, Structural)]
pub struct MemoryObject {
    pub id: Id,
    pub segment_id: SegmentId,
}

impl MemoryObject {
    pub fn new(id: Id, segment_id: SegmentId) -> (r: Self)
        ensures
            r == (MemoryObject { id, segment_id }),
    {
        Self { id, segment_id }
    }
}

} // verus!
