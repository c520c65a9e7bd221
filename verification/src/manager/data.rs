//! Registered slab metadata.

use super::locator::Locator;
use crate::ids::{Id, SegmentId};
use vstd::prelude::*;

verus! {

/// Result of registering a slab.
#[derive(Debug)]
pub struct Registered {
    pub id: Id,
    pub locator: Locator,
    pub segment_id: SegmentId,
    /// Slab index at registration time.
    pub slab_index: usize,
}

impl Clone for Registered {
    fn clone(&self) -> (r: Self)
        ensures
            r.id == self.id,
            r.locator@ == self.locator@,
            r.segment_id == self.segment_id,
            r.slab_index == self.slab_index,
    {
        Registered {
            id: self.id,
            locator: self.locator.clone(),
            segment_id: self.segment_id,
            slab_index: self.slab_index,
        }
    }
}

/// Registered slab metadata (catalog only).
#[derive(Debug)]
pub struct MemEntry {
    pub locator: Locator,
    pub segment_id: SegmentId,
}

impl Clone for MemEntry {
    fn clone(&self) -> (r: Self)
        ensures
            r.locator@ == self.locator@,
            r.segment_id == self.segment_id,
    {
        MemEntry { locator: self.locator.clone(), segment_id: self.segment_id }
    }
}

} // verus!
