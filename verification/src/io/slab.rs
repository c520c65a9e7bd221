//! [`HasSlab`]: a full segment backend (metadata + open + map + resize), and what it reports.

use super::{HasAccess, HasInfo, HasMapping, HasResize};
use crate::backend::ram::RamError;
use vstd::prelude::*;
use vstd::string::*;

verus! {

/// Segment slab: implements the full backend stack.
pub trait HasSlab: HasInfo + HasAccess + HasMapping + HasResize {

}

impl<T> HasSlab for T where T: HasInfo + HasAccess + HasMapping + HasResize {

}

/// Backends whose arena can be handed to the segment allocator, after which the mapping
/// must not move.
pub trait HasArenaClaim {
    spec fn spec_arena_claimed(&self) -> bool;

    fn arena_claimed(&self) -> (r: bool)
        ensures
            r == self.spec_arena_claimed(),
    ;

    fn set_arena_claimed(&mut self, claimed: bool)
        ensures
            final(self).spec_arena_claimed() == claimed,
    ;
}

/// A failure reported by a slab backend.
#[derive(Debug, Clone)]
pub enum SlabError {
    /// The process-local backend refused the request.
    Ram(RamError),
    /// An operating-system backend failed; the text is its report.
    Os(String),
}

impl SlabError {
    /// What the backend reported.
    pub open spec fn spec_message(&self) -> Seq<char> {
        match self {
            SlabError::Ram(e) => e.spec_message(),
            SlabError::Os(s) => s@,
        }
    }

    pub fn message(&self) -> (r: String)
        ensures
            r@ == self.spec_message(),
    {
        match self {
            SlabError::Ram(e) => String::from_str(e.message()),
            SlabError::Os(s) => s.clone(),
        }
    }
}

} // verus!
