//! Central sizing defaults for segment slabs.

use vstd::prelude::*;

verus! {

/// Minimum backend mapping size for any slab in a segment (enforced on open/register).
pub const MIN_SLAB_CAPACITY: usize = 524288;

/// Slab size used when `capacity` is `None` on open/create.
pub const DEFAULT_SLAB_CAPACITY: usize = MIN_SLAB_CAPACITY;

/// Default slab mapping size when `capacity` is omitted.
pub const DEFAULT_CAPACITY: usize = DEFAULT_SLAB_CAPACITY;

} // verus!
