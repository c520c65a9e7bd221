//! Opaque identifiers shared by the registry and the typed objects.

use vstd::prelude::*;

verus! {

/// Opaque handle for a registered slab.
#[derive(Copy, Clone, Debug, PartialEq, Eq, Hash, Structural)]
pub struct Id(pub u64);

/// Opaque id for a segment instance.
#[derive(Copy, Clone, Debug, PartialEq, Eq, Hash, Structural)]
pub struct SegmentId(pub u64);

/// 128-bit identity of a memory domain, as high and low halves.
#[derive(Clone, Copy, Debug, PartialEq, Eq, Structural)]
pub struct DomainId {
    pub high: u64,
    pub low: u64,
}

/// Location and identity of a typed value in shared memory, as handed across the native
/// boundary.
#[derive(Clone, Copy, Debug)]
pub struct MemoryHandle {
    pub abi_version: u32,
    pub flags: u32,
    pub domain_id: DomainId,
    pub offset: u64,
    pub byte_size: u64,
    pub schema_hash: u64,
    pub generation: u64,
    pub type_fqn: [u8; 8],
}

} // verus!
