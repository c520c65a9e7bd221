//! Arena bounds of a slab mapping, header validation and catalog blob addressing.

use crate::catalog::wire::CATALOG_HEADER_LEN;
use crate::defaults::{DEFAULT_CAPACITY, MIN_SLAB_CAPACITY};
use crate::slab::error::SegmentError;
use crate::slab::header::{read_header, spec_read_header, Header, HEADER_LEN, HEADER_SIZE, MAGIC, VERSION};
use crate::types::handle::sat_add;
use vstd::prelude::*;

verus! {

/// The capacity a slab is opened with: the default when none is given; below the minimum
/// it is refused.
pub open spec fn spec_normalize_capacity(capacity: Option<usize>) -> Result<usize, SegmentError> {
    let cap = match capacity {
        Some(c) => c,
        None => DEFAULT_CAPACITY,
    };
    if cap < MIN_SLAB_CAPACITY {
        Err(SegmentError::CapacityRequired)
    } else {
        Ok(cap)
    }
}

pub fn normalize_capacity(capacity: Option<usize>) -> (r: Result<usize, SegmentError>)
    ensures
        r == spec_normalize_capacity(capacity),
{
    let cap = match capacity {
        Some(c) => c,
        None => DEFAULT_CAPACITY,
    };
    if cap < MIN_SLAB_CAPACITY {
        return Err(SegmentError::CapacityRequired);
    }
    Ok(if cap >= HEADER_LEN {
        cap
    } else {
        HEADER_LEN
    })
}

/// Whether header `h` describes a sound layout for a mapping of `mapping_len` bytes opened
/// with `capacity` bytes.
pub open spec fn spec_layout_ok(h: Header, mapping_len: usize, capacity: usize) -> bool {
    let header_len = h.header_len as usize;
    let offset = h.offset as usize;
    let len = h.len as usize;
    &&& h.magic == MAGIC && h.version == VERSION
    &&& header_len >= HEADER_SIZE
    &&& header_len <= HEADER_LEN
    &&& offset >= header_len
    &&& sat_add(offset, len) <= mapping_len
    &&& sat_add(offset, len) <= capacity
    &&& (h.spec_is_primary() && h.spec_is_mounted()) ==> {
        &&& h.metatype_catalog_len != 0
        &&& h.object_catalog_len != 0
        &&& sat_add(h.metatype_catalog_offset as usize, h.metatype_catalog_len as usize) <= len
        &&& sat_add(h.object_catalog_offset as usize, h.object_catalog_len as usize) <= len
    }
}

/// Check the header's tag, version, arena bounds and (for a mounted primary) catalog bounds.
pub fn validate_header_layout(h: Header, mapping_len: usize, capacity: usize) -> (r: Result<
    (),
    SegmentError,
>)
    ensures
        r == (if spec_layout_ok(h, mapping_len, capacity) {
            Ok(())
        } else {
            Err(SegmentError::BadHeader)
        }),
{
    if h.magic != MAGIC || h.version != VERSION {
        return Err(SegmentError::BadHeader);
    }
    let header_len = h.header_len as usize;
    let offset = h.offset as usize;
    let len = h.len as usize;
    let metatype_catalog_len = h.metatype_catalog_len as usize;
    let metatype_catalog_off = h.metatype_catalog_offset as usize;
    if header_len < HEADER_SIZE || header_len > HEADER_LEN || offset < header_len
        || offset.saturating_add(len) > mapping_len || offset.saturating_add(len) > capacity {
        return Err(SegmentError::BadHeader);
    }
    if h.is_primary() && h.is_mounted() {
        let object_off = h.object_catalog_offset as usize;
        let object_len = h.object_catalog_len as usize;
        if metatype_catalog_len == 0 || object_len == 0 || metatype_catalog_off.saturating_add(
            metatype_catalog_len,
        ) > len || object_off.saturating_add(object_len) > len {
            return Err(SegmentError::BadHeader);
        }
    }
    Ok(())
}

/// The arena of a mapping, as `(start, end)`: where its validated header says it is.
pub open spec fn spec_arena_range(mapping: Seq<u8>, capacity: usize) -> Result<(int, int), SegmentError> {
    match spec_read_header(mapping) {
        None => Err(SegmentError::BadHeader),
        Some(h) => if spec_layout_ok(h, mapping.len() as usize, capacity) && h.offset + h.len
            <= usize::MAX {
            Ok((h.offset as int, h.offset + h.len))
        } else {
            Err(SegmentError::BadHeader)
        },
    }
}

/// Byte range of the arena inside a slab mapping.
pub fn arena_range(mapping: &[u8], capacity: usize) -> (r: Result<std::ops::Range<usize>, SegmentError>)
    ensures
        match spec_arena_range(mapping@, capacity) {
            Ok((s, e)) => r matches Ok(rg) && rg.start == s && rg.end == e && e <= mapping@.len(),
            Err(x) => r == Err::<std::ops::Range<usize>, SegmentError>(x),
        },
{
    let h = match read_header(mapping) {
        Some(h) => h,
        None => return Err(SegmentError::BadHeader),
    };
    validate_header_layout(h, mapping.len(), capacity)?;
    let start = h.offset as usize;
    match start.checked_add(h.len as usize) {
        Some(end) => Ok(start..end),
        None => Err(SegmentError::BadHeader),
    }
}

/// The primary slab's header, when it is a mounted primary.
pub open spec fn spec_primary_header(mapping: Seq<u8>) -> Result<Header, SegmentError> {
    match spec_read_header(mapping) {
        None => Err(SegmentError::BadHeader),
        Some(h) => if !h.spec_is_primary() || !h.spec_is_mounted() {
            Err(SegmentError::NotMounted)
        } else {
            Ok(h)
        },
    }
}

/// Header of the primary slab mapping; it must be a mounted primary.
pub fn primary_header(mapping: &[u8]) -> (r: Result<Header, SegmentError>)
    ensures
        r == spec_primary_header(mapping@),
{
    let h = match read_header(mapping) {
        Some(h) => h,
        None => return Err(SegmentError::BadHeader),
    };
    if !h.is_primary() || !h.is_mounted() {
        return Err(SegmentError::NotMounted);
    }
    Ok(h)
}

/// Mapping-relative start and length of the blob at arena offset `offset`, `len` bytes long.
pub open spec fn spec_blob_bounds(mapping: Seq<u8>, capacity: usize, offset: u32, len: u32) -> Result<
    (int, int),
    SegmentError,
> {
    match spec_arena_range(mapping, capacity) {
        Err(e) => Err(e),
        Ok((s, e)) => if len == 0 || offset + len > e - s {
            Err(SegmentError::BadHeader)
        } else {
            Ok((s + offset, len as int))
        },
    }
}

pub fn blob_bounds(mapping: &[u8], capacity: usize, offset: u32, len: u32) -> (r: Result<
    (usize, usize),
    SegmentError,
>)
    ensures
        match spec_blob_bounds(mapping@, capacity, offset, len) {
            Ok((s, l)) => r == Ok::<(usize, usize), SegmentError>((s as usize, l as usize)) && s + l
                <= mapping@.len(),
            Err(x) => r == Err::<(usize, usize), SegmentError>(x),
        },
{
    let range = arena_range(mapping, capacity)?;
    let off = offset as usize;
    let blob_len = len as usize;
    let arena_len = range.end - range.start;
    if len == 0 || off > arena_len || blob_len > arena_len - off {
        return Err(SegmentError::BadHeader);
    }
    Ok((range.start + off, blob_len))
}

/// The bytes of a catalog blob.
pub open spec fn spec_blob(mapping: Seq<u8>, capacity: usize, offset: u32, len: u32) -> Result<
    Seq<u8>,
    SegmentError,
> {
    match spec_blob_bounds(mapping, capacity, offset, len) {
        Err(e) => Err(e),
        Ok((s, l)) => Ok(mapping.subrange(s, s + l)),
    }
}

pub fn blob(mapping: &[u8], capacity: usize, offset: u32, len: u32) -> (r: Result<&[u8], SegmentError>)
    ensures
        match spec_blob(mapping@, capacity, offset, len) {
            Ok(b) => r matches Ok(x) && x@ == b,
            Err(e) => r matches Err(x) && x == e,
        },
{
    let (start, blob_len) = blob_bounds(mapping, capacity, offset, len)?;
    assert(start + blob_len <= mapping@.len());
    Ok(vstd::slice::slice_subrange(mapping, start, start + blob_len))
}

/// Number of catalog row slots that fit in the arena after `already_reserved` bytes and the
/// allocator's `overhead`, capped at `default_capacity`.
pub open spec fn spec_capacity_for_arena(
    arena_len: usize,
    row_len: usize,
    default_capacity: u32,
    already_reserved: usize,
    overhead: usize,
) -> Result<u32, SegmentError> {
    let available = arena_len - already_reserved - overhead;
    if available < CATALOG_HEADER_LEN + row_len {
        Err(SegmentError::CapacityRequired)
    } else {
        let max_rows = (available - CATALOG_HEADER_LEN) / (row_len as int);
        let cap = if max_rows < default_capacity {
            max_rows
        } else {
            default_capacity as int
        };
        if cap == 0 {
            Err(SegmentError::CapacityRequired)
        } else {
            Ok(cap as u32)
        }
    }
}

/// Row slots for a catalog pinned in an arena of `arena_len` bytes, given the allocator's
/// metadata overhead.
pub fn capacity_for_arena_with_overhead(
    arena_len: usize,
    row_len: usize,
    default_capacity: u32,
    already_reserved: usize,
    overhead: usize,
) -> (r: Result<u32, SegmentError>)
    requires
        row_len > 0,
    ensures
        r == spec_capacity_for_arena(arena_len, row_len, default_capacity, already_reserved, overhead),
{
    let available = arena_len.saturating_sub(already_reserved).saturating_sub(overhead);
    if available < CATALOG_HEADER_LEN || available - CATALOG_HEADER_LEN < row_len {
        return Err(SegmentError::CapacityRequired);
    }
    let max_rows = (available - CATALOG_HEADER_LEN) / row_len;
    let cap = if max_rows < default_capacity as usize {
        max_rows
    } else {
        default_capacity as usize
    };
    if cap == 0 {
        return Err(SegmentError::CapacityRequired);
    }
    Ok(cap as u32)
}

/// Arena-relative offset and length of a catalog blob allocated at address `ptr` inside the
/// mapping at address `base` (`mapping_len` bytes, arena at `arena_start`).
pub open spec fn spec_pinned_location(
    ptr: usize,
    base: usize,
    mapping_len: usize,
    arena_start: usize,
    reserved_len: usize,
) -> Result<(u32, u32), SegmentError> {
    if ptr < base + arena_start || ptr >= base + mapping_len {
        Err(SegmentError::BadHeader)
    } else if reserved_len > u32::MAX {
        Err(SegmentError::CapacityRequired)
    } else if ptr - base - arena_start > u32::MAX {
        Err(SegmentError::BadHeader)
    } else {
        Ok(((ptr - base - arena_start) as u32, reserved_len as u32))
    }
}

/// Where a freshly allocated catalog blob sits, relative to the arena start.
pub fn pinned_location(
    ptr: usize,
    base: usize,
    mapping_len: usize,
    arena_start: usize,
    reserved_len: usize,
) -> (r: Result<(u32, u32), SegmentError>)
    ensures
        r == spec_pinned_location(ptr, base, mapping_len, arena_start, reserved_len),
{
    if ptr < base || ptr - base < arena_start || ptr - base >= mapping_len {
        return Err(SegmentError::BadHeader);
    }
    if reserved_len > u32::MAX as usize {
        return Err(SegmentError::CapacityRequired);
    }
    let rel = ptr - base - arena_start;
    if rel > u32::MAX as usize {
        return Err(SegmentError::BadHeader);
    }
    Ok((rel as u32, reserved_len as u32))
}

} // verus!
