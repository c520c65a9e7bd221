//! The checks a segment makes before it takes a slab in, and header updates of its slabs.

use super::error::SegmentError;
use super::header::{read_header, spec_read_header, write_header, Header, HEADER_LEN, HEADER_SIZE};
use super::layout::{spec_layout_ok, validate_header_layout};
use crate::codec::splice;
use crate::defaults::MIN_SLAB_CAPACITY;
use crate::io::Kind;
use crate::types::metatype::uuid_eq;
use vstd::prelude::*;
use vstd::string::*;

verus! {

/// The smallest capacity a slab of a segment may have.
pub open spec fn min_slab_len() -> usize {
    if MIN_SLAB_CAPACITY >= HEADER_LEN {
        MIN_SLAB_CAPACITY
    } else {
        HEADER_LEN
    }
}

/// Why a slab of `kind`, scheme `scheme`, recorded `capacity` and `mapped_len` mapped bytes
/// cannot join a segment of `segment_kind`; otherwise the arena length after the header.
pub open spec fn spec_check_slab(
    segment_kind: Kind,
    kind: Kind,
    scheme: Seq<char>,
    capacity: usize,
    mapped_len: usize,
) -> Result<u32, SegmentError> {
    if kind != segment_kind {
        Err(SegmentError::UnsupportedScheme(arbitrary()))
    } else if capacity < min_slab_len() || mapped_len < capacity || capacity - HEADER_LEN
        > u32::MAX {
        Err(SegmentError::CapacityRequired)
    } else {
        Ok((capacity - HEADER_LEN) as u32)
    }
}

/// Whether a slab can join a segment, and the arena length it then offers.
pub fn check_slab(
    segment_kind: Kind,
    kind: Kind,
    scheme: &str,
    capacity: usize,
    mapped_len: usize,
) -> (r: Result<u32, SegmentError>)
    ensures
        match spec_check_slab(segment_kind, kind, scheme@, capacity, mapped_len) {
            Ok(a) => r == Ok::<u32, SegmentError>(a),
            Err(SegmentError::UnsupportedScheme(_)) => r matches Err(
                SegmentError::UnsupportedScheme(s),
            ) && s@ == scheme@,
            Err(e) => r == Err::<u32, SegmentError>(e),
        },
{
    if kind != segment_kind {
        return Err(SegmentError::UnsupportedScheme(scheme.to_owned()));
    }
    let min = if MIN_SLAB_CAPACITY >= HEADER_LEN {
        MIN_SLAB_CAPACITY
    } else {
        HEADER_LEN
    };
    if capacity < min || mapped_len < capacity {
        return Err(SegmentError::CapacityRequired);
    }
    let arena = capacity - HEADER_LEN;
    if arena > 0xffff_ffffusize {
        return Err(SegmentError::CapacityRequired);
    }
    Ok(arena as u32)
}

/// Why an already mounted slab with mapping `m` and recorded `capacity` cannot be attached to
/// the segment `segment_uuid`; otherwise its header.
pub open spec fn spec_check_attached(m: Seq<u8>, capacity: usize, segment_uuid: [u8; 16]) -> Result<
    Header,
    SegmentError,
> {
    match spec_read_header(m) {
        None => Err(SegmentError::BadHeader),
        Some(h) => if !spec_layout_ok(h, m.len() as usize, capacity) {
            Err(SegmentError::BadHeader)
        } else if h.segment_uuid != segment_uuid {
            Err(SegmentError::SegmentUuidMismatch)
        } else if !h.spec_is_mounted() {
            Err(SegmentError::NotMounted)
        } else {
            Ok(h)
        },
    }
}

/// The header of a slab that is already mounted in the segment `segment_uuid`.
pub fn check_attached(mapping: &[u8], capacity: usize, segment_uuid: [u8; 16]) -> (r: Result<
    Header,
    SegmentError,
>)
    ensures
        r == spec_check_attached(mapping@, capacity, segment_uuid),
{
    let h = match read_header(mapping) {
        Some(h) => h,
        None => {
            return Err(SegmentError::BadHeader);
        },
    };
    match validate_header_layout(h, mapping.len(), capacity) {
        Ok(()) => {},
        Err(e) => {
            return Err(e);
        },
    }
    if !uuid_eq(&h.segment_uuid, &segment_uuid) {
        return Err(SegmentError::SegmentUuidMismatch);
    }
    if !h.is_mounted() {
        return Err(SegmentError::NotMounted);
    }
    Ok(h)
}

/// The header with the extension count replaced.
pub open spec fn with_extension_count(h: Header, count: u16) -> Header {
    Header { extension_count: count, ..h }
}

/// Record `count` slabs in the header at the start of `bytes`; bytes without a header are
/// left alone. Returns whether a header was updated.
pub fn set_extension_count(bytes: &mut [u8], count: u16) -> (r: bool)
    ensures
        r == (spec_read_header(old(bytes)@) is Some),
        match spec_read_header(old(bytes)@) {
            Some(h) => final(bytes)@ == splice(
                old(bytes)@,
                0,
                with_extension_count(h, count).spec_encoded(),
            ),
            None => final(bytes)@ == old(bytes)@,
        },
{
    match read_header(bytes) {
        Some(h) => {
            let nh = Header { extension_count: count, ..h };
            write_header(bytes, nh);
            true
        },
        None => false,
    }
}

/// Index of the first of `urls` equal to `url`.
pub fn locate(urls: &[&str], url: &str) -> (r: Option<usize>)
    ensures
        r matches Some(i) ==> i < urls@.len() && urls@[i as int]@ == url@ && forall|j: int|
            0 <= j < i ==> urls@[j]@ != url@,
        r is None ==> forall|j: int| 0 <= j < urls@.len() ==> urls@[j]@ != url@,
{
    let n = urls.len();
    let mut i: usize = 0;
    while i < n
        invariant
            n == urls@.len(),
            i <= n,
            forall|j: int| 0 <= j < i ==> urls@[j]@ != url@,
        decreases n - i,
    {
        if crate::url::str_is(urls[i], url) {
            return Some(i);
        }
        i = i + 1;
    }
    None
}

} // verus!
