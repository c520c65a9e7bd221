//! Sizing of catalog blobs pinned in a talc-managed arena.

use crate::catalog::metatype::{
    spec_row_of, MetaTypeCatalog, MetaTypeCatalogKind, DEFAULT_METATYPE_CATALOG_CAPACITY,
};
use crate::catalog::objects::{ObjectCatalog, DEFAULT_OBJECT_CATALOG_CAPACITY};
use crate::catalog::wire::{
    lemma_mul_mono, lemma_rows_bytes, Catalog, CatalogKind, CatalogRow, CatalogView,
    CATALOG_HEADER_LEN,
};
use crate::codec::{lemma_le_roundtrip, put_bytes, splice, zero_bytes};
use crate::defaults::MIN_SLAB_CAPACITY;
use crate::slab::error::{map_type_err, spec_map_type_err, SegmentError};
use crate::slab::header::HEADER_LEN;
use crate::slab::layout::{
    capacity_for_arena_with_overhead, pinned_location, spec_capacity_for_arena,
    spec_pinned_location,
};
use crate::types::error::TypeError;
use crate::types::{MetaTypeHeader, ObjectHeader};
use talc::base::binning::Binning;
use vstd::prelude::*;

verus! {

/// Reads `Binning::BIN_COUNT` of talc's `DefaultBinning`, the number of free lists the
/// allocator keeps. In talc 5.1.1 `DefaultBinning` tracks its bins in a `[usize; 3]` bit
/// field and keeps one bin fewer than that field has bits; the contract states that value.
#[verifier::external_body]
fn talc_bin_count() -> (r: u32)
    ensures
        r == 3 * usize::BITS - 1,
{
    talc::DefaultBinning::BIN_COUNT
}

/// Reads talc's `base::CHUNK_UNIT`, the allocator's chunk granularity. talc 5.1.1 defines
/// it as four words; the contract states that value.
#[verifier::external_body]
fn talc_chunk_unit() -> (r: usize)
    ensures
        r as nat == vstd::layout::size_of::<usize>() * 4,
{
    talc::base::CHUNK_UNIT
}

/// Calls `std::mem::size_of::<Option<NonNull<u8>>>()`, the size of one free-list head. std
/// documents that `Option<NonNull<T>>` has the size of a pointer to `T`, and that a pointer
/// to a sized type has the size of `usize`; the contract states that.
#[verifier::external_body]
fn free_list_head_size() -> (r: usize)
    ensures
        r as nat == vstd::layout::size_of::<usize>(),
{
    std::mem::size_of::<Option<std::ptr::NonNull<u8>>>()
}

/// `a * b`, or `usize::MAX` when the product does not fit.
fn mul_or_max(a: usize, b: usize) -> (r: usize)
    ensures
        a * b <= usize::MAX ==> r == a * b,
        a * b > usize::MAX ==> r == usize::MAX,
{
    match a.checked_mul(b) {
        Some(p) => p,
        None => usize::MAX,
    }
}

/// Bytes talc keeps for itself in the first heap, counted in words of `usize::BITS / 8`
/// bytes: one free-list head for each of its `3 * usize::BITS - 1` bins, one word, and three
/// chunk units of four words each.
pub open spec fn spec_talc_metadata_overhead() -> nat {
    ((3 * usize::BITS - 1) + 1 + 3 * 4) as nat * (usize::BITS / 8) as nat
}

/// Bytes talc keeps for itself in the first heap: one free-list head per bin, a word, and
/// three chunk units (saturating; on 32- and 64-bit targets nothing saturates).
pub fn talc_metadata_overhead() -> (r: usize)
    ensures
        r == spec_talc_metadata_overhead(),
{
    broadcast use vstd::layout::layout_of_primitives;

    let bins = talc_bin_count();
    let head = free_list_head_size();
    let chunk = talc_chunk_unit();
    let word = std::mem::size_of::<usize>();
    let gap_lists = mul_or_max(bins as usize, head);
    let chunks = mul_or_max(chunk, 3);
    proof {
        // `usize` is 32 or 64 bits wide: neither product nor sum comes near `usize::MAX`.
        if usize::BITS == 64 {
            assert(word == 8 && head == 8 && chunk == 32 && bins == 191);
            assert(spec_talc_metadata_overhead() == 1632) by (nonlinear_arith)
                requires
                    usize::BITS == 64,
            ;
        } else {
            assert(usize::BITS == 32);
            assert(word == 4 && head == 4 && chunk == 16 && bins == 95);
            assert(spec_talc_metadata_overhead() == 432) by (nonlinear_arith)
                requires
                    usize::BITS == 32,
            ;
        }
    }
    gap_lists.saturating_add(word).saturating_add(chunks)
}

/// talc's overhead is at most 1632 bytes (its value on 64-bit targets; 432 on 32-bit ones).
pub proof fn lemma_talc_overhead_bound()
    ensures
        spec_talc_metadata_overhead() <= 1632,
{
    if usize::BITS == 64 {
        assert(spec_talc_metadata_overhead() == 1632) by (nonlinear_arith)
            requires
                usize::BITS == 64,
        ;
    } else {
        assert(spec_talc_metadata_overhead() == 432) by (nonlinear_arith)
            requires
                usize::BITS == 32,
        ;
    }
}

/// Row slots for a catalog pinned in an arena of `arena_len` bytes after `already_reserved`
/// bytes, capped at `default_capacity`; the allocator's own overhead
/// ([`spec_talc_metadata_overhead`]) is taken off first.
pub fn capacity_for_arena(
    arena_len: usize,
    row_len: usize,
    default_capacity: u32,
    already_reserved: usize,
) -> (r: Result<u32, SegmentError>)
    requires
        row_len > 0,
    ensures
        r == spec_capacity_for_arena(
            arena_len,
            row_len,
            default_capacity,
            already_reserved,
            spec_talc_metadata_overhead() as usize,
        ),
{
    let overhead = talc_metadata_overhead();
    capacity_for_arena_with_overhead(arena_len, row_len, default_capacity, already_reserved, overhead)
}

/// Bytes a catalog blob reserves in the arena: its header and all its slots. A catalog whose
/// reservation does not fit in `usize` is refused.
pub fn pinned_reserved_len<K: CatalogKind>(catalog: &Catalog<K>) -> (r: Result<usize, SegmentError>)
    ensures
        Catalog::<K>::spec_reserved_len(catalog.capacity as int) <= usize::MAX ==> r == Ok::<
            usize,
            SegmentError,
        >(Catalog::<K>::spec_reserved_len(catalog.capacity as int) as usize),
        Catalog::<K>::spec_reserved_len(catalog.capacity as int) > usize::MAX ==> r == Err::<
            usize,
            SegmentError,
        >(SegmentError::CapacityRequired),
{
    match Catalog::<K>::reserved_len_checked(catalog.capacity) {
        Some(n) => Ok(n),
        None => Err(SegmentError::CapacityRequired),
    }
}

/// `n` zero bytes.
pub open spec fn zero_run(n: nat) -> Seq<u8> {
    Seq::new(n, |i: int| 0u8)
}

/// What placing the catalog `v` in the blob allocated at address `ptr` does: the blob's
/// arena-relative location and the mapping after. The `alloc_len` bytes of the allocation are
/// zeroed first, then the catalog is written at their start.
pub open spec fn spec_place_catalog<K: CatalogKind>(
    m: Seq<u8>,
    ptr: usize,
    base: usize,
    arena_start: usize,
    alloc_len: usize,
    v: CatalogView<K::Row>,
) -> (Result<(u32, u32), SegmentError>, Seq<u8>) {
    let reserved = Catalog::<K>::spec_reserved_len(v.capacity as int);
    if reserved > usize::MAX {
        (Err(SegmentError::CapacityRequired), m)
    } else {
        match spec_pinned_location(ptr, base, m.len() as usize, arena_start, reserved as usize) {
            Err(e) => (Err(e), m),
            Ok((off, len)) => {
                let start = arena_start + off;
                if start + alloc_len > m.len() {
                    (Err(SegmentError::BadHeader), m)
                } else {
                    let z = splice(m, start, zero_run(alloc_len as nat));
                    if v.rows.len() > v.capacity {
                        (Err(spec_map_type_err(TypeError::CapacityExceeded)), z)
                    } else if alloc_len < reserved {
                        (Err(spec_map_type_err(TypeError::OutOfBounds)), z)
                    } else {
                        (Ok((off, len)), splice(z, start, Catalog::<K>::spec_wire(v)))
                    }
                }
            },
        }
    }
}

/// Write `catalog` into the blob the allocator handed out at address `ptr`: `mapping` sits at
/// address `base` and its arena starts at `arena_start`; the allocation is `alloc_len` bytes.
/// Gives the blob's arena-relative offset and reserved length.
pub fn place_catalog<K: CatalogKind>(
    mapping: &mut [u8],
    ptr: usize,
    base: usize,
    arena_start: usize,
    alloc_len: usize,
    catalog: &Catalog<K>,
) -> (r: Result<(u32, u32), SegmentError>)
    ensures
        (r, final(mapping)@) == spec_place_catalog::<K>(
            old(mapping)@,
            ptr,
            base,
            arena_start,
            alloc_len,
            catalog@,
        ),
{
    let reserved = pinned_reserved_len(catalog)?;
    let (off, len) = pinned_location(ptr, base, mapping.len(), arena_start, reserved)?;
    let start = arena_start + off as usize;
    if alloc_len > mapping.len() - start {
        return Err(SegmentError::BadHeader);
    }
    let end = start + alloc_len;
    zero_bytes(mapping, start, end);
    proof {
        assert(Seq::new((end - start) as nat, |i: int| 0u8) =~= zero_run(alloc_len as nat));
    }
    if catalog.rows.len() > catalog.capacity as usize {
        return Err(map_type_err(TypeError::CapacityExceeded));
    }
    if alloc_len < reserved {
        return Err(map_type_err(TypeError::OutOfBounds));
    }
    let b = catalog.wire_bytes();
    proof {
        lemma_le_roundtrip();
        lemma_rows_bytes(catalog@.rows);
        Catalog::<K>::lemma_reserved_fits(catalog.capacity);
        lemma_mul_mono(catalog@.rows.len() as int, catalog.capacity as int, K::Row::spec_row_len() as int);
    }
    put_bytes(mapping, start, b.as_slice());
    Ok((off, len))
}

/// The metatype catalog a primary arena of `arena_len` bytes is mounted with: as many slots
/// as fit (up to the default), holding its own row.
pub fn primary_metatype_catalog(arena_len: u32) -> (r: Result<MetaTypeCatalog, SegmentError>)
    ensures
        match spec_capacity_for_arena(
                arena_len as usize,
                MetaTypeHeader::spec_row_len() as usize,
                DEFAULT_METATYPE_CATALOG_CAPACITY,
                0,
                spec_talc_metadata_overhead() as usize,
            ) {
                Err(e) => r matches Err(x) && x == e,
                Ok(cap) => r matches Ok(c) && c@.rows == seq![spec_row_of::<MetaTypeCatalog>()]
                    && c@.capacity == cap && c@.next_offset == 0 && c@.next_len == 0,
            },
{
    proof {
        MetaTypeHeader::lemma_row_len_bound();
    }
    let capr = capacity_for_arena(
        arena_len as usize,
        MetaTypeHeader::row_len(),
        DEFAULT_METATYPE_CATALOG_CAPACITY,
        0,
    );
    let cap = match capr {
        Ok(c) => c,
        Err(e) => {
            return Err(e);
        },
    };
    match MetaTypeCatalog::for_mount(cap) {
        Ok(c) => Ok(c),
        Err(e) => Err(map_type_err(e)),
    }
}

/// The object catalog a primary arena of `arena_len` bytes is mounted with, after
/// `already_reserved` bytes of metatype catalog: as many slots as fit (up to the default),
/// empty.
pub fn primary_object_catalog(arena_len: u32, already_reserved: u32) -> (r: Result<
    ObjectCatalog,
    SegmentError,
>)
    ensures
        match spec_capacity_for_arena(
                arena_len as usize,
                ObjectHeader::spec_row_len() as usize,
                DEFAULT_OBJECT_CATALOG_CAPACITY,
                already_reserved as usize,
                spec_talc_metadata_overhead() as usize,
            ) {
                Err(e) => r matches Err(x) && x == e,
                Ok(cap) => r matches Ok(c) && c@.rows.len() == 0 && c@.capacity == cap
                    && c@.next_offset == 0 && c@.next_len == 0,
            },
{
    proof {
        ObjectHeader::lemma_row_len_bound();
    }
    let capr = capacity_for_arena(
        arena_len as usize,
        ObjectHeader::row_len(),
        DEFAULT_OBJECT_CATALOG_CAPACITY,
        already_reserved as usize,
    );
    let cap = match capr {
        Ok(c) => c,
        Err(e) => {
            return Err(e);
        },
    };
    match ObjectCatalog::for_mount(cap) {
        Ok(c) => Ok(c),
        Err(e) => Err(map_type_err(e)),
    }
}

/// The arena of a primary slab of at least the smallest slab size holds both primary catalogs
/// at their default capacities: the metatype catalog first, then the object catalog after at
/// most the metatype catalog's full reservation.
pub proof fn lemma_primary_catalogs_fit(arena_len: u32, already_reserved: u32)
    requires
        arena_len >= MIN_SLAB_CAPACITY - HEADER_LEN,
        already_reserved <= Catalog::<MetaTypeCatalogKind>::spec_reserved_len(
            DEFAULT_METATYPE_CATALOG_CAPACITY as int,
        ),
    ensures
        spec_capacity_for_arena(
            arena_len as usize,
            MetaTypeHeader::spec_row_len() as usize,
            DEFAULT_METATYPE_CATALOG_CAPACITY,
            0,
            spec_talc_metadata_overhead() as usize,
        ) == Ok::<u32, SegmentError>(DEFAULT_METATYPE_CATALOG_CAPACITY),
        spec_capacity_for_arena(
            arena_len as usize,
            ObjectHeader::spec_row_len() as usize,
            DEFAULT_OBJECT_CATALOG_CAPACITY,
            already_reserved as usize,
            spec_talc_metadata_overhead() as usize,
        ) == Ok::<u32, SegmentError>(DEFAULT_OBJECT_CATALOG_CAPACITY),
{
    lemma_talc_overhead_bound();
    let ov = spec_talc_metadata_overhead() as usize;
    assert(ov as int == spec_talc_metadata_overhead());
    assert(MetaTypeHeader::spec_row_len() == 32 && ObjectHeader::spec_row_len() == 32);
    assert(DEFAULT_METATYPE_CATALOG_CAPACITY == 256 && DEFAULT_OBJECT_CATALOG_CAPACITY == 4096);
    assert(already_reserved <= 24 + 256 * 32);
    let meta_rows = (arena_len - ov - CATALOG_HEADER_LEN) / 32;
    assert(meta_rows >= 256) by (nonlinear_arith)
        requires
            meta_rows == (arena_len - ov - CATALOG_HEADER_LEN) / 32,
            arena_len - ov - CATALOG_HEADER_LEN >= 256 * 32,
    ;
    let obj_rows = (arena_len - already_reserved - ov - CATALOG_HEADER_LEN) / 32;
    assert(obj_rows >= 4096) by (nonlinear_arith)
        requires
            obj_rows == (arena_len - already_reserved - ov - CATALOG_HEADER_LEN) / 32,
            arena_len - already_reserved - ov - CATALOG_HEADER_LEN >= 4096 * 32,
    ;
}

} // verus!
