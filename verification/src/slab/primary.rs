//! Catalog chains of a mounted primary slab, read from and written to its mapping.

use crate::catalog::metatype::{spec_index_of_uuid, MetaTypeCatalog, MetaTypeCatalogKind};
use crate::catalog::wire::{Catalog, CatalogKind, CatalogView};
use crate::slab::chain::{
    chain_capacity, chain_row_vec, chain_rows, chunk_views, flatten_chain, load_chain, spec_chain,
    ChunkView,
};
use crate::slab::error::{map_type_err, spec_map_type_err, SegmentError};
use crate::slab::layout::{blob, spec_blob};
use crate::types::MetaTypeHeader;
use vstd::prelude::*;

verus! {

/// The whole chain as one catalog (rows in chain order, capacities summed).
pub open spec fn spec_chain_catalog<K: CatalogKind>(
    m: Seq<u8>,
    cap: usize,
    off: u32,
    len: u32,
) -> Result<CatalogView<K::Row>, SegmentError> {
    match spec_chain::<K>(m, cap, off, len) {
        Err(e) => Err(e),
        Ok(cs) => if chain_capacity(cs) > u32::MAX {
            Err(SegmentError::CapacityRequired)
        } else {
            Ok(
                CatalogView {
                    rows: chain_rows(cs),
                    capacity: chain_capacity(cs) as u32,
                    next_offset: 0,
                    next_len: 0,
                },
            )
        },
    }
}

/// Flattened view of the chain at (`off`, `len`) in the arena of `mapping`.
///
/// A chain whose capacities add up past `u32::MAX` is refused.
pub fn chain_catalog<K: CatalogKind>(mapping: &[u8], capacity: usize, off: u32, len: u32) -> (r:
    Result<Catalog<K>, SegmentError>)
    ensures
        match spec_chain_catalog::<K>(mapping@, capacity, off, len) {
            Ok(v) => r matches Ok(c) && c@ == v,
            Err(e) => r matches Err(x) && x == e,
        },
{
    let chunks = load_chain::<K>(mapping, capacity, off, len)?;
    let ghost vs = chunk_views(chunks@);
    let mut total: u64 = 0;
    let n = chunks.len();
    let mut i: usize = 0;
    assert(vs.take(0) =~= Seq::<ChunkView<K::Row>>::empty());
    while i < n
        invariant
            n == chunks@.len(),
            vs == chunk_views(chunks@),
            spec_chain::<K>(mapping@, capacity, off, len) == Ok::<Seq<ChunkView<K::Row>>, SegmentError>(vs),
            0 <= i <= n,
            total == chain_capacity(vs.take(i as int)),
            total <= u32::MAX,
        decreases n - i,
    {
        proof {
            let t = vs.take(i as int + 1);
            assert(t.drop_last() =~= vs.take(i as int));
        }
        total = total + chunks[i].catalog.capacity as u64;
        if total > u32::MAX as u64 {
            proof {
                crate::slab::chain::lemma_chain_capacity_prefix(vs, i as int + 1);
            }
            return Err(SegmentError::CapacityRequired);
        }
        i = i + 1;
    }
    assert(vs.take(n as int) =~= vs);
    Ok(flatten_chain(chunks.as_slice()))
}

/// The head chunk only (keeps its `next_offset` / `next_len`).
pub open spec fn spec_chain_head<K: CatalogKind>(m: Seq<u8>, cap: usize, off: u32, len: u32) -> Result<
    CatalogView<K::Row>,
    SegmentError,
> {
    match spec_blob(m, cap, off, len) {
        Err(e) => Err(e),
        Ok(b) => match Catalog::<K>::spec_read(b) {
            Err(te) => Err(spec_map_type_err(te)),
            Ok(v) => Ok(v),
        },
    }
}

pub fn chain_head<K: CatalogKind>(mapping: &[u8], capacity: usize, off: u32, len: u32) -> (r: Result<
    Catalog<K>,
    SegmentError,
>)
    ensures
        match spec_chain_head::<K>(mapping@, capacity, off, len) {
            Ok(v) => r matches Ok(c) && c@ == v,
            Err(e) => r matches Err(x) && x == e,
        },
{
    let bytes = blob(mapping, capacity, off, len)?;
    match Catalog::<K>::read_from(bytes) {
        Ok(c) => Ok(c),
        Err(e) => Err(map_type_err(e)),
    }
}

/// Number of chunks in the chain.
pub fn chain_chunk_count<K: CatalogKind>(mapping: &[u8], capacity: usize, off: u32, len: u32) -> (r:
    Result<usize, SegmentError>)
    ensures
        match spec_chain::<K>(mapping@, capacity, off, len) {
            Ok(cs) => r == Ok::<usize, SegmentError>(cs.len() as usize),
            Err(e) => r == Err::<usize, SegmentError>(e),
        },
{
    let chunks = load_chain::<K>(mapping, capacity, off, len)?;
    Ok(chunks.len())
}

/// The row at chain-wide `index`, if the chain has that many rows.
pub fn chain_row_at<K: CatalogKind>(
    mapping: &[u8],
    capacity: usize,
    off: u32,
    len: u32,
    index: u32,
) -> (r: Result<Option<K::Row>, SegmentError>)
    ensures
        match spec_chain::<K>(mapping@, capacity, off, len) {
            Ok(cs) => if index < chain_rows(cs).len() {
                r == Ok::<Option<K::Row>, SegmentError>(Some(chain_rows(cs)[index as int]))
            } else {
                r == Ok::<Option<K::Row>, SegmentError>(None)
            },
            Err(e) => r == Err::<Option<K::Row>, SegmentError>(e),
        },
{
    let chunks = load_chain::<K>(mapping, capacity, off, len)?;
    let rows = chain_row_vec(chunks.as_slice());
    if (index as usize) < rows.len() {
        Ok(Some(rows[index as usize]))
    } else {
        Ok(None)
    }
}

/// Chain-wide index of the first metatype row with the given UUID.
pub fn metatype_index_in_chain(
    mapping: &[u8],
    capacity: usize,
    off: u32,
    len: u32,
    type_uuid: [u8; 16],
) -> (r: Result<Option<u32>, SegmentError>)
    ensures
        match spec_chain::<MetaTypeCatalogKind>(mapping@, capacity, off, len) {
            Ok(cs) => match spec_index_of_uuid(chain_rows(cs), type_uuid) {
                Some(i) => if i <= u32::MAX {
                    r == Ok::<Option<u32>, SegmentError>(Some(i as u32))
                } else {
                    r == Ok::<Option<u32>, SegmentError>(None)
                },
                None => r == Ok::<Option<u32>, SegmentError>(None),
            },
            Err(e) => r == Err::<Option<u32>, SegmentError>(e),
        },
{
    let chunks = load_chain::<MetaTypeCatalogKind>(mapping, capacity, off, len)?;
    let rows = chain_row_vec(chunks.as_slice());
    let flat = MetaTypeCatalog::new(rows);
    Ok(flat.index_for_uuid(type_uuid))
}

} // verus!
