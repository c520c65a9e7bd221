//! Rolled-up catalog usage of a segment.

use crate::catalog::wire::{Catalog, CatalogKind, CatalogRow};
use crate::slab::chain::{chain_capacity, chain_rows, chunk_views, load_chain, spec_chain, ChunkView};
use crate::slab::error::SegmentError;
use vstd::prelude::*;

verus! {

/// Per-catalog-kind totals across all chain chunks.
#[derive(Clone, Debug, PartialEq, Eq)]
pub struct CatalogKindStats {
    pub tag: &'static str,
    pub chunks: usize,
    pub rows: usize,
    pub slot_capacity: u32,
    pub reserved_bytes: usize,
    pub used_wire_bytes: usize,
}

/// Bytes reserved by the chunks of a chain (header plus all slots of each chunk).
pub open spec fn chain_reserved<K: CatalogKind>(cs: Seq<ChunkView<K::Row>>) -> int
    decreases cs.len(),
{
    if cs.len() == 0 {
        0
    } else {
        chain_reserved::<K>(cs.drop_last()) + Catalog::<K>::spec_reserved_len(
            cs.last().2.capacity as int,
        )
    }
}

/// Bytes of valid wire data in the chunks of a chain (header plus used rows of each chunk).
pub open spec fn chain_used<K: CatalogKind>(cs: Seq<ChunkView<K::Row>>) -> int
    decreases cs.len(),
{
    if cs.len() == 0 {
        0
    } else {
        chain_used::<K>(cs.drop_last()) + Catalog::<K>::spec_used_len(cs.last().2.rows.len() as int)
    }
}

/// A chain whose chunks each hold no more rows than slots uses no more bytes than it reserves,
/// and holds no more rows than slots.
pub proof fn lemma_chain_sums<K: CatalogKind>(cs: Seq<ChunkView<K::Row>>)
    requires
        forall|i: int| 0 <= i < cs.len() ==> (#[trigger] cs[i]).2.rows.len() <= cs[i].2.capacity,
    ensures
        0 <= chain_used::<K>(cs) <= chain_reserved::<K>(cs),
        0 <= chain_rows(cs).len() <= chain_capacity(cs),
    decreases cs.len(),
{
    if cs.len() > 0 {
        let init = cs.drop_last();
        assert forall|i: int| 0 <= i < init.len() implies (#[trigger] init[i]).2.rows.len()
            <= init[i].2.capacity by {
            assert(init[i] == cs[i]);
        }
        lemma_chain_sums::<K>(init);
        let last = cs.last();
        assert(last == cs[cs.len() - 1]);
        K::Row::lemma_row_len_bound();
        crate::catalog::wire::lemma_mul_mono(
            last.2.rows.len() as int,
            last.2.capacity as int,
            K::Row::spec_row_len() as int,
        );
        assert(last.2.rows.len() * K::Row::spec_row_len() >= 0) by (nonlinear_arith)
            requires
                K::Row::spec_row_len() > 0,
        ;
    }
}

/// What `chain_stats` gives for the chain at (`off`, `len`).
pub open spec fn spec_chain_stats<K: CatalogKind>(
    m: Seq<u8>,
    cap: usize,
    off: u32,
    len: u32,
    tag: &'static str,
) -> Result<CatalogKindStats, SegmentError> {
    match spec_chain::<K>(m, cap, off, len) {
        Err(e) => Err(e),
        Ok(cs) => if chain_capacity(cs) > u32::MAX || chain_reserved::<K>(cs) > usize::MAX {
            Err(SegmentError::CapacityRequired)
        } else {
            Ok(
                CatalogKindStats {
                    tag,
                    chunks: cs.len() as usize,
                    rows: chain_rows(cs).len() as usize,
                    slot_capacity: chain_capacity(cs) as u32,
                    reserved_bytes: chain_reserved::<K>(cs) as usize,
                    used_wire_bytes: chain_used::<K>(cs) as usize,
                },
            )
        },
    }
}

/// Chunk, row, slot and byte totals of the chain at (`off`, `len`) in the arena of `mapping`.
///
/// Totals that do not fit their type are refused.
pub fn chain_stats<K: CatalogKind>(
    mapping: &[u8],
    capacity: usize,
    off: u32,
    len: u32,
    tag: &'static str,
) -> (r: Result<CatalogKindStats, SegmentError>)
    ensures
        r == spec_chain_stats::<K>(mapping@, capacity, off, len, tag),
{
    let chunks = load_chain::<K>(mapping, capacity, off, len)?;
    let ghost vs = chunk_views(chunks@);
    proof {
        assert forall|i: int| 0 <= i < vs.len() implies (#[trigger] vs[i]).2.rows.len()
            <= vs[i].2.capacity by {
            crate::slab::chain::lemma_chain_views_well_formed::<K>(mapping@, capacity, off, len, i);
        }
    }
    let n = chunks.len();
    let mut rows: usize = 0;
    let mut slots: u64 = 0;
    let mut reserved: u64 = 0;
    let mut used: u64 = 0;
    let mut i: usize = 0;
    assert(vs.take(0) =~= Seq::<ChunkView<K::Row>>::empty());
    while i < n
        invariant
            n == chunks@.len(),
            vs == chunk_views(chunks@),
            spec_chain::<K>(mapping@, capacity, off, len) == Ok::<Seq<ChunkView<K::Row>>, SegmentError>(vs),
            forall|k: int| 0 <= k < vs.len() ==> (#[trigger] vs[k]).2.rows.len() <= vs[k].2.capacity,
            0 <= i <= n,
            rows == chain_rows(vs.take(i as int)).len(),
            slots == chain_capacity(vs.take(i as int)),
            reserved == chain_reserved::<K>(vs.take(i as int)),
            used == chain_used::<K>(vs.take(i as int)),
            slots <= u32::MAX,
            reserved <= usize::MAX,
            used <= reserved,
        decreases n - i,
    {
        let ghost t = vs.take(i as int + 1);
        proof {
            assert(t.drop_last() =~= vs.take(i as int));
            assert(t.last() == vs[i as int]);
            assert forall|k: int| 0 <= k < t.len() implies (#[trigger] t[k]).2.rows.len()
                <= t[k].2.capacity by {
                assert(t[k] == vs[k]);
            }
            lemma_chain_sums::<K>(t);
            lemma_chain_sums::<K>(vs.take(i as int));
            lemma_chain_prefix_sums::<K>(vs, i as int + 1);
        }
        let c = &chunks[i].catalog;
        let slots2 = slots + c.capacity as u64;
        let res = match Catalog::<K>::reserved_len_checked(c.capacity) {
            Some(x) => x,
            None => return Err(SegmentError::CapacityRequired),
        };
        if slots2 > u32::MAX as u64 || res as u64 > usize::MAX as u64 - reserved {
            return Err(SegmentError::CapacityRequired);
        }
        proof {
            crate::catalog::wire::lemma_mul_mono(
                c@.rows.len() as int,
                c@.capacity as int,
                K::Row::spec_row_len() as int,
            );
        }
        rows = rows + c.rows.len();
        slots = slots2;
        reserved = reserved + res as u64;
        used = used + c.used_len() as u64;
        i = i + 1;
    }
    assert(vs.take(n as int) =~= vs);
    Ok(
        CatalogKindStats {
            tag,
            chunks: n,
            rows,
            slot_capacity: slots as u32,
            reserved_bytes: reserved as usize,
            used_wire_bytes: used as usize,
        },
    )
}

/// Sums over a prefix of a chain do not exceed the sums over the whole chain.
pub proof fn lemma_chain_prefix_sums<K: CatalogKind>(cs: Seq<ChunkView<K::Row>>, i: int)
    requires
        0 <= i <= cs.len(),
    ensures
        chain_capacity(cs.take(i)) <= chain_capacity(cs),
        chain_reserved::<K>(cs.take(i)) <= chain_reserved::<K>(cs),
    decreases cs.len(),
{
    K::Row::lemma_row_len_bound();
    if i < cs.len() {
        lemma_chain_prefix_sums::<K>(cs.drop_last(), i);
        assert(cs.drop_last().take(i) =~= cs.take(i));
        assert(cs.last().2.capacity * K::Row::spec_row_len() >= 0) by (nonlinear_arith)
            requires
                K::Row::spec_row_len() > 0,
        ;
    } else {
        assert(cs.take(i) =~= cs);
    }
}

/// Slab, allocator and catalog breakdown for one segment.
#[derive(Clone, Debug, PartialEq, Eq)]
pub struct SegmentMemoryOverview {
    pub slabs: usize,
    pub raw_bytes: usize,
    pub header_bytes: usize,
    pub arena_bytes: usize,
    pub talc_claimed: usize,
    pub talc_allocated: usize,
    pub talc_overhead: usize,
    pub talc_available: usize,
    pub unclaimed_arena: usize,
    pub catalogs: [CatalogKindStats; 2],
}

impl SegmentMemoryOverview {
    /// Bytes reserved by both catalogs.
    pub fn catalog_reserved_total(&self) -> (r: usize)
        requires
            self.catalogs[0].reserved_bytes + self.catalogs[1].reserved_bytes <= usize::MAX,
        ensures
            r == self.catalogs[0].reserved_bytes + self.catalogs[1].reserved_bytes,
    {
        self.catalogs[0].reserved_bytes + self.catalogs[1].reserved_bytes
    }

    /// Bytes of valid wire data in both catalogs.
    pub fn catalog_used_wire_total(&self) -> (r: usize)
        requires
            self.catalogs[0].used_wire_bytes + self.catalogs[1].used_wire_bytes <= usize::MAX,
        ensures
            r == self.catalogs[0].used_wire_bytes + self.catalogs[1].used_wire_bytes,
    {
        self.catalogs[0].used_wire_bytes + self.catalogs[1].used_wire_bytes
    }

    /// Allocated bytes that are not catalog blobs (saturating at zero).
    pub fn heap_reserved_in_talc(&self) -> (r: usize)
        requires
            self.catalogs[0].reserved_bytes + self.catalogs[1].reserved_bytes <= usize::MAX,
        ensures
            r == if self.talc_allocated >= self.catalogs[0].reserved_bytes
                + self.catalogs[1].reserved_bytes {
                self.talc_allocated - self.catalogs[0].reserved_bytes
                    - self.catalogs[1].reserved_bytes
            } else {
                0
            },
    {
        self.talc_allocated.saturating_sub(self.catalog_reserved_total())
    }
}

} // verus!
