//! Linked catalog chains: load, flatten, look up, append and relink.
//!
//! A chain starts at the blob named in the primary header; each chunk's header names the
//! next chunk (`0` / `0` on the last one).

use crate::catalog::wire::{Catalog, CatalogKind, CatalogRow, CatalogView};
use crate::codec::{put_bytes, splice};
use crate::types::TypeError;
use crate::slab::error::{map_type_err, spec_map_type_err, SegmentError};
use crate::slab::layout::{blob, blob_bounds, spec_blob, spec_blob_bounds};
use vstd::prelude::*;

verus! {

/// One pinned catalog chunk: where its blob is in the arena, and its content.
#[derive(Clone)]
pub struct CatalogChunk<K: CatalogKind> {
    pub offset: u32,
    pub len: u32,
    pub catalog: Catalog<K>,
}

/// Content of a chunk: arena offset, blob length and catalog.
pub type ChunkView<R> = (u32, u32, CatalogView<R>);

/// The views of a sequence of chunks.
pub open spec fn chunk_views<K: CatalogKind>(cs: Seq<CatalogChunk<K>>) -> Seq<ChunkView<K::Row>> {
    Seq::new(cs.len(), |i: int| (cs[i].offset, cs[i].len, cs[i].catalog@))
}

/// `done` followed by the chunks of `rest`, or the error of `rest`.
pub open spec fn prepend<T>(done: Seq<T>, rest: Result<Seq<T>, SegmentError>) -> Result<
    Seq<T>,
    SegmentError,
> {
    match rest {
        Ok(s) => Ok(done + s),
        Err(e) => Err(e),
    }
}

/// The chain starting at (`offset`, `len`), following at most `fuel` links.
///
/// A chain that does not end within `fuel` links is refused as a bad header.
pub open spec fn spec_load_chain<K: CatalogKind>(
    m: Seq<u8>,
    cap: usize,
    offset: u32,
    len: u32,
    fuel: nat,
) -> Result<Seq<ChunkView<K::Row>>, SegmentError>
    decreases fuel,
{
    if len == 0 {
        Ok(Seq::empty())
    } else if fuel == 0 {
        Err(SegmentError::BadHeader)
    } else {
        match spec_blob(m, cap, offset, len) {
            Err(e) => Err(e),
            Ok(bytes) => match Catalog::<K>::spec_read(bytes) {
                Err(te) => Err(spec_map_type_err(te)),
                Ok(c) => prepend(
                    seq![(offset, len, c)],
                    spec_load_chain::<K>(m, cap, c.next_offset, c.next_len, (fuel - 1) as nat),
                ),
            },
        }
    }
}

/// The chain of a mapping, with one link per byte of the mapping as the bound.
pub open spec fn spec_chain<K: CatalogKind>(m: Seq<u8>, cap: usize, offset: u32, len: u32) -> Result<
    Seq<ChunkView<K::Row>>,
    SegmentError,
> {
    spec_load_chain::<K>(m, cap, offset, len, m.len())
}

/// All rows of a chain, chunk after chunk.
pub open spec fn chain_rows<R>(cs: Seq<ChunkView<R>>) -> Seq<R>
    decreases cs.len(),
{
    if cs.len() == 0 {
        Seq::empty()
    } else {
        chain_rows(cs.drop_last()) + cs.last().2.rows
    }
}

/// Sum of the chunk capacities of a chain.
pub open spec fn chain_capacity<R>(cs: Seq<ChunkView<R>>) -> int
    decreases cs.len(),
{
    if cs.len() == 0 {
        0
    } else {
        chain_capacity(cs.drop_last()) + cs.last().2.capacity
    }
}

/// Load every chunk of the chain that starts at (`head_offset`, `head_len`) in the arena of
/// `mapping`.
pub fn load_chain<K: CatalogKind>(
    mapping: &[u8],
    capacity: usize,
    head_offset: u32,
    head_len: u32,
) -> (r: Result<Vec<CatalogChunk<K>>, SegmentError>)
    ensures
        match spec_chain::<K>(mapping@, capacity, head_offset, head_len) {
            Ok(cs) => r matches Ok(v) && chunk_views(v@) == cs,
            Err(e) => r matches Err(x) && x == e,
        },
{
    let mut chunks: Vec<CatalogChunk<K>> = Vec::new();
    let mut offset = head_offset;
    let mut len = head_len;
    let mut fuel = mapping.len();
    assert(chunk_views(chunks@) =~= Seq::<ChunkView<K::Row>>::empty());
    loop
        invariant
            fuel <= mapping@.len(),
            spec_chain::<K>(mapping@, capacity, head_offset, head_len) == prepend(
                chunk_views(chunks@),
                spec_load_chain::<K>(mapping@, capacity, offset, len, fuel as nat),
            ),
        decreases fuel,
    {
        if len == 0 {
            assert(chunk_views(chunks@) + Seq::<ChunkView<K::Row>>::empty() =~= chunk_views(chunks@));
            return Ok(chunks);
        }
        if fuel == 0 {
            return Err(SegmentError::BadHeader);
        }
        let bytes = blob(mapping, capacity, offset, len)?;
        let catalog = match Catalog::<K>::read_from(bytes) {
            Ok(c) => c,
            Err(e) => return Err(map_type_err(e)),
        };
        let next_offset = catalog.next_offset;
        let next_len = catalog.next_len;
        let ghost old_views = chunk_views(chunks@);
        let ghost cv = catalog@;
        chunks.push(CatalogChunk { offset, len, catalog });
        proof {
            assert(chunk_views(chunks@) =~= old_views + seq![(offset, len, cv)]);
            let rest = spec_load_chain::<K>(mapping@, capacity, next_offset, next_len, (fuel - 1) as nat);
            match rest {
                Ok(s) => {
                    assert(old_views + (seq![(offset, len, cv)] + s) =~= (old_views + seq![(offset, len, cv)]) + s);
                },
                Err(_) => {},
            }
        }
        offset = next_offset;
        len = next_len;
        fuel = fuel - 1;
    }
}

/// Capacities are non-negative, so a prefix of a chain has no more capacity than the chain.
pub proof fn lemma_chain_capacity_prefix<R>(cs: Seq<ChunkView<R>>, i: int)
    requires
        0 <= i <= cs.len(),
    ensures
        0 <= chain_capacity(cs.take(i)) <= chain_capacity(cs),
    decreases cs.len(),
{
    if i < cs.len() {
        lemma_chain_capacity_prefix(cs.drop_last(), i);
        assert(cs.drop_last().take(i) =~= cs.take(i));
    } else {
        assert(cs.take(i) =~= cs);
        lemma_chain_capacity_nonneg(cs);
    }
}

pub proof fn lemma_chain_capacity_nonneg<R>(cs: Seq<ChunkView<R>>)
    ensures
        chain_capacity(cs) >= 0,
    decreases cs.len(),
{
    if cs.len() > 0 {
        lemma_chain_capacity_nonneg(cs.drop_last());
    }
}

/// All rows of the chunks, in chain order.
pub fn chain_row_vec<K: CatalogKind>(chunks: &[CatalogChunk<K>]) -> (r: Vec<K::Row>)
    ensures
        r@ == chain_rows(chunk_views(chunks@)),
{
    let ghost vs = chunk_views(chunks@);
    let mut rows: Vec<K::Row> = Vec::new();
    let n = chunks.len();
    let mut i: usize = 0;
    assert(vs.take(0) =~= Seq::<ChunkView<K::Row>>::empty());
    while i < n
        invariant
            n == chunks@.len(),
            vs == chunk_views(chunks@),
            0 <= i <= n,
            rows@ == chain_rows(vs.take(i as int)),
        decreases n - i,
    {
        let ghost before = rows@;
        let crows = &chunks[i].catalog.rows;
        let m = crows.len();
        let mut j: usize = 0;
        while j < m
            invariant
                m == crows@.len(),
                0 <= j <= m,
                rows@ == before + crows@.take(j as int),
            decreases m - j,
        {
            rows.push(crows[j]);
            j = j + 1;
            assert(rows@ =~= before + crows@.take(j as int));
        }
        proof {
            assert(crows@.take(m as int) =~= crows@);
            let t = vs.take(i as int + 1);
            assert(t.drop_last() =~= vs.take(i as int));
            assert(t.last().2.rows == crows@);
        }
        i = i + 1;
    }
    assert(vs.take(n as int) =~= vs);
    rows
}

/// One catalog holding every row of the chain, with the chunks' capacities summed.
pub fn flatten_chain<K: CatalogKind>(chunks: &[CatalogChunk<K>]) -> (r: Catalog<K>)
    requires
        chain_capacity(chunk_views(chunks@)) <= u32::MAX,
    ensures
        r@ == (CatalogView {
            rows: chain_rows(chunk_views(chunks@)),
            capacity: chain_capacity(chunk_views(chunks@)) as u32,
            next_offset: 0,
            next_len: 0,
        }),
{
    let ghost vs = chunk_views(chunks@);
    let mut total: u32 = 0;
    let n = chunks.len();
    let mut i: usize = 0;
    assert(vs.take(0) =~= Seq::<ChunkView<K::Row>>::empty());
    while i < n
        invariant
            n == chunks@.len(),
            vs == chunk_views(chunks@),
            chain_capacity(vs) <= u32::MAX,
            0 <= i <= n,
            total == chain_capacity(vs.take(i as int)),
        decreases n - i,
    {
        proof {
            let t = vs.take(i as int + 1);
            assert(t.drop_last() =~= vs.take(i as int));
            lemma_chain_capacity_prefix(vs, i as int + 1);
        }
        total = total + chunks[i].catalog.capacity;
        i = i + 1;
    }
    assert(vs.take(n as int) =~= vs);
    let rows = chain_row_vec(chunks);
    Catalog::from_rows_capacity_next(rows, total, 0, 0)
}

/// The row at chain-wide index `index`, counting rows chunk after chunk.
pub fn get_in_chain<K: CatalogKind>(chunks: &[CatalogChunk<K>], index: u32) -> (r: Option<K::Row>)
    ensures
        index < chain_rows(chunk_views(chunks@)).len() ==> r == Some(
            chain_rows(chunk_views(chunks@))[index as int],
        ),
        index >= chain_rows(chunk_views(chunks@)).len() ==> r is None,
{
    let rows = chain_row_vec(chunks);
    if (index as usize) < rows.len() {
        Some(rows[index as usize])
    } else {
        None
    }
}

/// What writing the catalog `v` into the chunk blob at (`off`, `len`) does: the result and
/// the mapping afterwards.
pub open spec fn spec_write_chunk<K: CatalogKind>(
    m: Seq<u8>,
    cap: usize,
    off: u32,
    len: u32,
    v: CatalogView<K::Row>,
) -> (Result<(), SegmentError>, Seq<u8>) {
    match spec_blob_bounds(m, cap, off, len) {
        Err(e) => (Err(e), m),
        Ok((s, l)) => if v.rows.len() > v.capacity {
            (Err(spec_map_type_err(TypeError::CapacityExceeded)), m)
        } else if l < Catalog::<K>::spec_reserved_len(v.capacity as int) {
            (Err(spec_map_type_err(TypeError::OutOfBounds)), m)
        } else {
            (Ok(()), splice(m, s, Catalog::<K>::spec_wire(v)))
        },
    }
}

/// Write a chunk's catalog into its blob.
pub fn write_chunk<K: CatalogKind>(
    mapping: &mut [u8],
    capacity: usize,
    chunk: &CatalogChunk<K>,
) -> (r: Result<(), SegmentError>)
    ensures
        (r, final(mapping)@) == spec_write_chunk::<K>(
            old(mapping)@,
            capacity,
            chunk.offset,
            chunk.len,
            chunk.catalog@,
        ),
{
    let (start, blob_len) = blob_bounds(mapping, capacity, chunk.offset, chunk.len)?;
    if chunk.catalog.rows.len() > chunk.catalog.capacity as usize {
        return Err(map_type_err(TypeError::CapacityExceeded));
    }
    let need = match Catalog::<K>::reserved_len_checked(chunk.catalog.capacity) {
        Some(n) => n,
        None => return Err(map_type_err(TypeError::OutOfBounds)),
    };
    if blob_len < need {
        return Err(map_type_err(TypeError::OutOfBounds));
    }
    let b = chunk.catalog.wire_bytes();
    proof {
        crate::codec::lemma_le_roundtrip();
        crate::catalog::wire::lemma_rows_bytes(chunk.catalog@.rows);
        crate::catalog::wire::lemma_mul_mono(
            chunk.catalog@.rows.len() as int,
            chunk.catalog.capacity as int,
            K::Row::spec_row_len() as int,
        );
    }
    put_bytes(mapping, start, b.as_slice());
    Ok(())
}

/// Outcome of appending a row to a chain.
#[derive(Copy, Clone, Debug, PartialEq, Eq, Structural)]
pub enum ChainAppend {
    /// The row was stored at this chain-wide index.
    Appended(u32),
    /// The tail chunk (of this many slots) is full: a new chunk must be pinned and linked.
    TailFull(u32),
}

/// What appending `row` to the chain at (`ho`, `hl`) does: the outcome and the mapping after.
pub open spec fn spec_append_to_chain<K: CatalogKind>(
    m: Seq<u8>,
    cap: usize,
    ho: u32,
    hl: u32,
    row: K::Row,
) -> (Result<ChainAppend, SegmentError>, Seq<u8>) {
    match spec_chain::<K>(m, cap, ho, hl) {
        Err(e) => (Err(e), m),
        Ok(cs) => if cs.len() == 0 {
            (Err(SegmentError::BadHeader), m)
        } else {
            let t = cs.last();
            let base = chain_rows(cs.drop_last()).len();
            if t.2.rows.len() >= t.2.capacity {
                (Ok(ChainAppend::TailFull(t.2.capacity)), m)
            } else if !row.spec_valid() {
                (Err(spec_map_type_err(TypeError::BadHeader)), m)
            } else {
                let nv = CatalogView { rows: t.2.rows.push(row), ..t.2 };
                let (wr, m2) = spec_write_chunk::<K>(m, cap, t.0, t.1, nv);
                match wr {
                    Err(e) => (Err(e), m2),
                    Ok(_) => if base + t.2.rows.len() > u32::MAX {
                        (Err(SegmentError::CapacityRequired), m2)
                    } else {
                        (Ok(ChainAppend::Appended((base + t.2.rows.len()) as u32)), m2)
                    },
                }
            }
        },
    }
}

/// Append `row` to the tail chunk of the chain, or report that the tail is full.
pub fn append_to_chain<K: CatalogKind>(
    mapping: &mut [u8],
    capacity: usize,
    head_offset: u32,
    head_len: u32,
    row: K::Row,
) -> (r: Result<ChainAppend, SegmentError>)
    ensures
        (r, final(mapping)@) == spec_append_to_chain::<K>(
            old(mapping)@,
            capacity,
            head_offset,
            head_len,
            row,
        ),
{
    let mut chunks = load_chain::<K>(mapping, capacity, head_offset, head_len)?;
    let n = chunks.len();
    if n == 0 {
        return Err(SegmentError::BadHeader);
    }
    let ghost cs = chunk_views(chunks@);
    let ghost all = chunks@;
    let mut tail = chunks.pop().unwrap();
    let prior = chain_row_vec(chunks.as_slice());
    proof {
        assert(chunks@ =~= all.drop_last());
        assert(chunk_views(chunks@) =~= cs.drop_last());
        assert(tail == all.last());
        assert(tail.catalog@ == cs.last().2);
    }
    match tail.catalog.append(row) {
        Ok(local) => {
            write_chunk(mapping, capacity, &tail)?;
            let global = match prior.len().checked_add(local as usize) {
                Some(g) => g,
                None => return Err(SegmentError::CapacityRequired),
            };
            if global > u32::MAX as usize {
                return Err(SegmentError::CapacityRequired);
            }
            Ok(ChainAppend::Appended(global as u32))
        },
        Err(TypeError::CapacityExceeded) => Ok(ChainAppend::TailFull(tail.catalog.capacity)),
        Err(e) => Err(map_type_err(e)),
    }
}

/// What pointing the tail of the chain at (`next_offset`, `next_len`) does.
pub open spec fn spec_link_tail<K: CatalogKind>(
    m: Seq<u8>,
    cap: usize,
    ho: u32,
    hl: u32,
    next_offset: u32,
    next_len: u32,
) -> (Result<(), SegmentError>, Seq<u8>) {
    match spec_chain::<K>(m, cap, ho, hl) {
        Err(e) => (Err(e), m),
        Ok(cs) => if cs.len() == 0 {
            (Err(SegmentError::BadHeader), m)
        } else {
            let t = cs.last();
            spec_write_chunk::<K>(m, cap, t.0, t.1, CatalogView { next_offset, next_len, ..t.2 })
        },
    }
}

/// Link a freshly pinned chunk after the current tail of the chain.
pub fn link_tail<K: CatalogKind>(
    mapping: &mut [u8],
    capacity: usize,
    head_offset: u32,
    head_len: u32,
    next_offset: u32,
    next_len: u32,
) -> (r: Result<(), SegmentError>)
    ensures
        (r, final(mapping)@) == spec_link_tail::<K>(
            old(mapping)@,
            capacity,
            head_offset,
            head_len,
            next_offset,
            next_len,
        ),
{
    let mut chunks = load_chain::<K>(mapping, capacity, head_offset, head_len)?;
    let n = chunks.len();
    if n == 0 {
        return Err(SegmentError::BadHeader);
    }
    let ghost cs = chunk_views(chunks@);
    let ghost all = chunks@;
    let mut tail = chunks.pop().unwrap();
    assert(tail == all.last());
    assert(tail.catalog@ == cs.last().2);
    tail.catalog.next_offset = next_offset;
    tail.catalog.next_len = next_len;
    write_chunk(mapping, capacity, &tail)
}

/// What rewriting chunks `i..` with `rows[row_off..]` does, each chunk taking as many rows as
/// it has slots and keeping its links: the result and the mapping after.
pub open spec fn spec_redistribute_from<K: CatalogKind>(
    m: Seq<u8>,
    cap: usize,
    cs: Seq<ChunkView<K::Row>>,
    rows: Seq<K::Row>,
    i: int,
    row_off: int,
) -> (Result<(), SegmentError>, Seq<u8>)
    decreases cs.len() - i,
{
    if i >= cs.len() {
        if row_off != rows.len() {
            (Err(SegmentError::CapacityRequired), m)
        } else {
            (Ok(()), m)
        }
    } else {
        let capi = cs[i].2.capacity;
        let end = if row_off + capi < rows.len() {
            row_off + capi
        } else {
            rows.len() as int
        };
        let next_offset = if i + 1 < cs.len() {
            cs[i + 1].0
        } else {
            0u32
        };
        let next_len = if i + 1 < cs.len() {
            cs[i + 1].1
        } else {
            0u32
        };
        let v = CatalogView {
            rows: rows.subrange(row_off, end),
            capacity: capi,
            next_offset,
            next_len,
        };
        let (wr, m2) = spec_write_chunk::<K>(m, cap, cs[i].0, cs[i].1, v);
        match wr {
            Err(e) => (Err(e), m2),
            Ok(_) => spec_redistribute_from::<K>(m2, cap, cs, rows, i + 1, end),
        }
    }
}

/// Rewrite the chain's chunks with the rows of `merged`, filling each chunk's slots in turn;
/// rows left over once every chunk is full are refused.
pub fn redistribute_chain<K: CatalogKind>(
    mapping: &mut [u8],
    capacity: usize,
    chunks: &[CatalogChunk<K>],
    merged: &Catalog<K>,
) -> (r: Result<(), SegmentError>)
    ensures
        chunks@.len() == 0 ==> r == Err::<(), SegmentError>(SegmentError::BadHeader) && final(mapping)@
            == old(mapping)@,
        chunks@.len() > 0 ==> (r, final(mapping)@) == spec_redistribute_from::<K>(
            old(mapping)@,
            capacity,
            chunk_views(chunks@),
            merged@.rows,
            0,
            0,
        ),
{
    if chunks.len() == 0 {
        return Err(SegmentError::BadHeader);
    }
    let ghost cs = chunk_views(chunks@);
    let ghost target = spec_redistribute_from::<K>(old(mapping)@, capacity, cs, merged@.rows, 0, 0);
    let n = chunks.len();
    let total = merged.rows.len();
    let mut row_off: usize = 0;
    let mut i: usize = 0;
    while i < n
        invariant
            n == chunks@.len(),
            cs == chunk_views(chunks@),
            total == merged@.rows.len(),
            0 <= i <= n,
            0 <= row_off <= total,
            spec_redistribute_from::<K>(mapping@, capacity, cs, merged@.rows, i as int, row_off as int)
                == target,
            target == spec_redistribute_from::<K>(old(mapping)@, capacity, cs, merged@.rows, 0, 0),
        decreases n - i,
    {
        let cap_i = chunks[i].catalog.capacity as usize;
        let end = if cap_i < total - row_off {
            row_off + cap_i
        } else {
            total
        };
        let (next_offset, next_len) = if i + 1 < n {
            (chunks[i + 1].offset, chunks[i + 1].len)
        } else {
            (0u32, 0u32)
        };
        let part = vstd::slice::slice_to_vec(
            vstd::slice::slice_subrange(merged.rows.as_slice(), row_off, end),
        );
        let cat = Catalog::<K>::from_rows_capacity_next(
            part,
            chunks[i].catalog.capacity,
            next_offset,
            next_len,
        );
        let chunk = CatalogChunk { offset: chunks[i].offset, len: chunks[i].len, catalog: cat };
        proof {
            let ii = i as int;
            assert(cs[ii] == (chunks@[ii].offset, chunks@[ii].len, chunks@[ii].catalog@));
            if ii + 1 < n {
                assert(cs[ii + 1] == (chunks@[ii + 1].offset, chunks@[ii + 1].len, chunks@[ii + 1].catalog@));
            }
            assert(chunk.catalog@ == (CatalogView {
                rows: merged@.rows.subrange(row_off as int, end as int),
                capacity: cs[ii].2.capacity,
                next_offset,
                next_len,
            }));
        }
        let ghost m_before = mapping@;
        let wr = write_chunk(mapping, capacity, &chunk);
        proof {
            let ii = i as int;
            let v = chunk.catalog@;
            assert(spec_redistribute_from::<K>(m_before, capacity, cs, merged@.rows, ii, row_off as int)
                == match spec_write_chunk::<K>(m_before, capacity, cs[ii].0, cs[ii].1, v) {
                (Err(e), m2) => (Err(e), m2),
                (Ok(_), m2) => spec_redistribute_from::<K>(m2, capacity, cs, merged@.rows, ii + 1, end as int),
            });
        }
        match wr {
            Err(e) => {
                return Err(e);
            },
            Ok(()) => {},
        }
        row_off = end;
        i = i + 1;
    }
    if row_off != total {
        return Err(SegmentError::CapacityRequired);
    }
    Ok(())
}

/// Every chunk of a loaded chain holds no more rows than it has slots.
pub proof fn lemma_chain_views_well_formed<K: CatalogKind>(
    m: Seq<u8>,
    cap: usize,
    off: u32,
    len: u32,
    i: int,
)
    requires
        spec_chain::<K>(m, cap, off, len) is Ok,
        0 <= i < spec_chain::<K>(m, cap, off, len)->Ok_0.len(),
    ensures
        spec_chain::<K>(m, cap, off, len)->Ok_0[i].2.rows.len() <= spec_chain::<K>(
            m,
            cap,
            off,
            len,
        )->Ok_0[i].2.capacity,
{
    lemma_load_well_formed::<K>(m, cap, off, len, m.len(), i);
}

proof fn lemma_load_well_formed<K: CatalogKind>(
    m: Seq<u8>,
    cap: usize,
    off: u32,
    len: u32,
    fuel: nat,
    i: int,
)
    requires
        spec_load_chain::<K>(m, cap, off, len, fuel) is Ok,
        0 <= i < spec_load_chain::<K>(m, cap, off, len, fuel)->Ok_0.len(),
    ensures
        spec_load_chain::<K>(m, cap, off, len, fuel)->Ok_0[i].2.rows.len()
            <= spec_load_chain::<K>(m, cap, off, len, fuel)->Ok_0[i].2.capacity,
    decreases fuel,
{
    let b = spec_blob(m, cap, off, len)->Ok_0;
    let c = Catalog::<K>::spec_read(b)->Ok_0;
    crate::codec::lemma_le_roundtrip();
    if i > 0 {
        lemma_load_well_formed::<K>(m, cap, c.next_offset, c.next_len, (fuel - 1) as nat, i - 1);
    } else {
        crate::catalog::wire::lemma_read_rows_len::<K>(b);
    }
}

} // verus!
