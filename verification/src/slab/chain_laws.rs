//! What appending to a catalog chain does to the chain read back afterwards.

use super::chain::{
    chain_rows, spec_append_to_chain, spec_chain, spec_link_tail, spec_load_chain,
    spec_redistribute_from, spec_write_chunk, ChainAppend, ChunkView,
};
use super::error::{spec_map_type_err, SegmentError};
use super::header::{spec_read_header, Header, HEADER_SIZE};
use super::layout::{spec_arena_range, spec_blob, spec_blob_bounds, spec_layout_ok};
use crate::catalog::wire::{decode_rows, Catalog, CatalogKind, CatalogRow, CatalogView, CATALOG_HEADER_LEN};
use crate::codec::{get32, splice};
use super::pin::{spec_place_catalog, zero_run};
use vstd::prelude::*;

verus! {

/// The blobs of the chain's chunks do not overlap in the arena.
pub open spec fn chain_blobs_disjoint<R>(cs: Seq<ChunkView<R>>) -> bool {
    forall|i: int, j: int|
        0 <= i < cs.len() && 0 <= j < cs.len() && i != j ==> (#[trigger] cs[i]).0 + cs[i].1 <= (
        #[trigger] cs[j]).0 || cs[j].0 + cs[j].1 <= cs[i].0
}

/// Two byte strings that agree on their first sixty-four bytes parse to the same header.
proof fn lemma_parse_prefix(a: Seq<u8>, b: Seq<u8>)
    requires
        a.len() >= HEADER_SIZE,
        b.len() >= HEADER_SIZE,
        forall|i: int| 0 <= i < HEADER_SIZE ==> a[i] == b[i],
    ensures
        Header::spec_parse(a) == Header::spec_parse(b),
{
    assert forall|k: int| 0 <= k && k + 4 <= 64 implies #[trigger] a.subrange(k, k + 4)
        == b.subrange(k, k + 4) by {
        assert(a.subrange(k, k + 4) =~= b.subrange(k, k + 4));
    }
    assert forall|k: int| 0 <= k && k + 2 <= 64 implies #[trigger] a.subrange(k, k + 2)
        == b.subrange(k, k + 2) by {
        assert(a.subrange(k, k + 2) =~= b.subrange(k, k + 2));
    }
    assert(Header::spec_parse(a).segment_uuid =~= Header::spec_parse(b).segment_uuid);
}

/// Where the arena of a mapping lies: after the header prefix, inside the mapping.
proof fn lemma_arena_bounds(m: Seq<u8>, cap: usize)
    requires
        spec_arena_range(m, cap) is Ok,
    ensures
        spec_arena_range(m, cap) matches Ok((s, e)) && HEADER_SIZE <= s <= e <= m.len(),
{
}

/// Decoded rows have their layout guards intact.
proof fn lemma_decoded_rows_valid<R: CatalogRow>(s: Seq<u8>, base: int, n: nat)
    requires
        decode_rows::<R>(s, base, n) is Ok,
    ensures
        forall|i: int|
            0 <= i < decode_rows::<R>(s, base, n)->Ok_0.len() ==> (#[trigger] decode_rows::<R>(
                s,
                base,
                n,
            )->Ok_0[i]).spec_valid(),
    decreases n,
{
    if n > 0 {
        lemma_decoded_rows_valid::<R>(s, base, (n - 1) as nat);
        R::lemma_decode_valid(crate::catalog::wire::row_slot::<R>(s, base, n - 1));
    }
}

/// A catalog read from bytes is well formed.
proof fn lemma_read_well_formed<K: CatalogKind>(s: Seq<u8>)
    requires
        Catalog::<K>::spec_read(s) is Ok,
    ensures
        Catalog::<K>::spec_well_formed(Catalog::<K>::spec_read(s)->Ok_0),
{
    crate::catalog::wire::lemma_read_rows_len::<K>(s);
    lemma_decoded_rows_valid::<K::Row>(s, CATALOG_HEADER_LEN as int, get32(s, 8) as nat);
}

/// Reloading a chain after only its last chunk's blob changed (to bytes that read as `nv`,
/// with the same link) gives the chain with that chunk replaced.
proof fn lemma_reload<K: CatalogKind>(
    m: Seq<u8>,
    m2: Seq<u8>,
    cap: usize,
    off: u32,
    len: u32,
    fuel: nat,
    cs: Seq<ChunkView<K::Row>>,
    nv: CatalogView<K::Row>,
)
    requires
        spec_load_chain::<K>(m, cap, off, len, fuel) == Ok::<Seq<ChunkView<K::Row>>, SegmentError>(cs),
        cs.len() > 0,
        forall|i: int|
            0 <= i < cs.len() - 1 ==> spec_blob(m2, cap, (#[trigger] cs[i]).0, cs[i].1) == spec_blob(
                m,
                cap,
                cs[i].0,
                cs[i].1,
            ),
        spec_blob(m2, cap, cs.last().0, cs.last().1) matches Ok(b) && Catalog::<K>::spec_read(b)
            == Ok::<CatalogView<K::Row>, crate::types::TypeError>(nv),
        nv.next_offset == cs.last().2.next_offset,
        nv.next_len == cs.last().2.next_len,
    ensures
        spec_load_chain::<K>(m2, cap, off, len, fuel) == Ok::<Seq<ChunkView<K::Row>>, SegmentError>(
            cs.update(cs.len() - 1, (cs.last().0, cs.last().1, nv)),
        ),
    decreases fuel,
{
    let first = cs[0];
    let rest = cs.drop_first();
    assert(len != 0 && fuel > 0);
    let bytes = spec_blob(m, cap, off, len)->Ok_0;
    let c = Catalog::<K>::spec_read(bytes)->Ok_0;
    let tail_m = spec_load_chain::<K>(m, cap, c.next_offset, c.next_len, (fuel - 1) as nat);
    assert(first == (off, len, c));
    assert(tail_m == Ok::<Seq<ChunkView<K::Row>>, SegmentError>(rest)) by {
        match tail_m {
            Ok(s) => {
                assert(seq![(off, len, c)] + s == cs);
                assert(s =~= rest);
            },
            Err(e) => {},
        }
    }
    if cs.len() == 1 {
        assert(cs.last() == first);
        assert(rest.len() == 0);
        assert(c.next_len == 0) by {
            if c.next_len != 0 {
                if fuel - 1 == 0 {
                } else {
                    match spec_blob(m, cap, c.next_offset, c.next_len) {
                        Err(_) => {},
                        Ok(b2) => match Catalog::<K>::spec_read(b2) {
                            Err(_) => {},
                            Ok(c2) => {
                                let r2 = spec_load_chain::<K>(
                                    m,
                                    cap,
                                    c2.next_offset,
                                    c2.next_len,
                                    (fuel - 2) as nat,
                                );
                                match r2 {
                                    Ok(s2) => {
                                        assert((seq![(c.next_offset, c.next_len, c2)] + s2).len() > 0);
                                    },
                                    Err(_) => {},
                                }
                            },
                        },
                    }
                }
            }
        }
        assert(cs.update(0, (off, len, nv)) =~= seq![(off, len, nv)]);
        assert(seq![(off, len, nv)] + Seq::<ChunkView<K::Row>>::empty() =~= seq![(off, len, nv)]);
    } else {
        assert(cs[0] == first);
        assert(spec_blob(m2, cap, off, len) == spec_blob(m, cap, off, len));
        assert forall|i: int| 0 <= i < rest.len() - 1 implies spec_blob(
            m2,
            cap,
            (#[trigger] rest[i]).0,
            rest[i].1,
        ) == spec_blob(m, cap, rest[i].0, rest[i].1) by {
            assert(rest[i] == cs[i + 1]);
        }
        assert(rest.last() == cs.last());
        lemma_reload::<K>(m, m2, cap, c.next_offset, c.next_len, (fuel - 1) as nat, rest, nv);
        let rest2 = rest.update(rest.len() - 1, (rest.last().0, rest.last().1, nv));
        assert(seq![(off, len, c)] + rest2 =~= cs.update(cs.len() - 1, (cs.last().0, cs.last().1, nv)));
    }
}

/// Appending a row to a chain whose chunk blobs do not overlap, when the row is stored,
/// leaves a chain that reads back with that row after all earlier rows, at the index
/// returned; the chunks keep their places.
pub proof fn lemma_append_then_read<K: CatalogKind>(
    m: Seq<u8>,
    cap: usize,
    head_offset: u32,
    head_len: u32,
    row: K::Row,
)
    requires
        spec_chain::<K>(m, cap, head_offset, head_len) matches Ok(cs) && chain_blobs_disjoint(cs),
        spec_append_to_chain::<K>(m, cap, head_offset, head_len, row).0 matches Ok(
            ChainAppend::Appended(_),
        ),
    ensures
        ({
            let cs = spec_chain::<K>(m, cap, head_offset, head_len)->Ok_0;
            let (r, m2) = spec_append_to_chain::<K>(m, cap, head_offset, head_len, row);
            &&& spec_chain::<K>(m2, cap, head_offset, head_len) matches Ok(cs2)
            &&& chain_rows(cs2) == chain_rows(cs).push(row)
            &&& cs2.len() == cs.len()
            &&& forall|i: int| 0 <= i < cs.len() ==> (#[trigger] cs2[i]).0 == cs[i].0 && cs2[i].1
                == cs[i].1
            &&& r matches Ok(ChainAppend::Appended(idx)) && idx == chain_rows(cs).len()
                && chain_rows(cs2)[idx as int] == row
            &&& spec_read_header(m2) == spec_read_header(m)
        }),
{
    let cs = spec_chain::<K>(m, cap, head_offset, head_len)->Ok_0;
    let n = cs.len();
    let t = cs.last();
    let nv = CatalogView { rows: t.2.rows.push(row), ..t.2 };
    let (s, l) = spec_blob_bounds(m, cap, t.0, t.1)->Ok_0;
    let w = Catalog::<K>::spec_wire(nv);
    let m2 = splice(m, s, w);
    assert(spec_append_to_chain::<K>(m, cap, head_offset, head_len, row).1 == m2);
    // sizes: the written catalog fits the tail blob, which lies inside the arena
    lemma_arena_bounds(m, cap);
    let (a, e) = spec_arena_range(m, cap)->Ok_0;
    K::Row::lemma_row_len_bound();
    crate::catalog::wire::lemma_rows_bytes(nv.rows);
    crate::catalog::wire::lemma_mul_mono(
        nv.rows.len() as int,
        nv.capacity as int,
        K::Row::spec_row_len() as int,
    );
    crate::codec::lemma_le_roundtrip();
    assert(t.2.rows.len() < t.2.capacity);
    assert(spec_write_chunk::<K>(m, cap, t.0, t.1, nv).0 is Ok);
    assert(l >= Catalog::<K>::spec_reserved_len(nv.capacity as int));
    assert(crate::catalog::wire::header_bytes(
        K::MAGIC,
        K::VERSION,
        nv.rows.len() as u32,
        nv.capacity,
        nv.next_offset,
        nv.next_len,
    ).len() == CATALOG_HEADER_LEN);
    assert(w.len() <= l);
    assert(s + l <= e);
    assert(m2.len() == m.len());
    assert forall|i: int| 0 <= i < m.len() && !(s <= i < s + w.len()) implies m2[i] == m[i] by {}
    // the header prefix, and so the arena, is unchanged
    assert(m.len() >= HEADER_SIZE);
    lemma_parse_prefix(m2, m);
    assert(spec_read_header(m2) == spec_read_header(m));
    assert(spec_arena_range(m2, cap) == spec_arena_range(m, cap));
    // the other chunks' blobs are unchanged
    assert forall|i: int| 0 <= i < n - 1 implies spec_blob(m2, cap, (#[trigger] cs[i]).0, cs[i].1)
        == spec_blob(m, cap, cs[i].0, cs[i].1) by {
        assert(n - 1 != i);
        assert(cs[n - 1] == t);
        match spec_blob_bounds(m, cap, cs[i].0, cs[i].1) {
            Ok((si, li)) => {
                assert(m2.subrange(si, si + li) =~= m.subrange(si, si + li));
            },
            Err(_) => {},
        }
    }
    // the tail blob now reads as the appended catalog
    let old_blob = spec_blob(m, cap, t.0, t.1)->Ok_0;
    assert(spec_blob(m2, cap, t.0, t.1) == Ok::<Seq<u8>, SegmentError>(splice(old_blob, 0, w))) by {
        assert(m2.subrange(s, s + l) =~= splice(old_blob, 0, w));
    }
    lemma_chain_chunk_read::<K>(m, cap, head_offset, head_len, m.len(), n - 1);
    lemma_read_well_formed::<K>(old_blob);
    assert(Catalog::<K>::spec_well_formed(nv)) by {
        assert forall|i: int| 0 <= i < nv.rows.len() implies (#[trigger] nv.rows[i]).spec_valid() by {
            if i < t.2.rows.len() {
                assert(nv.rows[i] == t.2.rows[i]);
            }
        }
    }
    Catalog::<K>::lemma_write_read(nv, old_blob);
    lemma_reload::<K>(m, m2, cap, head_offset, head_len, m.len(), cs, nv);
    let cs2 = cs.update(n - 1, (t.0, t.1, nv));
    assert(cs2.drop_last() =~= cs.drop_last());
    assert(chain_rows(cs2) =~= chain_rows(cs).push(row));
}

/// Chunk `k` of a loaded chain is what its blob reads as.
proof fn lemma_chain_chunk_read<K: CatalogKind>(
    m: Seq<u8>,
    cap: usize,
    off: u32,
    len: u32,
    fuel: nat,
    k: int,
)
    requires
        spec_load_chain::<K>(m, cap, off, len, fuel) is Ok,
        0 <= k < spec_load_chain::<K>(m, cap, off, len, fuel)->Ok_0.len(),
    ensures
        ({
            let c = spec_load_chain::<K>(m, cap, off, len, fuel)->Ok_0[k];
            spec_blob(m, cap, c.0, c.1) matches Ok(b) && Catalog::<K>::spec_read(b) == Ok::<
                CatalogView<K::Row>,
                crate::types::TypeError,
            >(c.2)
        }),
    decreases fuel,
{
    let cs = spec_load_chain::<K>(m, cap, off, len, fuel)->Ok_0;
    let bytes = spec_blob(m, cap, off, len)->Ok_0;
    let c = Catalog::<K>::spec_read(bytes)->Ok_0;
    let rest = spec_load_chain::<K>(m, cap, c.next_offset, c.next_len, (fuel - 1) as nat);
    assert(rest is Ok);
    assert(cs == seq![(off, len, c)] + rest->Ok_0);
    if k > 0 {
        assert(cs[k] == rest->Ok_0[k - 1]);
        lemma_chain_chunk_read::<K>(m, cap, c.next_offset, c.next_len, (fuel - 1) as nat, k - 1);
    }
}

/// At most `bound` pairwise disjoint non-empty ranges `(start, len)` fit in `[0, bound)`.
proof fn lemma_disjoint_count(iv: Seq<(int, int)>, bound: int)
    requires
        0 <= bound,
        forall|i: int| 0 <= i < iv.len() ==> 0 <= (#[trigger] iv[i]).0 && iv[i].1 >= 1 && iv[i].0
            + iv[i].1 <= bound,
        forall|i: int, j: int|
            0 <= i < iv.len() && 0 <= j < iv.len() && i != j ==> (#[trigger] iv[i]).0 + iv[i].1 <= (
            #[trigger] iv[j]).0 || iv[j].0 + iv[j].1 <= iv[i].0,
    ensures
        iv.len() <= bound,
    decreases bound,
{
    if bound <= 0 {
        if iv.len() > 0 {
            assert(iv[0].0 + iv[0].1 <= bound);
        }
    } else if exists|k: int| 0 <= k < iv.len() && (#[trigger] iv[k]).0 <= bound - 1 < iv[k].0 + iv[k].1 {
        let k = choose|k: int| 0 <= k < iv.len() && (#[trigger] iv[k]).0 <= bound - 1 < iv[k].0 + iv[k].1;
        let rest = iv.remove(k);
        assert forall|i: int| 0 <= i < rest.len() implies 0 <= (#[trigger] rest[i]).0 && rest[i].1
            >= 1 && rest[i].0 + rest[i].1 <= bound - 1 by {
            let o = if i < k { i } else { i + 1 };
            assert(rest[i] == iv[o]);
            assert(o != k);
        }
        assert forall|i: int, j: int|
            0 <= i < rest.len() && 0 <= j < rest.len() && i != j implies (#[trigger] rest[i]).0
            + rest[i].1 <= (#[trigger] rest[j]).0 || rest[j].0 + rest[j].1 <= rest[i].0 by {
            let oi = if i < k { i } else { i + 1 };
            let oj = if j < k { j } else { j + 1 };
            assert(rest[i] == iv[oi] && rest[j] == iv[oj]);
        }
        lemma_disjoint_count(rest, bound - 1);
    } else {
        assert forall|i: int| 0 <= i < iv.len() implies 0 <= (#[trigger] iv[i]).0 && iv[i].1 >= 1
            && iv[i].0 + iv[i].1 <= bound - 1 by {}
        lemma_disjoint_count(iv, bound - 1);
    }
}

/// Bytes written at `s` (past the header prefix, inside the mapping) leave the header, the
/// arena, and every blob that does not meet them, as they were.
proof fn lemma_write_frame(m: Seq<u8>, cap: usize, s: int, w: Seq<u8>)
    requires
        spec_arena_range(m, cap) is Ok,
        HEADER_SIZE <= s,
        s + w.len() <= m.len(),
    ensures
        splice(m, s, w).len() == m.len(),
        spec_read_header(splice(m, s, w)) == spec_read_header(m),
        spec_arena_range(splice(m, s, w), cap) == spec_arena_range(m, cap),
        forall|o: u32, l: u32|
            #![trigger spec_blob(splice(m, s, w), cap, o, l)]
            spec_blob_bounds(m, cap, o, l) matches Ok((bs, bl)) && (bs + bl <= s || s + w.len()
                <= bs) ==> spec_blob(splice(m, s, w), cap, o, l) == spec_blob(m, cap, o, l),
{
    let m2 = splice(m, s, w);
    assert(m2.len() == m.len());
    lemma_arena_bounds(m, cap);
    lemma_parse_prefix(m2, m);
    assert(spec_read_header(m2) == spec_read_header(m));
    assert forall|o: u32, l: u32|
        #![trigger spec_blob(splice(m, s, w), cap, o, l)]
        spec_blob_bounds(m, cap, o, l) matches Ok((bs, bl)) && (bs + bl <= s || s + w.len()
            <= bs) implies spec_blob(splice(m, s, w), cap, o, l) == spec_blob(m, cap, o, l) by {
        let (bs, bl) = spec_blob_bounds(m, cap, o, l)->Ok_0;
        assert(m2.subrange(bs, bs + bl) =~= m.subrange(bs, bs + bl));
    }
}

/// Reloading a chain whose blobs all read the same in another mapping gives the same chain.
proof fn lemma_reload_same<K: CatalogKind>(
    m: Seq<u8>,
    m2: Seq<u8>,
    cap: usize,
    off: u32,
    len: u32,
    fuel: nat,
    cs: Seq<ChunkView<K::Row>>,
)
    requires
        spec_load_chain::<K>(m, cap, off, len, fuel) == Ok::<Seq<ChunkView<K::Row>>, SegmentError>(cs),
        forall|i: int|
            0 <= i < cs.len() ==> spec_blob(m2, cap, (#[trigger] cs[i]).0, cs[i].1) == spec_blob(
                m,
                cap,
                cs[i].0,
                cs[i].1,
            ),
    ensures
        spec_load_chain::<K>(m2, cap, off, len, fuel) == Ok::<Seq<ChunkView<K::Row>>, SegmentError>(cs),
    decreases fuel,
{
    if len != 0 && fuel > 0 {
        let bytes = spec_blob(m, cap, off, len)->Ok_0;
        let c = Catalog::<K>::spec_read(bytes)->Ok_0;
        let tail_m = spec_load_chain::<K>(m, cap, c.next_offset, c.next_len, (fuel - 1) as nat);
        let rest = tail_m->Ok_0;
        assert(cs == seq![(off, len, c)] + rest);
        assert(cs[0] == (off, len, c));
        assert forall|i: int| 0 <= i < rest.len() implies spec_blob(
            m2,
            cap,
            (#[trigger] rest[i]).0,
            rest[i].1,
        ) == spec_blob(m, cap, rest[i].0, rest[i].1) by {
            assert(rest[i] == cs[i + 1]);
        }
        lemma_reload_same::<K>(m, m2, cap, c.next_offset, c.next_len, (fuel - 1) as nat, rest);
    }
}

/// Reloading a chain after its last chunk was relinked to a new chunk (which reads as a
/// last chunk) gives the chain with that chunk relinked and the new one after it.
proof fn lemma_reload_grown<K: CatalogKind>(
    m: Seq<u8>,
    m2: Seq<u8>,
    cap: usize,
    off: u32,
    len: u32,
    fuel: nat,
    cs: Seq<ChunkView<K::Row>>,
    tv: CatalogView<K::Row>,
    next: ChunkView<K::Row>,
)
    requires
        spec_load_chain::<K>(m, cap, off, len, fuel) == Ok::<Seq<ChunkView<K::Row>>, SegmentError>(cs),
        cs.len() > 0,
        fuel >= cs.len() + 1,
        forall|i: int|
            0 <= i < cs.len() - 1 ==> spec_blob(m2, cap, (#[trigger] cs[i]).0, cs[i].1) == spec_blob(
                m,
                cap,
                cs[i].0,
                cs[i].1,
            ),
        spec_blob(m2, cap, cs.last().0, cs.last().1) matches Ok(b) && Catalog::<K>::spec_read(b)
            == Ok::<CatalogView<K::Row>, crate::types::TypeError>(tv),
        tv.next_offset == next.0,
        tv.next_len == next.1,
        next.1 != 0,
        next.2.next_len == 0,
        spec_blob(m2, cap, next.0, next.1) matches Ok(b) && Catalog::<K>::spec_read(b) == Ok::<
            CatalogView<K::Row>,
            crate::types::TypeError,
        >(next.2),
    ensures
        spec_load_chain::<K>(m2, cap, off, len, fuel) == Ok::<Seq<ChunkView<K::Row>>, SegmentError>(
            cs.update(cs.len() - 1, (cs.last().0, cs.last().1, tv)).push(next),
        ),
    decreases fuel,
{
    let first = cs[0];
    let rest = cs.drop_first();
    let bytes = spec_blob(m, cap, off, len)->Ok_0;
    let c = Catalog::<K>::spec_read(bytes)->Ok_0;
    let tail_m = spec_load_chain::<K>(m, cap, c.next_offset, c.next_len, (fuel - 1) as nat);
    assert(tail_m == Ok::<Seq<ChunkView<K::Row>>, SegmentError>(rest)) by {
        match tail_m {
            Ok(s) => {
                assert(seq![(off, len, c)] + s == cs);
                assert(s =~= rest);
            },
            Err(e) => {},
        }
    }
    assert(first == (off, len, c));
    if cs.len() == 1 {
        assert(cs.last() == first);
        let after = spec_load_chain::<K>(m2, cap, next.0, next.1, (fuel - 1) as nat);
        let b2 = spec_blob(m2, cap, next.0, next.1)->Ok_0;
        assert(spec_load_chain::<K>(m2, cap, next.2.next_offset, next.2.next_len, (fuel - 2) as nat)
            == Ok::<Seq<ChunkView<K::Row>>, SegmentError>(Seq::empty()));
        assert(after == Ok::<Seq<ChunkView<K::Row>>, SegmentError>(seq![next])) by {
            assert(seq![next] + Seq::<ChunkView<K::Row>>::empty() =~= seq![next]);
        }
        assert(cs.update(0, (off, len, tv)).push(next) =~= seq![(off, len, tv)] + seq![next]);
    } else {
        assert(cs[0] == first);
        assert(spec_blob(m2, cap, off, len) == spec_blob(m, cap, off, len));
        assert forall|i: int| 0 <= i < rest.len() - 1 implies spec_blob(
            m2,
            cap,
            (#[trigger] rest[i]).0,
            rest[i].1,
        ) == spec_blob(m, cap, rest[i].0, rest[i].1) by {
            assert(rest[i] == cs[i + 1]);
        }
        assert(rest.last() == cs.last());
        lemma_reload_grown::<K>(m, m2, cap, c.next_offset, c.next_len, (fuel - 1) as nat, rest, tv, next);
        let rest2 = rest.update(rest.len() - 1, (rest.last().0, rest.last().1, tv)).push(next);
        assert(seq![(off, len, c)] + rest2 =~= cs.update(cs.len() - 1, (cs.last().0, cs.last().1, tv)).push(
            next,
        ));
    }
}

/// Where the blobs of a loaded chain lie: non-empty, inside the arena.
proof fn lemma_chain_blob_bounds<K: CatalogKind>(
    m: Seq<u8>,
    cap: usize,
    off: u32,
    len: u32,
    fuel: nat,
    k: int,
)
    requires
        spec_load_chain::<K>(m, cap, off, len, fuel) is Ok,
        0 <= k < spec_load_chain::<K>(m, cap, off, len, fuel)->Ok_0.len(),
    ensures
        ({
            let c = spec_load_chain::<K>(m, cap, off, len, fuel)->Ok_0[k];
            &&& spec_blob_bounds(m, cap, c.0, c.1) is Ok
            &&& c.1 >= 1
            &&& spec_arena_range(m, cap) matches Ok((a, e)) && c.0 + c.1 <= e - a
        }),
{
    lemma_chain_chunk_read::<K>(m, cap, off, len, fuel, k);
}

/// Linking a chunk that already reads as an empty catalog, in a free part of the arena, after
/// the tail extends the chain by that chunk and keeps its rows; the next append stores its row
/// in the new chunk, at the index after every earlier row. `m1` is the mapping once the new
/// chunk was written: its header and the chain's chunks read as in `m`.
pub proof fn lemma_link_then_append<K: CatalogKind>(
    m: Seq<u8>,
    m1: Seq<u8>,
    cap: usize,
    head_offset: u32,
    head_len: u32,
    next_offset: u32,
    next_len: u32,
    next_capacity: u32,
    row: K::Row,
)
    requires
        spec_chain::<K>(m, cap, head_offset, head_len) matches Ok(cs) && cs.len() > 0
            && chain_blobs_disjoint(cs) && forall|i: int|
            0 <= i < cs.len() ==> (#[trigger] cs[i]).0 + cs[i].1 <= next_offset || next_offset
                + next_len <= cs[i].0,
        spec_blob_bounds(m, cap, next_offset, next_len) is Ok,
        next_len >= Catalog::<K>::spec_reserved_len(next_capacity as int),
        next_capacity > 0,
        row.spec_valid(),
        m1.len() == m.len(),
        spec_read_header(m1) == spec_read_header(m),
        forall|i: int|
            0 <= i < spec_chain::<K>(m, cap, head_offset, head_len)->Ok_0.len() ==> spec_blob(
                m1,
                cap,
                (#[trigger] spec_chain::<K>(m, cap, head_offset, head_len)->Ok_0[i]).0,
                spec_chain::<K>(m, cap, head_offset, head_len)->Ok_0[i].1,
            ) == spec_blob(
                m,
                cap,
                spec_chain::<K>(m, cap, head_offset, head_len)->Ok_0[i].0,
                spec_chain::<K>(m, cap, head_offset, head_len)->Ok_0[i].1,
            ),
        spec_blob(m1, cap, next_offset, next_len) matches Ok(b) && Catalog::<K>::spec_read(b)
            == Ok::<CatalogView<K::Row>, crate::types::TypeError>(
            CatalogView::<K::Row> {
                rows: Seq::empty(),
                capacity: next_capacity,
                next_offset: 0,
                next_len: 0,
            },
        ),
    ensures
        ({
            let cs = spec_chain::<K>(m, cap, head_offset, head_len)->Ok_0;
            let (r, m2) = spec_link_tail::<K>(m1, cap, head_offset, head_len, next_offset, next_len);
            &&& r is Ok
            &&& spec_read_header(m2) == spec_read_header(m)
            &&& spec_chain::<K>(m2, cap, head_offset, head_len) matches Ok(cs2)
            &&& cs2.len() == cs.len() + 1
            &&& chain_rows(cs2) == chain_rows(cs)
            &&& chain_blobs_disjoint(cs2)
            &&& chain_rows(cs).len() <= u32::MAX ==> spec_append_to_chain::<K>(
                m2,
                cap,
                head_offset,
                head_len,
                row,
            ).0 == Ok::<ChainAppend, SegmentError>(ChainAppend::Appended(chain_rows(cs).len() as u32))
        }),
{
    let cs = spec_chain::<K>(m, cap, head_offset, head_len)->Ok_0;
    let n = cs.len();
    let t = cs.last();
    let fuel = m.len();
    let empty = CatalogView::<K::Row> {
        rows: Seq::empty(),
        capacity: next_capacity,
        next_offset: 0,
        next_len: 0,
    };
    lemma_arena_bounds(m, cap);
    let (a, e) = spec_arena_range(m, cap)->Ok_0;
    crate::codec::lemma_le_roundtrip();
    K::Row::lemma_row_len_bound();
    assert(spec_arena_range(m1, cap) == spec_arena_range(m, cap));
    assert forall|i: int| 0 <= i < n implies spec_blob(m1, cap, (#[trigger] cs[i]).0, cs[i].1)
        == spec_blob(m, cap, cs[i].0, cs[i].1) by {
        assert(cs[i] == spec_chain::<K>(m, cap, head_offset, head_len)->Ok_0[i]);
    }
    lemma_reload_same::<K>(m, m1, cap, head_offset, head_len, fuel, cs);
    assert(spec_chain::<K>(m1, cap, head_offset, head_len) == Ok::<
        Seq<ChunkView<K::Row>>,
        SegmentError,
    >(cs));
    // relink the tail
    let tv = CatalogView { next_offset, next_len, ..t.2 };
    let (ts, tl) = spec_blob_bounds(m1, cap, t.0, t.1)->Ok_0;
    lemma_chain_blob_bounds::<K>(m, cap, head_offset, head_len, fuel, n - 1);
    lemma_chain_chunk_read::<K>(m, cap, head_offset, head_len, fuel, n - 1);
    let old_tail = spec_blob(m, cap, t.0, t.1)->Ok_0;
    lemma_read_well_formed::<K>(old_tail);
    crate::catalog::wire::lemma_read_rows_len::<K>(old_tail);
    assert(tl >= Catalog::<K>::spec_reserved_len(t.2.capacity as int));
    let wt = Catalog::<K>::spec_wire(tv);
    crate::catalog::wire::lemma_rows_bytes(tv.rows);
    crate::catalog::wire::lemma_mul_mono(
        tv.rows.len() as int,
        tv.capacity as int,
        K::Row::spec_row_len() as int,
    );
    assert(wt.len() <= tl);
    let m2 = splice(m1, ts, wt);
    assert(spec_link_tail::<K>(m1, cap, head_offset, head_len, next_offset, next_len) == (
    Ok::<(), SegmentError>(()), m2));
    lemma_write_frame(m1, cap, ts, wt);
    assert forall|i: int| 0 <= i < n - 1 implies spec_blob(m2, cap, (#[trigger] cs[i]).0, cs[i].1)
        == spec_blob(m, cap, cs[i].0, cs[i].1) by {
        assert(cs[n - 1] == t);
        lemma_chain_blob_bounds::<K>(m, cap, head_offset, head_len, fuel, i);
    }
    assert(spec_blob(m2, cap, next_offset, next_len) == spec_blob(m1, cap, next_offset, next_len));
    // what the relinked tail and the new chunk read as
    assert(spec_blob(m2, cap, t.0, t.1) == Ok::<Seq<u8>, SegmentError>(splice(old_tail, 0, wt))) by {
        assert(m1.subrange(ts, ts + tl) =~= old_tail);
        assert(m2.subrange(ts, ts + tl) =~= splice(old_tail, 0, wt));
    }
    Catalog::<K>::lemma_write_read(tv, old_tail);
    // the chain, now one chunk longer, still fits the fuel
    let iv = Seq::new(n + 1, |i: int| if i < n { (cs[i].0 as int, cs[i].1 as int) } else { (next_offset as int, next_len as int) });
    assert forall|i: int| 0 <= i < iv.len() implies 0 <= (#[trigger] iv[i]).0 && iv[i].1 >= 1 && iv[i].0
        + iv[i].1 <= e - a by {
        if i < n {
            lemma_chain_blob_bounds::<K>(m, cap, head_offset, head_len, fuel, i);
        }
    }
    assert forall|i: int, j: int|
        0 <= i < iv.len() && 0 <= j < iv.len() && i != j implies (#[trigger] iv[i]).0 + iv[i].1 <= (
        #[trigger] iv[j]).0 || iv[j].0 + iv[j].1 <= iv[i].0 by {}
    lemma_disjoint_count(iv, e - a);
    assert(fuel >= n + 1);
    let next = (next_offset, next_len, empty);
    lemma_reload_grown::<K>(m, m2, cap, head_offset, head_len, fuel, cs, tv, next);
    let cs2 = cs.update(n - 1, (t.0, t.1, tv)).push(next);
    assert(m2.len() == m.len());
    assert(spec_chain::<K>(m2, cap, head_offset, head_len) == Ok::<
        Seq<ChunkView<K::Row>>,
        SegmentError,
    >(cs2));
    let cs1 = cs.update(n - 1, (t.0, t.1, tv));
    assert(cs1.drop_last() =~= cs.drop_last());
    assert(chain_rows(cs1) == chain_rows(cs));
    assert(cs2.drop_last() =~= cs1);
    assert(chain_rows(cs2) =~= chain_rows(cs));
    assert(chain_blobs_disjoint(cs2)) by {
        assert forall|i: int, j: int|
            0 <= i < cs2.len() && 0 <= j < cs2.len() && i != j implies (#[trigger] cs2[i]).0 + cs2[i].1
            <= (#[trigger] cs2[j]).0 || cs2[j].0 + cs2[j].1 <= cs2[i].0 by {
            assert(iv[i] == (cs2[i].0 as int, cs2[i].1 as int));
            assert(iv[j] == (cs2[j].0 as int, cs2[j].1 as int));
        }
    }
    // the next append lands in the new chunk
    let nv = CatalogView { rows: empty.rows.push(row), ..empty };
    let wn = Catalog::<K>::spec_wire(nv);
    crate::catalog::wire::lemma_rows_bytes(nv.rows);
    assert(cs2.last() == next);
    assert(spec_blob_bounds(m2, cap, next_offset, next_len) == spec_blob_bounds(m, cap, next_offset, next_len));
    assert(1 <= next_capacity);
    assert(spec_write_chunk::<K>(m2, cap, next_offset, next_len, nv).0 is Ok);
    assert(chain_rows(cs2.drop_last()).len() == chain_rows(cs).len());
}


/// A new chunk pinned in a free part of the arena and linked after the tail extends the
/// chain by that chunk and keeps its rows; the next append stores its row in the new chunk,
/// at the index after every earlier row.
pub proof fn lemma_grow_then_append<K: CatalogKind>(
    m: Seq<u8>,
    cap: usize,
    head_offset: u32,
    head_len: u32,
    next_offset: u32,
    next_len: u32,
    next_capacity: u32,
    row: K::Row,
)
    requires
        spec_chain::<K>(m, cap, head_offset, head_len) matches Ok(cs) && cs.len() > 0
            && chain_blobs_disjoint(cs) && forall|i: int|
            0 <= i < cs.len() ==> (#[trigger] cs[i]).0 + cs[i].1 <= next_offset || next_offset
                + next_len <= cs[i].0,
        spec_blob_bounds(m, cap, next_offset, next_len) is Ok,
        next_len >= Catalog::<K>::spec_reserved_len(next_capacity as int),
        next_capacity > 0,
        row.spec_valid(),
    ensures
        ({
            let cs = spec_chain::<K>(m, cap, head_offset, head_len)->Ok_0;
            let empty = CatalogView::<K::Row> {
                rows: Seq::empty(),
                capacity: next_capacity,
                next_offset: 0,
                next_len: 0,
            };
            let m1 = spec_write_chunk::<K>(m, cap, next_offset, next_len, empty).1;
            let (r, m2) = spec_link_tail::<K>(m1, cap, head_offset, head_len, next_offset, next_len);
            &&& r is Ok
            &&& spec_chain::<K>(m2, cap, head_offset, head_len) matches Ok(cs2)
            &&& cs2.len() == cs.len() + 1
            &&& chain_rows(cs2) == chain_rows(cs)
            &&& chain_blobs_disjoint(cs2)
            &&& chain_rows(cs).len() <= u32::MAX ==> spec_append_to_chain::<K>(
                m2,
                cap,
                head_offset,
                head_len,
                row,
            ).0 == Ok::<ChainAppend, SegmentError>(ChainAppend::Appended(chain_rows(cs).len() as u32))
        }),
{
    let cs = spec_chain::<K>(m, cap, head_offset, head_len)->Ok_0;
    let n = cs.len();
    let fuel = m.len();
    let empty = CatalogView::<K::Row> {
        rows: Seq::empty(),
        capacity: next_capacity,
        next_offset: 0,
        next_len: 0,
    };
    lemma_arena_bounds(m, cap);
    crate::codec::lemma_le_roundtrip();
    K::Row::lemma_row_len_bound();
    // write the empty catalog into the new blob
    let (ns, nl) = spec_blob_bounds(m, cap, next_offset, next_len)->Ok_0;
    let we = Catalog::<K>::spec_wire(empty);
    crate::catalog::wire::lemma_rows_bytes(empty.rows);
    assert(we.len() == CATALOG_HEADER_LEN);
    assert(next_capacity * K::Row::spec_row_len() >= 0) by (nonlinear_arith)
        requires
            K::Row::spec_row_len() > 0,
    ;
    let m1 = splice(m, ns, we);
    assert(spec_write_chunk::<K>(m, cap, next_offset, next_len, empty).1 == m1);
    lemma_write_frame(m, cap, ns, we);
    assert forall|i: int| 0 <= i < n implies spec_blob(m1, cap, (#[trigger] cs[i]).0, cs[i].1)
        == spec_blob(m, cap, cs[i].0, cs[i].1) by {
        lemma_chain_blob_bounds::<K>(m, cap, head_offset, head_len, fuel, i);
    }
    let old_new = m.subrange(ns, ns + nl);
    assert(spec_blob(m1, cap, next_offset, next_len) == Ok::<Seq<u8>, SegmentError>(splice(old_new, 0, we))) by {
        assert(m1.subrange(ns, ns + nl) =~= splice(old_new, 0, we));
    }
    Catalog::<K>::lemma_write_read(empty, old_new);
    lemma_link_then_append::<K>(
        m,
        m1,
        cap,
        head_offset,
        head_len,
        next_offset,
        next_len,
        next_capacity,
        row,
    );
}

/// How a loaded chain is linked: it starts at the head, each chunk names the next, and the
/// last names none.
proof fn lemma_chain_links<K: CatalogKind>(m: Seq<u8>, cap: usize, off: u32, len: u32, fuel: nat)
    requires
        spec_load_chain::<K>(m, cap, off, len, fuel) is Ok,
    ensures
        ({
            let cs = spec_load_chain::<K>(m, cap, off, len, fuel)->Ok_0;
            &&& len == 0 <==> cs.len() == 0
            &&& cs.len() > 0 ==> cs[0].0 == off && cs[0].1 == len && cs.last().2.next_len == 0
            &&& forall|k: int|
                0 <= k < cs.len() - 1 ==> (#[trigger] cs[k]).2.next_offset == cs[k + 1].0
                    && cs[k].2.next_len == cs[k + 1].1
        }),
    decreases fuel,
{
    let cs = spec_load_chain::<K>(m, cap, off, len, fuel)->Ok_0;
    if len != 0 {
        let bytes = spec_blob(m, cap, off, len)->Ok_0;
        let c = Catalog::<K>::spec_read(bytes)->Ok_0;
        let rest = spec_load_chain::<K>(m, cap, c.next_offset, c.next_len, (fuel - 1) as nat)->Ok_0;
        assert(cs == seq![(off, len, c)] + rest);
        lemma_chain_links::<K>(m, cap, c.next_offset, c.next_len, (fuel - 1) as nat);
        assert forall|k: int| 0 <= k < cs.len() - 1 implies (#[trigger] cs[k]).2.next_offset == cs[k
            + 1].0 && cs[k].2.next_len == cs[k + 1].1 by {
            if k > 0 {
                assert(cs[k] == rest[k - 1] && cs[k + 1] == rest[k]);
            } else {
                assert(cs[1] == rest[0]);
            }
        }
        if rest.len() > 0 {
            assert(cs.last() == rest.last());
        } else {
            assert(cs.last() == cs[0]);
        }
    }
}

/// Reloading a chain whose every chunk now reads as another catalog, linked the same way,
/// gives the chain with those catalogs.
proof fn lemma_reload_all<K: CatalogKind>(
    m: Seq<u8>,
    m2: Seq<u8>,
    cap: usize,
    off: u32,
    len: u32,
    fuel: nat,
    cs: Seq<ChunkView<K::Row>>,
    vs: Seq<CatalogView<K::Row>>,
)
    requires
        spec_load_chain::<K>(m, cap, off, len, fuel) == Ok::<Seq<ChunkView<K::Row>>, SegmentError>(cs),
        vs.len() == cs.len(),
        forall|i: int|
            0 <= i < cs.len() ==> (spec_blob(m2, cap, (#[trigger] cs[i]).0, cs[i].1) matches Ok(b)
                && Catalog::<K>::spec_read(b) == Ok::<CatalogView<K::Row>, crate::types::TypeError>(
                vs[i],
            )),
        forall|i: int|
            0 <= i < cs.len() - 1 ==> (#[trigger] vs[i]).next_offset == cs[i + 1].0 && vs[i].next_len
                == cs[i + 1].1,
        cs.len() > 0 ==> vs.last().next_len == 0,
    ensures
        spec_load_chain::<K>(m2, cap, off, len, fuel) == Ok::<Seq<ChunkView<K::Row>>, SegmentError>(
            Seq::new(cs.len(), |i: int| (cs[i].0, cs[i].1, vs[i])),
        ),
    decreases fuel,
{
    lemma_chain_links::<K>(m, cap, off, len, fuel);
    let out = Seq::new(cs.len(), |i: int| (cs[i].0, cs[i].1, vs[i]));
    if len == 0 {
        assert(out =~= Seq::<ChunkView<K::Row>>::empty());
    } else {
        let bytes = spec_blob(m, cap, off, len)->Ok_0;
        let c = Catalog::<K>::spec_read(bytes)->Ok_0;
        let rest = spec_load_chain::<K>(m, cap, c.next_offset, c.next_len, (fuel - 1) as nat)->Ok_0;
        assert(cs == seq![(off, len, c)] + rest);
        assert(cs[0] == (off, len, c));
        let v0 = vs[0];
        if cs.len() == 1 {
            assert(vs.last() == v0);
            assert(spec_load_chain::<K>(m2, cap, v0.next_offset, v0.next_len, (fuel - 1) as nat)
                == Ok::<Seq<ChunkView<K::Row>>, SegmentError>(Seq::empty()));
            assert(out =~= seq![(off, len, v0)] + Seq::<ChunkView<K::Row>>::empty());
        } else {
            let vrest = vs.drop_first();
            assert forall|i: int| 0 <= i < rest.len() implies (spec_blob(m2, cap, (#[trigger] rest[i]).0, rest[i].1) matches Ok(b)
                && Catalog::<K>::spec_read(b) == Ok::<CatalogView<K::Row>, crate::types::TypeError>(
                vrest[i],
            )) by {
                assert(rest[i] == cs[i + 1] && vrest[i] == vs[i + 1]);
            }
            assert forall|i: int| 0 <= i < rest.len() - 1 implies (#[trigger] vrest[i]).next_offset
                == rest[i + 1].0 && vrest[i].next_len == rest[i + 1].1 by {
                assert(rest[i + 1] == cs[i + 2] && vrest[i] == vs[i + 1]);
            }
            assert(vrest.last() == vs.last());
            assert(v0.next_offset == rest[0].0 && v0.next_len == rest[0].1) by {
                assert(rest[0] == cs[1]);
            }
            lemma_chain_links::<K>(m, cap, c.next_offset, c.next_len, (fuel - 1) as nat);
            assert(rest[0].0 == c.next_offset && rest[0].1 == c.next_len);
            lemma_reload_all::<K>(m, m2, cap, c.next_offset, c.next_len, (fuel - 1) as nat, rest, vrest);
            let out_rest = Seq::new(rest.len(), |i: int| (rest[i].0, rest[i].1, vrest[i]));
            assert(out =~= seq![(off, len, v0)] + out_rest);
        }
    }
}

/// The catalog that redistribution writes into chunk `i`, whose rows start at `row_off`.
pub open spec fn redistributed_view<R>(cs: Seq<ChunkView<R>>, rows: Seq<R>, i: int, row_off: int) -> CatalogView<R> {
    let capi = cs[i].2.capacity;
    let end = if row_off + capi < rows.len() {
        row_off + capi
    } else {
        rows.len() as int
    };
    CatalogView {
        rows: rows.subrange(row_off, end),
        capacity: capi,
        next_offset: if i + 1 < cs.len() {
            cs[i + 1].0
        } else {
            0u32
        },
        next_len: if i + 1 < cs.len() {
            cs[i + 1].1
        } else {
            0u32
        },
    }
}

/// Rows of `v` followed by the rows of a chain.
proof fn lemma_chain_rows_cons<R>(x: ChunkView<R>, s: Seq<ChunkView<R>>)
    ensures
        chain_rows(seq![x] + s) == x.2.rows + chain_rows(s),
    decreases s.len(),
{
    let t = seq![x] + s;
    if s.len() == 0 {
        assert(t =~= seq![x]);
        assert(t.drop_last() =~= Seq::<ChunkView<R>>::empty());
        assert(chain_rows(Seq::<ChunkView<R>>::empty()) == Seq::<R>::empty());
        assert(t.last() == x);
        assert(chain_rows(t) == Seq::<R>::empty() + x.2.rows);
        assert(Seq::<R>::empty() + x.2.rows =~= x.2.rows);
        assert(x.2.rows + Seq::<R>::empty() =~= x.2.rows);
    } else {
        lemma_chain_rows_cons(x, s.drop_last());
        assert(t.drop_last() =~= seq![x] + s.drop_last());
        assert(t.last() == s.last());
        assert(x.2.rows + chain_rows(s.drop_last()) + s.last().2.rows =~= x.2.rows + (chain_rows(
            s.drop_last(),
        ) + s.last().2.rows));
    }
}

/// What a successful redistribution from chunk `i` leaves: every chunk from `i` on holds the
/// catalog written for it (its rows taken in turn from `row_off`), and the chunks before `i`
/// and the arena are untouched.
proof fn lemma_redistribute_writes<K: CatalogKind>(
    m: Seq<u8>,
    cap: usize,
    cs: Seq<ChunkView<K::Row>>,
    rows: Seq<K::Row>,
    i: int,
    row_off: int,
) -> (vs: Seq<CatalogView<K::Row>>)
    requires
        spec_arena_range(m, cap) is Ok,
        chain_blobs_disjoint(cs),
        0 <= i <= cs.len(),
        0 <= row_off <= rows.len(),
        forall|k: int| 0 <= k < rows.len() ==> (#[trigger] rows[k]).spec_valid(),
        forall|j: int| 0 <= j < cs.len() ==> spec_blob_bounds(m, cap, (#[trigger] cs[j]).0, cs[j].1) is Ok,
        spec_redistribute_from::<K>(m, cap, cs, rows, i, row_off).0 is Ok,
    ensures
        ({
            let mf = spec_redistribute_from::<K>(m, cap, cs, rows, i, row_off).1;
            &&& mf.len() == m.len()
            &&& spec_read_header(mf) == spec_read_header(m)
            &&& spec_arena_range(mf, cap) == spec_arena_range(m, cap)
            &&& vs.len() == cs.len() - i
            &&& forall|j: int| 0 <= j < i ==> spec_blob(mf, cap, (#[trigger] cs[j]).0, cs[j].1) == spec_blob(m, cap, cs[j].0, cs[j].1)
            &&& forall|k: int|
                0 <= k < vs.len() ==> (spec_blob(mf, cap, cs[i + k].0, cs[i + k].1) matches Ok(b)
                    && Catalog::<K>::spec_read(b) == Ok::<CatalogView<K::Row>, crate::types::TypeError>(#[trigger] vs[k]))
            &&& forall|k: int| 0 <= k < vs.len() ==> (#[trigger] vs[k]).capacity == cs[i + k].2.capacity
                && vs[k].next_offset == (if i + k + 1 < cs.len() { cs[i + k + 1].0 } else { 0u32 })
                && vs[k].next_len == (if i + k + 1 < cs.len() { cs[i + k + 1].1 } else { 0u32 })
            &&& chain_rows(Seq::new(vs.len(), |k: int| (cs[i + k].0, cs[i + k].1, vs[k]))) == rows.subrange(row_off, rows.len() as int)
        }),
    decreases cs.len() - i,
{
    if i >= cs.len() {
        let out = Seq::new(0, |k: int| (cs[i + k].0, cs[i + k].1, Seq::<CatalogView<K::Row>>::empty()[k]));
        assert(out =~= Seq::<ChunkView<K::Row>>::empty());
        assert(rows.subrange(row_off, rows.len() as int) =~= Seq::<K::Row>::empty());
        Seq::empty()
    } else {
        let v = redistributed_view(cs, rows, i, row_off);
        let end = row_off + v.rows.len();
        let (s, l) = spec_blob_bounds(m, cap, cs[i].0, cs[i].1)->Ok_0;
        let w = Catalog::<K>::spec_wire(v);
        let m2 = splice(m, s, w);
        assert(spec_write_chunk::<K>(m, cap, cs[i].0, cs[i].1, v).0 is Ok);
        assert(spec_write_chunk::<K>(m, cap, cs[i].0, cs[i].1, v).1 == m2);
        lemma_arena_bounds(m, cap);
        crate::codec::lemma_le_roundtrip();
        K::Row::lemma_row_len_bound();
        crate::catalog::wire::lemma_rows_bytes(v.rows);
        crate::catalog::wire::lemma_mul_mono(
            v.rows.len() as int,
            v.capacity as int,
            K::Row::spec_row_len() as int,
        );
        assert(w.len() <= l);
        lemma_write_frame(m, cap, s, w);
        assert forall|j: int| 0 <= j < cs.len() && j != i implies spec_blob(m2, cap, (#[trigger] cs[j]).0, cs[j].1)
            == spec_blob(m, cap, cs[j].0, cs[j].1) by {
            assert(spec_blob_bounds(m, cap, cs[j].0, cs[j].1) is Ok);
        }
        assert forall|j: int| 0 <= j < cs.len() implies spec_blob_bounds(m2, cap, (#[trigger] cs[j]).0, cs[j].1) == spec_blob_bounds(m, cap, cs[j].0, cs[j].1) by {}
        let old_blob = spec_blob(m, cap, cs[i].0, cs[i].1)->Ok_0;
        assert(spec_blob(m2, cap, cs[i].0, cs[i].1) == Ok::<Seq<u8>, SegmentError>(splice(old_blob, 0, w))) by {
            assert(m2.subrange(s, s + l) =~= splice(old_blob, 0, w));
        }
        assert(Catalog::<K>::spec_well_formed(v)) by {
            assert forall|k: int| 0 <= k < v.rows.len() implies (#[trigger] v.rows[k]).spec_valid() by {
                assert(v.rows[k] == rows[row_off + k]);
            }
        }
        Catalog::<K>::lemma_write_read(v, old_blob);
        let vs_rest = lemma_redistribute_writes::<K>(m2, cap, cs, rows, i + 1, end);
        let mf = spec_redistribute_from::<K>(m2, cap, cs, rows, i + 1, end).1;
        assert(spec_redistribute_from::<K>(m, cap, cs, rows, i, row_off).1 == mf);
        let vs = seq![v] + vs_rest;
        assert forall|k: int| 0 <= k < vs.len() implies (spec_blob(mf, cap, cs[i + k].0, cs[i + k].1) matches Ok(b)
            && Catalog::<K>::spec_read(b) == Ok::<CatalogView<K::Row>, crate::types::TypeError>(#[trigger] vs[k])) by {
            if k > 0 {
                assert(vs[k] == vs_rest[k - 1]);
                assert(cs[i + k] == cs[(i + 1) + (k - 1)]);
            }
        }
        assert forall|k: int| 0 <= k < vs.len() implies (#[trigger] vs[k]).capacity == cs[i + k].2.capacity
            && vs[k].next_offset == (if i + k + 1 < cs.len() { cs[i + k + 1].0 } else { 0u32 })
            && vs[k].next_len == (if i + k + 1 < cs.len() { cs[i + k + 1].1 } else { 0u32 }) by {
            if k > 0 {
                assert(vs[k] == vs_rest[k - 1]);
            }
        }
        let out = Seq::new(vs.len(), |k: int| (cs[i + k].0, cs[i + k].1, vs[k]));
        let out_rest = Seq::new(vs_rest.len(), |k: int| (cs[i + 1 + k].0, cs[i + 1 + k].1, vs_rest[k]));
        assert(out =~= seq![(cs[i].0, cs[i].1, v)] + out_rest);
        lemma_chain_rows_cons((cs[i].0, cs[i].1, v), out_rest);
        assert(rows.subrange(row_off, end) + rows.subrange(end, rows.len() as int) =~= rows.subrange(row_off, rows.len() as int));
        vs
    }
}

/// Writing a catalog's rows back over the chunks of a chain whose blobs do not overlap, when
/// every row has its layout guard and the write is accepted, leaves a chain with the same
/// chunks and capacities that reads back exactly those rows.
pub proof fn lemma_redistribute_then_read<K: CatalogKind>(
    m: Seq<u8>,
    cap: usize,
    head_offset: u32,
    head_len: u32,
    rows: Seq<K::Row>,
)
    requires
        spec_chain::<K>(m, cap, head_offset, head_len) matches Ok(cs) && cs.len() > 0
            && chain_blobs_disjoint(cs),
        forall|k: int| 0 <= k < rows.len() ==> (#[trigger] rows[k]).spec_valid(),
        spec_redistribute_from::<K>(
            m,
            cap,
            spec_chain::<K>(m, cap, head_offset, head_len)->Ok_0,
            rows,
            0,
            0,
        ).0 is Ok,
    ensures
        ({
            let cs = spec_chain::<K>(m, cap, head_offset, head_len)->Ok_0;
            let m2 = spec_redistribute_from::<K>(m, cap, cs, rows, 0, 0).1;
            &&& spec_chain::<K>(m2, cap, head_offset, head_len) matches Ok(cs2)
            &&& cs2.len() == cs.len()
            &&& forall|i: int| 0 <= i < cs.len() ==> (#[trigger] cs2[i]).0 == cs[i].0 && cs2[i].1
                == cs[i].1 && cs2[i].2.capacity == cs[i].2.capacity
            &&& chain_rows(cs2) == rows
            &&& spec_read_header(m2) == spec_read_header(m)
        }),
{
    let cs = spec_chain::<K>(m, cap, head_offset, head_len)->Ok_0;
    let n = cs.len();
    let fuel = m.len();
    lemma_chain_links::<K>(m, cap, head_offset, head_len, fuel);
    lemma_chain_blob_bounds::<K>(m, cap, head_offset, head_len, fuel, 0);
    assert forall|j: int| 0 <= j < n implies spec_blob_bounds(m, cap, (#[trigger] cs[j]).0, cs[j].1) is Ok by {
        lemma_chain_blob_bounds::<K>(m, cap, head_offset, head_len, fuel, j);
    }
    let vs = lemma_redistribute_writes::<K>(m, cap, cs, rows, 0, 0);
    let m2 = spec_redistribute_from::<K>(m, cap, cs, rows, 0, 0).1;
    assert forall|i: int| 0 <= i < cs.len() implies (spec_blob(m2, cap, (#[trigger] cs[i]).0, cs[i].1) matches Ok(b)
        && Catalog::<K>::spec_read(b) == Ok::<CatalogView<K::Row>, crate::types::TypeError>(vs[i])) by {
        assert(cs[0 + i] == cs[i]);
        assert(vs[i] == vs[i]);
    }
    assert forall|i: int| 0 <= i < cs.len() - 1 implies (#[trigger] vs[i]).next_offset == cs[i + 1].0 && vs[i].next_len
        == cs[i + 1].1 by {}
    assert(vs.last() == vs[n - 1]);
    lemma_reload_all::<K>(m, m2, cap, head_offset, head_len, fuel, cs, vs);
    let cs2 = Seq::new(n, |i: int| (cs[i].0, cs[i].1, vs[i]));
    assert(Seq::new(vs.len(), |k: int| (cs[0 + k].0, cs[0 + k].1, vs[k])) =~= cs2);
    assert(rows.subrange(0, rows.len() as int) =~= rows);
}

/// A full chain grows by a placed chunk: an empty catalog placed where the allocator handed
/// out a blob inside the arena that no chunk of the chain uses, then linked after the tail,
/// extends the chain by that chunk and keeps its rows and the slab header; the next append
/// stores its row in the new chunk, at the index after every earlier row.
pub proof fn lemma_place_link_append<K: CatalogKind>(
    m: Seq<u8>,
    cap: usize,
    head_offset: u32,
    head_len: u32,
    ptr: usize,
    base: usize,
    alloc_len: usize,
    next_capacity: u32,
    row: K::Row,
)
    requires
        spec_chain::<K>(m, cap, head_offset, head_len) matches Ok(cs) && cs.len() > 0
            && chain_blobs_disjoint(cs),
        spec_arena_range(m, cap) matches Ok((a, e)) && spec_place_catalog::<K>(
            m,
            ptr,
            base,
            a as usize,
            alloc_len,
            CatalogView { rows: Seq::empty(), capacity: next_capacity, next_offset: 0, next_len: 0 },
        ).0 matches Ok((off, len)) && off + alloc_len <= e - a && forall|i: int|
            0 <= i < spec_chain::<K>(m, cap, head_offset, head_len)->Ok_0.len() ==> (#[trigger] spec_chain::<K>(
                m,
                cap,
                head_offset,
                head_len,
            )->Ok_0[i]).0 + spec_chain::<K>(m, cap, head_offset, head_len)->Ok_0[i].1 <= off
                || off + alloc_len <= spec_chain::<K>(m, cap, head_offset, head_len)->Ok_0[i].0,
        next_capacity > 0,
        row.spec_valid(),
    ensures
        ({
            let cs = spec_chain::<K>(m, cap, head_offset, head_len)->Ok_0;
            let a = spec_arena_range(m, cap)->Ok_0.0;
            let empty = CatalogView::<K::Row> {
                rows: Seq::empty(),
                capacity: next_capacity,
                next_offset: 0,
                next_len: 0,
            };
            let (pr, m1) = spec_place_catalog::<K>(m, ptr, base, a as usize, alloc_len, empty);
            let (off, len) = pr->Ok_0;
            let (r, m2) = spec_link_tail::<K>(m1, cap, head_offset, head_len, off, len);
            &&& spec_read_header(m1) == spec_read_header(m)
            &&& r is Ok
            &&& spec_read_header(m2) == spec_read_header(m)
            &&& spec_chain::<K>(m2, cap, head_offset, head_len) matches Ok(cs2)
            &&& cs2.len() == cs.len() + 1
            &&& chain_rows(cs2) == chain_rows(cs)
            &&& chain_blobs_disjoint(cs2)
            &&& chain_rows(cs).len() <= u32::MAX ==> spec_append_to_chain::<K>(
                m2,
                cap,
                head_offset,
                head_len,
                row,
            ).0 == Ok::<ChainAppend, SegmentError>(ChainAppend::Appended(chain_rows(cs).len() as u32))
        }),
{
    let cs = spec_chain::<K>(m, cap, head_offset, head_len)->Ok_0;
    let n = cs.len();
    let fuel = m.len();
    lemma_arena_bounds(m, cap);
    let (a, e) = spec_arena_range(m, cap)->Ok_0;
    let empty = CatalogView::<K::Row> {
        rows: Seq::empty(),
        capacity: next_capacity,
        next_offset: 0,
        next_len: 0,
    };
    let (pr, m1) = spec_place_catalog::<K>(m, ptr, base, a as usize, alloc_len, empty);
    let (off, len) = pr->Ok_0;
    let reserved = Catalog::<K>::spec_reserved_len(next_capacity as int);
    let start = a + off;
    crate::codec::lemma_le_roundtrip();
    K::Row::lemma_row_len_bound();
    crate::catalog::wire::lemma_rows_bytes(empty.rows);
    assert(next_capacity * K::Row::spec_row_len() >= 0) by (nonlinear_arith)
        requires
            K::Row::spec_row_len() > 0,
    ;
    assert(len == reserved);
    assert(alloc_len >= reserved);
    let zr = zero_run(alloc_len as nat);
    let z = splice(m, start, zr);
    let w = Catalog::<K>::spec_wire(empty);
    assert(w.len() == CATALOG_HEADER_LEN);
    assert(m1 == splice(z, start, w));
    // both writes lie past the header, inside the arena
    lemma_write_frame(m, cap, start, zr);
    lemma_write_frame(z, cap, start, w);
    assert(spec_read_header(m1) == spec_read_header(m));
    assert(m1.len() == m.len());
    // the chain's chunks do not meet the allocation
    assert forall|i: int| 0 <= i < n implies spec_blob(m1, cap, (#[trigger] cs[i]).0, cs[i].1)
        == spec_blob(m, cap, cs[i].0, cs[i].1) by {
        lemma_chain_blob_bounds::<K>(m, cap, head_offset, head_len, fuel, i);
        assert(cs[i] == spec_chain::<K>(m, cap, head_offset, head_len)->Ok_0[i]);
        let (bs, bl) = spec_blob_bounds(m, cap, cs[i].0, cs[i].1)->Ok_0;
        assert(m1.subrange(bs, bs + bl) =~= m.subrange(bs, bs + bl));
    }
    // the new blob reads as the empty catalog
    assert(spec_blob_bounds(m, cap, off, len) == Ok::<(int, int), SegmentError>((start, len as int)));
    let zl = zero_run(len as nat);
    assert(m1.subrange(start, start + len) =~= splice(zl, 0, w));
    Catalog::<K>::lemma_write_read(empty, zl);
    lemma_link_then_append::<K>(m, m1, cap, head_offset, head_len, off, len, next_capacity, row);
}

} // verus!
