//! Per-slab usage rows and their sums, for the registry's usage report.

use super::locator::Locator;
use crate::ids::{Id, SegmentId};
use crate::io::HasMapping;
use crate::slab::segment::{first_slab_at, slab_arena_len, Segment};
use crate::url::url_scheme;
use vstd::multiset::Multiset;
use vstd::prelude::*;

verus! {

broadcast use {
    vstd::seq_lib::to_multiset_build,
    vstd::seq_lib::to_multiset_insert,
    vstd::seq_lib::to_multiset_remove,
    vstd::seq_lib::to_multiset_len,
    vstd::multiset::lemma_multiset_empty_len,
};

/// Usage of one slab: raw mapping, fixed header, and allocator-visible arena.
#[derive(Debug)]
pub struct Usage {
    pub id: Id,
    pub segment_id: SegmentId,
    pub scheme: String,
    pub locator: Locator,
    /// Full mapped length of the slab.
    pub raw_len: usize,
    /// Fixed segment header bytes (raw - arena).
    pub header_len: usize,
    /// Arena bytes made available to the allocator.
    pub arena_len: usize,
}

impl Usage {
    /// The usage row of the slab `locator` with `raw_len` mapped and `arena_len` arena bytes;
    /// the header is what the mapping has beyond the arena.
    pub fn of(id: Id, segment_id: SegmentId, locator: Locator, raw_len: usize, arena_len: usize) -> (r:
        Usage)
        ensures
            r.id == id,
            r.segment_id == segment_id,
            r.scheme@ == url_scheme(locator@),
            r.locator@ == locator@,
            r.raw_len == raw_len,
            r.arena_len == arena_len,
            r.header_len == (if raw_len >= arena_len {
                raw_len - arena_len
            } else {
                0
            }),
    {
        let scheme = locator.scheme().to_owned();
        let header_len = if raw_len >= arena_len {
            raw_len - arena_len
        } else {
            0
        };
        Usage { id, segment_id, scheme, locator, raw_len, header_len, arena_len }
    }

    /// The segment a reference points at, if any.
    pub open spec fn owned(segment: Option<&Segment>) -> Option<Segment> {
        match segment {
            Some(s) => Some(*s),
            None => None,
        }
    }

    /// Mapped and arena length of the slab opened at `locator` in `segment`: the first such
    /// slab; nothing when the segment is unknown or holds no such slab.
    pub open spec fn spec_slab_lens(segment: Option<Segment>, locator: Seq<char>) -> (usize, usize) {
        match segment {
            None => (0, 0),
            Some(s) => match first_slab_at(s.slabs(), locator) {
                None => (0, 0),
                Some(i) => (
                    s.slabs()[i].spec_bytes().len() as usize,
                    match slab_arena_len(s.slabs()[i]) {
                        Some(n) => n as usize,
                        None => 0,
                    },
                ),
            },
        }
    }

    /// The usage row of the slab `locator`, measured in `segment` (the segment it was
    /// registered on, if it still exists).
    pub fn of_slab(id: Id, segment_id: SegmentId, locator: Locator, segment: Option<&Segment>) -> (r:
        Usage)
        ensures
            r.id == id,
            r.segment_id == segment_id,
            r.scheme@ == url_scheme(locator@),
            r.locator@ == locator@,
            r.raw_len == Self::spec_slab_lens(Self::owned(segment), locator@).0,
            r.arena_len == Self::spec_slab_lens(Self::owned(segment), locator@).1,
            r.header_len == (if r.raw_len >= r.arena_len {
                r.raw_len - r.arena_len
            } else {
                0
            }),
    {
        let (raw_len, arena_len) = match segment {
            None => (0, 0),
            Some(s) => match s.locate_slab(locator.as_url()) {
                None => (0, 0),
                Some(i) => {
                    let raw = match s.size_raw(i) {
                        Some(n) => n,
                        None => 0,
                    };
                    let arena = match s.size(i) {
                        Some(n) => n,
                        None => 0,
                    };
                    (raw, arena)
                },
            },
        };
        Self::of(id, segment_id, locator, raw_len, arena_len)
    }
}

/// Rows ordered by id.
pub open spec fn sorted_by_id(s: Seq<Usage>) -> bool {
    forall|i: int, j: int| 0 <= i < j < s.len() ==> s[i].id.0 <= s[j].id.0
}

/// Order usage rows by id.
pub fn sort_by_id(rows: Vec<Usage>) -> (r: Vec<Usage>)
    ensures
        sorted_by_id(r@),
        r@.to_multiset() == rows@.to_multiset(),
{
    let mut rest = rows;
    let mut out: Vec<Usage> = Vec::new();
    proof {
        assert(out@.to_multiset().len() == 0);
        assert(out@.to_multiset() =~= Multiset::empty());
        assert(out@.to_multiset().add(rest@.to_multiset()) =~= rows@.to_multiset());
    }
    while rest.len() > 0
        invariant
            sorted_by_id(out@),
            out@.to_multiset().add(rest@.to_multiset()) == rows@.to_multiset(),
        decreases rest.len(),
    {
        let ghost before_rest = rest@;
        let x = rest.pop().unwrap();
        proof {
            assert(before_rest == rest@.push(x));
        }
        let n = out.len();
        let mut k: usize = 0;
        while k < n && out[k].id.0 <= x.id.0
            invariant
                n == out@.len(),
                k <= n,
                forall|j: int| 0 <= j < k ==> out@[j].id.0 <= x.id.0,
            decreases n - k,
        {
            k = k + 1;
        }
        let ghost before_out = out@;
        out.insert(k, x);
        proof {
            assert forall|i: int, j: int| 0 <= i < j < out@.len() implies out@[i].id.0
                <= out@[j].id.0 by {
                if j < k {
                    assert(out@[i] == before_out[i] && out@[j] == before_out[j]);
                } else if j == k {
                    assert(out@[i] == before_out[i]);
                } else if i == k {
                    assert(out@[j] == before_out[j - 1]);
                    if k < n {
                        assert(!(before_out[k as int].id.0 <= x.id.0));
                        assert(before_out[k as int].id.0 <= before_out[j - 1].id.0);
                    }
                } else if i < k {
                    assert(out@[i] == before_out[i] && out@[j] == before_out[j - 1]);
                } else {
                    assert(out@[i] == before_out[i - 1] && out@[j] == before_out[j - 1]);
                }
            }
            assert(out@.to_multiset() == before_out.to_multiset().insert(x));
            assert(before_rest.to_multiset() == rest@.to_multiset().insert(x));
            assert(out@.to_multiset().add(rest@.to_multiset()) =~= before_out.to_multiset().add(
                before_rest.to_multiset(),
            ));
        }
    }
    proof {
        assert(rest@.to_multiset().len() == 0);
        assert(rest@.to_multiset() =~= Multiset::empty());
        assert(out@.to_multiset().add(rest@.to_multiset()) =~= out@.to_multiset());
    }
    out
}

/// Sums of the usage rows of all slabs.
#[derive(Debug, Clone, Copy, PartialEq, Eq, Default, Structural)]
pub struct SlabTotals {
    pub slab_count: usize,
    pub total_raw_len: usize,
    pub total_header_len: usize,
    pub total_arena_len: usize,
}

pub open spec fn sum_raw(s: Seq<Usage>) -> int
    decreases s.len(),
{
    if s.len() == 0 {
        0
    } else {
        sum_raw(s.drop_last()) + s.last().raw_len
    }
}

pub open spec fn sum_header(s: Seq<Usage>) -> int
    decreases s.len(),
{
    if s.len() == 0 {
        0
    } else {
        sum_header(s.drop_last()) + s.last().header_len
    }
}

pub open spec fn sum_arena(s: Seq<Usage>) -> int
    decreases s.len(),
{
    if s.len() == 0 {
        0
    } else {
        sum_arena(s.drop_last()) + s.last().arena_len
    }
}

/// The sums of `rows`, or `None` when one of them does not fit in a `usize`.
pub fn slab_totals(rows: &[Usage]) -> (r: Option<SlabTotals>)
    ensures
        r is Some <==> (sum_raw(rows@) <= usize::MAX && sum_header(rows@) <= usize::MAX
            && sum_arena(rows@) <= usize::MAX),
        r matches Some(t) ==> t.slab_count == rows@.len() && t.total_raw_len == sum_raw(rows@)
            && t.total_header_len == sum_header(rows@) && t.total_arena_len == sum_arena(rows@),
{
    let n = rows.len();
    let mut t = SlabTotals { slab_count: 0, total_raw_len: 0, total_header_len: 0, total_arena_len: 0 };
    let mut i: usize = 0;
    let mut fits = true;
    while i < n
        invariant
            n == rows@.len(),
            i <= n,
            fits ==> (t.slab_count == i && t.total_raw_len == sum_raw(rows@.take(i as int))
                && t.total_header_len == sum_header(rows@.take(i as int)) && t.total_arena_len
                == sum_arena(rows@.take(i as int))),
            !fits ==> !(sum_raw(rows@) <= usize::MAX && sum_header(rows@) <= usize::MAX
                && sum_arena(rows@) <= usize::MAX),
        decreases n - i,
    {
        proof {
            let p = rows@.take(i + 1);
            assert(p.drop_last() =~= rows@.take(i as int));
            assert(p.last() == rows@[i as int]);
            lemma_sums_mono(rows@, i + 1);
        }
        if fits {
            let u = &rows[i];
            match (
                t.total_raw_len.checked_add(u.raw_len),
                t.total_header_len.checked_add(u.header_len),
                t.total_arena_len.checked_add(u.arena_len),
            ) {
                (Some(a), Some(b), Some(c)) => {
                    t = SlabTotals {
                        slab_count: t.slab_count + 1,
                        total_raw_len: a,
                        total_header_len: b,
                        total_arena_len: c,
                    };
                },
                _ => {
                    fits = false;
                },
            }
        }
        i = i + 1;
    }
    proof {
        assert(rows@.take(n as int) =~= rows@);
    }
    if fits {
        Some(t)
    } else {
        None
    }
}

/// The sums of a prefix are no larger than the sums of the whole.
proof fn lemma_sums_mono(s: Seq<Usage>, k: int)
    requires
        0 <= k <= s.len(),
    ensures
        sum_raw(s.take(k)) <= sum_raw(s),
        sum_header(s.take(k)) <= sum_header(s),
        sum_arena(s.take(k)) <= sum_arena(s),
    decreases s.len(),
{
    if k == s.len() {
        assert(s.take(k) =~= s);
    } else {
        lemma_sums_mono(s.drop_last(), k);
        assert(s.drop_last().take(k) =~= s.take(k));
    }
}

/// The counters of one allocator (or their sums over several), as plain values.
#[derive(Debug, Clone, Copy, PartialEq, Eq, Default, Structural)]
pub struct TalcTotals {
    /// Active allocations.
    pub allocation_count: usize,
    /// Allocations ever made.
    pub total_allocation_count: u64,
    /// Bytes in active allocations.
    pub allocated_bytes: usize,
    /// Bytes ever allocated.
    pub total_allocated_bytes: u64,
    /// Bytes available for allocation.
    pub available_bytes: usize,
    /// Gaps between allocations.
    pub fragment_count: usize,
    /// Active heaps.
    pub heap_count: usize,
    /// Heaps ever established.
    pub total_heap_count: u64,
    /// Bytes claimed now.
    pub claimed_bytes: usize,
    /// Bytes ever claimed.
    pub total_claimed_bytes: u64,
}

/// Counter `k` (in declaration order) of `c`.
pub open spec fn talc_field(c: TalcTotals, k: int) -> int {
    if k == 0 {
        c.allocation_count as int
    } else if k == 1 {
        c.total_allocation_count as int
    } else if k == 2 {
        c.allocated_bytes as int
    } else if k == 3 {
        c.total_allocated_bytes as int
    } else if k == 4 {
        c.available_bytes as int
    } else if k == 5 {
        c.fragment_count as int
    } else if k == 6 {
        c.heap_count as int
    } else if k == 7 {
        c.total_heap_count as int
    } else if k == 8 {
        c.claimed_bytes as int
    } else {
        c.total_claimed_bytes as int
    }
}

/// The largest value counter `k` can hold.
pub open spec fn talc_field_max(k: int) -> int {
    if k == 1 || k == 3 || k == 7 || k == 9 {
        u64::MAX as int
    } else {
        usize::MAX as int
    }
}

/// The sum of counter `k` over `s`.
pub open spec fn sum_talc_field(s: Seq<TalcTotals>, k: int) -> int
    decreases s.len(),
{
    if s.len() == 0 {
        0
    } else {
        sum_talc_field(s.drop_last(), k) + talc_field(s.last(), k)
    }
}

proof fn lemma_talc_sums_mono(s: Seq<TalcTotals>, j: int, k: int)
    requires
        0 <= j <= s.len(),
    ensures
        sum_talc_field(s.take(j), k) <= sum_talc_field(s, k),
    decreases s.len(),
{
    if j == s.len() {
        assert(s.take(j) =~= s);
    } else {
        lemma_talc_sums_mono(s.drop_last(), j, k);
        assert(s.drop_last().take(j) =~= s.take(j));
        assert(talc_field(s.last(), k) >= 0) by {
            assert(0 <= k < 10 ==> talc_field(s.last(), k) >= 0);
        }
    }
}

/// `a` plus `b`, counter by counter, or `None` when one of the sums does not fit.
fn add_talc(a: TalcTotals, b: TalcTotals) -> (r: Option<TalcTotals>)
    ensures
        r is Some <==> (forall|k: int| 0 <= k < 10 ==> #[trigger] talc_field(a, k) + talc_field(b, k)
            <= talc_field_max(k)),
        r matches Some(t) ==> forall|k: int|
            0 <= k < 10 ==> #[trigger] talc_field(t, k) == talc_field(a, k) + talc_field(b, k),
{
    let f0 = match a.allocation_count.checked_add(b.allocation_count) {
        Some(v) => v,
        None => {
            assert(talc_field(a, 0) + talc_field(b, 0) > talc_field_max(0));
            return None;
        },
    };
    let f1 = match a.total_allocation_count.checked_add(b.total_allocation_count) {
        Some(v) => v,
        None => {
            assert(talc_field(a, 1) + talc_field(b, 1) > talc_field_max(1));
            return None;
        },
    };
    let f2 = match a.allocated_bytes.checked_add(b.allocated_bytes) {
        Some(v) => v,
        None => {
            assert(talc_field(a, 2) + talc_field(b, 2) > talc_field_max(2));
            return None;
        },
    };
    let f3 = match a.total_allocated_bytes.checked_add(b.total_allocated_bytes) {
        Some(v) => v,
        None => {
            assert(talc_field(a, 3) + talc_field(b, 3) > talc_field_max(3));
            return None;
        },
    };
    let f4 = match a.available_bytes.checked_add(b.available_bytes) {
        Some(v) => v,
        None => {
            assert(talc_field(a, 4) + talc_field(b, 4) > talc_field_max(4));
            return None;
        },
    };
    let f5 = match a.fragment_count.checked_add(b.fragment_count) {
        Some(v) => v,
        None => {
            assert(talc_field(a, 5) + talc_field(b, 5) > talc_field_max(5));
            return None;
        },
    };
    let f6 = match a.heap_count.checked_add(b.heap_count) {
        Some(v) => v,
        None => {
            assert(talc_field(a, 6) + talc_field(b, 6) > talc_field_max(6));
            return None;
        },
    };
    let f7 = match a.total_heap_count.checked_add(b.total_heap_count) {
        Some(v) => v,
        None => {
            assert(talc_field(a, 7) + talc_field(b, 7) > talc_field_max(7));
            return None;
        },
    };
    let f8 = match a.claimed_bytes.checked_add(b.claimed_bytes) {
        Some(v) => v,
        None => {
            assert(talc_field(a, 8) + talc_field(b, 8) > talc_field_max(8));
            return None;
        },
    };
    let f9 = match a.total_claimed_bytes.checked_add(b.total_claimed_bytes) {
        Some(v) => v,
        None => {
            assert(talc_field(a, 9) + talc_field(b, 9) > talc_field_max(9));
            return None;
        },
    };
    let t = TalcTotals {
        allocation_count: f0,
        total_allocation_count: f1,
        allocated_bytes: f2,
        total_allocated_bytes: f3,
        available_bytes: f4,
        fragment_count: f5,
        heap_count: f6,
        total_heap_count: f7,
        claimed_bytes: f8,
        total_claimed_bytes: f9,
    };
    assert forall|k: int| 0 <= k < 10 implies #[trigger] talc_field(t, k) == talc_field(a, k)
        + talc_field(b, k) by {
        if k == 0 {} else if k == 1 {} else if k == 2 {} else if k == 3 {} else if k == 4 {}
        else if k == 5 {} else if k == 6 {} else if k == 7 {} else if k == 8 {} else {}
    }
    Some(t)
}

/// The counters of several allocators summed, or `None` when a sum does not fit its type.
pub fn talc_totals(counters: &[TalcTotals]) -> (r: Option<TalcTotals>)
    ensures
        r is Some <==> (forall|k: int| 0 <= k < 10 ==> #[trigger] sum_talc_field(counters@, k)
            <= talc_field_max(k)),
        r matches Some(t) ==> forall|k: int|
            0 <= k < 10 ==> #[trigger] talc_field(t, k) == sum_talc_field(counters@, k),
{
    let mut acc = TalcTotals {
        allocation_count: 0,
        total_allocation_count: 0,
        allocated_bytes: 0,
        total_allocated_bytes: 0,
        available_bytes: 0,
        fragment_count: 0,
        heap_count: 0,
        total_heap_count: 0,
        claimed_bytes: 0,
        total_claimed_bytes: 0,
    };
    let n = counters.len();
    let mut i: usize = 0;
    assert forall|k: int| 0 <= k < 10 implies #[trigger] talc_field(acc, k) == sum_talc_field(
        counters@.take(0),
        k,
    ) by {
        assert(counters@.take(0).len() == 0);
    }
    while i < n
        invariant
            n == counters@.len(),
            i <= n,
            forall|k: int|
                0 <= k < 10 ==> #[trigger] talc_field(acc, k) == sum_talc_field(
                    counters@.take(i as int),
                    k,
                ),
        decreases n - i,
    {
        let c = counters[i];
        proof {
            let p = counters@.take(i + 1);
            assert(p.drop_last() =~= counters@.take(i as int));
            assert(p.last() == c);
        }
        match add_talc(acc, c) {
            Some(t) => {
                acc = t;
            },
            None => {
                proof {
                    let k = choose|k: int| 0 <= k < 10 && !(#[trigger] talc_field(acc, k) + talc_field(c, k)
                        <= talc_field_max(k));
                    lemma_talc_sums_mono(counters@, i + 1, k);
                    assert(sum_talc_field(counters@.take(i + 1), k) == talc_field(acc, k) + talc_field(c, k));
                }
                return None;
            },
        }
        i = i + 1;
    }
    proof {
        assert(counters@.take(n as int) =~= counters@);
        assert forall|k: int| 0 <= k < 10 implies #[trigger] sum_talc_field(counters@, k)
            <= talc_field_max(k) by {
            assert(talc_field(acc, k) == sum_talc_field(counters@, k));
            if k == 0 {} else if k == 1 {} else if k == 2 {} else if k == 3 {} else if k == 4 {}
            else if k == 5 {} else if k == 6 {} else if k == 7 {} else if k == 8 {} else {}
        }
    }
    Some(acc)
}

} // verus!
