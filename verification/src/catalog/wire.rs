//! Generic pinned catalog blob: a tagged header followed by fixed-size rows.
//!
//! Every catalog chunk uses one wire header (`magic`, `version`, `count`, `capacity`,
//! `next_offset`, `next_len`), then `capacity` row slots of which the first `count` are
//! used. Tail chunks set `next_offset` / `next_len` to zero.

use crate::codec::{get32, get_u32, le32, lemma_le_roundtrip, push_u32, put_bytes, splice};
use crate::types::TypeError;
use vstd::prelude::*;

verus! {

/// Catalog wire header: `magic`, `version`, `count`, `capacity`, `next_offset`, `next_len`.
pub const CATALOG_HEADER_LEN: usize = 24;

/// Fixed-size row inside a [`Catalog`].
pub trait CatalogRow: Sized + Copy {
    /// Bytes one row occupies on the wire.
    spec fn spec_row_len() -> nat;

    /// The bytes written for this row.
    spec fn spec_encoded(self) -> Seq<u8>;

    /// What decoding a row from `s` gives.
    spec fn spec_decode(s: Seq<u8>) -> Result<Self, TypeError>;

    /// Whether the row's layout guard is intact.
    spec fn spec_valid(self) -> bool;

    /// The encoding has the row length, and a valid row decodes back to itself.
    proof fn lemma_codec(self)
        ensures
            self.spec_encoded().len() == Self::spec_row_len(),
            self.spec_valid() ==> Self::spec_decode(self.spec_encoded()) == Ok::<Self, TypeError>(
                self,
            ),
    ;

    /// A row decodes only when its layout guard is intact.
    proof fn lemma_decode_valid(s: Seq<u8>)
        ensures
            Self::spec_decode(s) matches Ok(r) ==> r.spec_valid(),
    ;

    /// Rows are between one and sixty-four bytes long.
    proof fn lemma_row_len_bound()
        ensures
            0 < Self::spec_row_len() <= 64,
    ;

    fn row_len() -> (r: usize)
        ensures
            r == Self::spec_row_len(),
    ;

    /// The encoded bytes of this row.
    fn row_bytes(&self) -> (r: Vec<u8>)
        ensures
            r@ == self.spec_encoded(),
    ;

    fn encode_into(&self, dst: &mut [u8]) -> (r: Result<(), TypeError>)
        ensures
            old(dst)@.len() >= Self::spec_row_len() ==> r is Ok && final(dst)@ == splice(
                old(dst)@,
                0,
                self.spec_encoded(),
            ),
            old(dst)@.len() < Self::spec_row_len() ==> r == Err::<(), TypeError>(
                TypeError::OutOfBounds,
            ) && final(dst)@ == old(dst)@,
    ;

    fn decode_from(src: &[u8]) -> (r: Result<Self, TypeError>)
        ensures
            r == Self::spec_decode(src@),
    ;

    fn validate(&self) -> (r: Result<(), TypeError>)
        ensures
            r == (if self.spec_valid() {
                Ok(())
            } else {
                Err(TypeError::BadHeader)
            }),
    ;
}

/// Identifies a catalog blob (tag + schema version) and its row type.
pub trait CatalogKind {
    const MAGIC: u32;
    const VERSION: u32;
    const DEFAULT_CAPACITY: u32;
    type Row: CatalogRow;
}

/// Mathematical content of a catalog chunk.
pub struct CatalogView<R> {
    pub rows: Seq<R>,
    pub capacity: u32,
    pub next_offset: u32,
    pub next_len: u32,
}

/// In-memory view of a reserved catalog table.
#[derive(Clone, Debug, PartialEq, Eq)]
pub struct Catalog<K: CatalogKind> {
    pub rows: Vec<K::Row>,
    pub capacity: u32,
    /// Arena-relative offset to the next catalog chunk (`0` when `next_len` is `0`).
    pub next_offset: u32,
    /// Reserved byte length of the next catalog chunk (`0` = none).
    pub next_len: u32,
}

impl<K: CatalogKind> View for Catalog<K> {
    type V = CatalogView<K::Row>;

    open spec fn view(&self) -> CatalogView<K::Row> {
        CatalogView {
            rows: self.rows@,
            capacity: self.capacity,
            next_offset: self.next_offset,
            next_len: self.next_len,
        }
    }
}

/// The six little-endian words of a catalog header.
pub open spec fn header_bytes(
    magic: u32,
    version: u32,
    count: u32,
    capacity: u32,
    next_offset: u32,
    next_len: u32,
) -> Seq<u8> {
    le32(magic) + le32(version) + le32(count) + le32(capacity) + le32(next_offset) + le32(
        next_len,
    )
}

/// Concatenated encodings of `rows`, in order.
pub open spec fn rows_bytes<R: CatalogRow>(rows: Seq<R>) -> Seq<u8>
    decreases rows.len(),
{
    if rows.len() == 0 {
        Seq::empty()
    } else {
        rows_bytes(rows.drop_last()) + rows.last().spec_encoded()
    }
}

/// Bytes of row slot `i` in a blob whose rows start at `base`.
pub open spec fn row_slot<R: CatalogRow>(s: Seq<u8>, base: int, i: int) -> Seq<u8> {
    s.subrange(base + i * R::spec_row_len(), base + (i + 1) * R::spec_row_len())
}

/// Decoding of the first `n` row slots after `base`: the rows, or the first error met.
pub open spec fn decode_rows<R: CatalogRow>(s: Seq<u8>, base: int, n: nat) -> Result<
    Seq<R>,
    TypeError,
>
    decreases n,
{
    if n == 0 {
        Ok(Seq::empty())
    } else {
        match decode_rows::<R>(s, base, (n - 1) as nat) {
            Err(e) => Err(e),
            Ok(rs) => match R::spec_decode(row_slot::<R>(s, base, n - 1)) {
                Ok(r) => Ok(rs.push(r)),
                Err(e) => Err(e),
            },
        }
    }
}

pub proof fn lemma_mul_mono(a: int, b: int, c: int)
    requires
        0 <= a <= b,
        0 <= c,
    ensures
        a * c <= b * c,
{
    assert(a * c <= b * c) by (nonlinear_arith)
        requires
            0 <= a <= b,
            0 <= c,
    ;
}

pub proof fn lemma_mul_succ(a: int, c: int)
    ensures
        (a + 1) * c == a * c + c,
{
    assert((a + 1) * c == a * c + c) by (nonlinear_arith);
}

/// The encoding of `rows` has one row length per row, and slot `i` holds row `i`.
pub proof fn lemma_rows_bytes<R: CatalogRow>(rows: Seq<R>)
    ensures
        rows_bytes(rows).len() == rows.len() * R::spec_row_len(),
        forall|i: int|
            0 <= i < rows.len() ==> #[trigger] rows_bytes(rows).subrange(
                i * R::spec_row_len(),
                (i + 1) * R::spec_row_len(),
            ) == rows[i].spec_encoded(),
    decreases rows.len(),
{
    let rl = R::spec_row_len() as int;
    if rows.len() > 0 {
        let init = rows.drop_last();
        lemma_rows_bytes(init);
        rows.last().lemma_codec();
        let n = rows.len() - 1;
        lemma_mul_succ(n, rl);
        assert forall|i: int| 0 <= i < rows.len() implies #[trigger] rows_bytes(rows).subrange(
            i * rl,
            (i + 1) * rl,
        ) == rows[i].spec_encoded() by {
            lemma_mul_succ(i, rl);
            if i < n {
                lemma_mul_mono(i + 1, n, rl);
                assert(rows_bytes(rows).subrange(i * rl, (i + 1) * rl) =~= rows_bytes(
                    init,
                ).subrange(i * rl, (i + 1) * rl));
                assert(init[i] == rows[i]);
            } else {
                assert(rows_bytes(rows).subrange(i * rl, (i + 1) * rl) =~= rows.last().spec_encoded());
            }
        }
    }
}

/// Once decoding fails at some slot, decoding more slots fails with the same error.
pub proof fn lemma_decode_rows_err<R: CatalogRow>(s: Seq<u8>, base: int, i: nat, n: nat)
    requires
        i <= n,
        decode_rows::<R>(s, base, i) is Err,
    ensures
        decode_rows::<R>(s, base, n) == decode_rows::<R>(s, base, i),
    decreases n - i,
{
    if i < n {
        lemma_decode_rows_err::<R>(s, base, i, (n - 1) as nat);
    }
}

/// Rows whose slots hold their encodings decode back to themselves.
pub proof fn lemma_decode_encoded_rows<R: CatalogRow>(s: Seq<u8>, base: int, rows: Seq<R>, n: nat)
    requires
        n <= rows.len(),
        forall|i: int| 0 <= i < rows.len() ==> (#[trigger] rows[i]).spec_valid(),
        forall|i: int|
            0 <= i < rows.len() ==> #[trigger] row_slot::<R>(s, base, i) == rows[i].spec_encoded(),
    ensures
        decode_rows::<R>(s, base, n) == Ok::<Seq<R>, TypeError>(rows.take(n as int)),
    decreases n,
{
    if n > 0 {
        lemma_decode_encoded_rows(s, base, rows, (n - 1) as nat);
        rows[n - 1].lemma_codec();
        assert(row_slot::<R>(s, base, n - 1) == rows[n - 1].spec_encoded());
        assert(rows.take(n - 1).push(rows[n - 1]) =~= rows.take(n as int));
    } else {
        assert(rows.take(0) =~= Seq::<R>::empty());
    }
}

/// Decoding `n` row slots gives `n` rows.
pub proof fn lemma_decode_rows_len<R: CatalogRow>(s: Seq<u8>, base: int, n: nat)
    requires
        decode_rows::<R>(s, base, n) is Ok,
    ensures
        decode_rows::<R>(s, base, n)->Ok_0.len() == n,
    decreases n,
{
    if n > 0 {
        lemma_decode_rows_len::<R>(s, base, (n - 1) as nat);
    }
}

/// Decoding `n` row slots gives, as row `i`, what decoding the `i`-th slot of row length
/// after `base` gives.
pub proof fn lemma_decode_rows_at<R: CatalogRow>(s: Seq<u8>, base: int, n: nat)
    requires
        decode_rows::<R>(s, base, n) is Ok,
    ensures
        decode_rows::<R>(s, base, n)->Ok_0.len() == n,
        forall|i: int|
            0 <= i < n ==> R::spec_decode(
                s.subrange(base + i * R::spec_row_len(), base + (i + 1) * R::spec_row_len()),
            ) == Ok::<R, TypeError>(#[trigger] decode_rows::<R>(s, base, n)->Ok_0[i]),
    decreases n,
{
    if n > 0 {
        lemma_decode_rows_at::<R>(s, base, (n - 1) as nat);
        let rs = decode_rows::<R>(s, base, (n - 1) as nat)->Ok_0;
        let all = decode_rows::<R>(s, base, n)->Ok_0;
        assert forall|i: int| 0 <= i < n implies R::spec_decode(
            s.subrange(base + i * R::spec_row_len(), base + (i + 1) * R::spec_row_len()),
        ) == Ok::<R, TypeError>(#[trigger] all[i]) by {
            if i < n - 1 {
                assert(all[i] == rs[i]);
            }
        }
    }
}

/// A catalog read from bytes holds no more rows than slots.
pub proof fn lemma_read_rows_len<K: CatalogKind>(s: Seq<u8>)
    requires
        Catalog::<K>::spec_read(s) is Ok,
    ensures
        Catalog::<K>::spec_read(s)->Ok_0.rows.len() <= Catalog::<K>::spec_read(s)->Ok_0.capacity,
{
    lemma_decode_rows_len::<K::Row>(s, CATALOG_HEADER_LEN as int, get32(s, 8) as nat);
}

impl<K: CatalogKind> Catalog<K> {
    /// Bytes of valid wire data for `count` rows (header + rows).
    pub open spec fn spec_used_len(count: int) -> int {
        CATALOG_HEADER_LEN + count * K::Row::spec_row_len()
    }

    /// Bytes reserved for `capacity` row slots (header + all slots).
    pub open spec fn spec_reserved_len(capacity: int) -> int {
        CATALOG_HEADER_LEN + capacity * K::Row::spec_row_len()
    }

    /// The bytes `write_into` writes for the catalog `v`.
    pub open spec fn spec_wire(v: CatalogView<K::Row>) -> Seq<u8> {
        header_bytes(K::MAGIC, K::VERSION, v.rows.len() as u32, v.capacity, v.next_offset, v.next_len)
            + rows_bytes(v.rows)
    }

    /// What `read_from` gives on the bytes `s`.
    pub open spec fn spec_read(s: Seq<u8>) -> Result<CatalogView<K::Row>, TypeError> {
        if s.len() < CATALOG_HEADER_LEN {
            Err(TypeError::OutOfBounds)
        } else if get32(s, 0) != K::MAGIC || get32(s, 4) != K::VERSION {
            Err(TypeError::BadHeader)
        } else if get32(s, 8) > get32(s, 12) {
            Err(TypeError::BadHeader)
        } else if s.len() < Self::spec_reserved_len(get32(s, 12) as int) {
            Err(TypeError::OutOfBounds)
        } else {
            match decode_rows::<K::Row>(s, CATALOG_HEADER_LEN as int, get32(s, 8) as nat) {
                Err(e) => Err(e),
                Ok(rows) => Ok(
                    CatalogView {
                        rows,
                        capacity: get32(s, 12),
                        next_offset: get32(s, 16),
                        next_len: get32(s, 20),
                    },
                ),
            }
        }
    }

    /// Every row's layout guard is intact and the rows fit the capacity.
    pub open spec fn spec_well_formed(v: CatalogView<K::Row>) -> bool {
        &&& v.rows.len() <= v.capacity
        &&& forall|i: int| 0 <= i < v.rows.len() ==> (#[trigger] v.rows[i]).spec_valid()
    }

    pub fn with_capacity(capacity: u32) -> (r: Self)
        ensures
            r@.rows == Seq::<K::Row>::empty(),
            r@.capacity == capacity,
            r@.next_offset == 0,
            r@.next_len == 0,
    {
        Self { rows: Vec::new(), capacity, next_offset: 0, next_len: 0 }
    }

    /// A catalog holding `rows`, with as many slots as rows (capped at `u32::MAX`).
    pub fn new(rows: Vec<K::Row>) -> (r: Self)
        ensures
            r@.rows == rows@,
            r@.capacity == (if rows@.len() <= u32::MAX {
                rows@.len() as u32
            } else {
                u32::MAX
            }),
            r@.next_offset == 0,
            r@.next_len == 0,
    {
        let capacity: u32 = if rows.len() <= u32::MAX as usize {
            rows.len() as u32
        } else {
            u32::MAX
        };
        Self { rows, capacity, next_offset: 0, next_len: 0 }
    }

    pub fn from_rows_capacity_next(
        rows: Vec<K::Row>,
        capacity: u32,
        next_offset: u32,
        next_len: u32,
    ) -> (r: Self)
        ensures
            r@ == (CatalogView { rows: rows@, capacity, next_offset, next_len }),
    {
        Self { rows, capacity, next_offset, next_len }
    }

    pub fn count(&self) -> (r: usize)
        ensures
            r == self.rows@.len(),
    {
        self.rows.len()
    }

    pub fn slots_remaining(&self) -> (r: usize)
        requires
            self.rows@.len() <= self.capacity,
        ensures
            r == self.capacity - self.rows@.len(),
    {
        self.capacity as usize - self.rows.len()
    }

    pub fn has_next(&self) -> (r: bool)
        ensures
            r == (self.next_len > 0),
    {
        self.next_len > 0
    }

    pub fn encoded_len_used(count: usize) -> (r: usize)
        requires
            Self::spec_used_len(count as int) <= usize::MAX,
        ensures
            r == Self::spec_used_len(count as int),
    {
        CATALOG_HEADER_LEN + count * K::Row::row_len()
    }

    pub fn encoded_len_reserved(capacity: usize) -> (r: usize)
        requires
            Self::spec_reserved_len(capacity as int) <= usize::MAX,
        ensures
            r == Self::spec_reserved_len(capacity as int),
    {
        CATALOG_HEADER_LEN + capacity * K::Row::row_len()
    }

    pub proof fn lemma_reserved_fits(capacity: u32)
        ensures
            Self::spec_used_len(capacity as int) <= Self::spec_reserved_len(capacity as int),
            Self::spec_reserved_len(capacity as int) <= CATALOG_HEADER_LEN + 64 * u32::MAX,
    {
        let rl = K::Row::spec_row_len() as int;
        K::Row::lemma_row_len_bound();
        assert(capacity as int * rl <= u32::MAX as int * 64) by (nonlinear_arith)
            requires
                0 <= capacity <= u32::MAX,
                0 <= rl <= 64,
        ;
    }

    pub fn used_len(&self) -> (r: usize)
        requires
            Self::spec_used_len(self.rows@.len() as int) <= usize::MAX,
        ensures
            r == Self::spec_used_len(self.rows@.len() as int),
    {
        Self::encoded_len_used(self.rows.len())
    }

    pub fn allocated_len(&self) -> (r: usize)
        requires
            Self::spec_reserved_len(self.capacity as int) <= usize::MAX,
        ensures
            r == Self::spec_reserved_len(self.capacity as int),
    {
        Self::encoded_len_reserved(self.capacity as usize)
    }

    /// Reserved length for `capacity` slots, or `None` when it exceeds `usize::MAX`.
    pub fn reserved_len_checked(capacity: u32) -> (r: Option<usize>)
        ensures
            Self::spec_reserved_len(capacity as int) <= usize::MAX ==> r == Some(
                Self::spec_reserved_len(capacity as int) as usize,
            ),
            Self::spec_reserved_len(capacity as int) > usize::MAX ==> r is None,
    {
        let rl = K::Row::row_len();
        match (capacity as usize).checked_mul(rl) {
            None => {
                proof {
                    assert(capacity * rl <= Self::spec_reserved_len(capacity as int));
                }
                None
            },
            Some(m) => CATALOG_HEADER_LEN.checked_add(m),
        }
    }

    /// Add a row in the next free slot; its index is the number of rows before it.
    pub fn append(&mut self, row: K::Row) -> (r: Result<u32, TypeError>)
        ensures
            old(self)@.rows.len() >= old(self)@.capacity ==> r == Err::<u32, TypeError>(
                TypeError::CapacityExceeded,
            ) && final(self)@ == old(self)@,
            old(self)@.rows.len() < old(self)@.capacity && !row.spec_valid() ==> r == Err::<
                u32,
                TypeError,
            >(TypeError::BadHeader) && final(self)@ == old(self)@,
            old(self)@.rows.len() < old(self)@.capacity && row.spec_valid() ==> r == Ok::<
                u32,
                TypeError,
            >(old(self)@.rows.len() as u32) && final(self)@ == (CatalogView {
                rows: old(self)@.rows.push(row),
                ..old(self)@
            }),
    {
        if self.rows.len() >= self.capacity as usize {
            return Err(TypeError::CapacityExceeded);
        }
        row.validate()?;
        let index = self.rows.len() as u32;
        self.rows.push(row);
        Ok(index)
    }

    /// The wire bytes of this catalog (header and used rows).
    pub fn wire_bytes(&self) -> (r: Vec<u8>)
        ensures
            r@ == Self::spec_wire(self@),
    {
        proof {
            lemma_le_roundtrip();
        }
        let mut out: Vec<u8> = Vec::new();
        push_u32(&mut out, K::MAGIC);
        push_u32(&mut out, K::VERSION);
        push_u32(&mut out, self.rows.len() as u32);
        push_u32(&mut out, self.capacity);
        push_u32(&mut out, self.next_offset);
        push_u32(&mut out, self.next_len);
        let ghost hdr = out@;
        assert(hdr =~= header_bytes(
            K::MAGIC,
            K::VERSION,
            self.rows@.len() as u32,
            self.capacity,
            self.next_offset,
            self.next_len,
        ));
        let n = self.rows.len();
        let mut i: usize = 0;
        assert(self.rows@.take(0) =~= Seq::<K::Row>::empty());
        while i < n
            invariant
                n == self.rows@.len(),
                0 <= i <= n,
                out@ == hdr + rows_bytes(self.rows@.take(i as int)),
            decreases n - i,
        {
            let mut b = self.rows[i].row_bytes();
            out.append(&mut b);
            proof {
                let t = self.rows@.take(i as int + 1);
                assert(t.drop_last() =~= self.rows@.take(i as int));
                assert(t.last() == self.rows@[i as int]);
            }
            i = i + 1;
        }
        assert(self.rows@.take(n as int) =~= self.rows@);
        out
    }

    /// Write the header and used rows into the front of `dst` (at least `allocated_len` long).
    pub fn write_into(&self, dst: &mut [u8]) -> (r: Result<(), TypeError>)
        ensures
            self@.rows.len() > self.capacity ==> r == Err::<(), TypeError>(
                TypeError::CapacityExceeded,
            ) && final(dst)@ == old(dst)@,
            self@.rows.len() <= self.capacity && old(dst)@.len() < Self::spec_reserved_len(
                self.capacity as int,
            ) ==> r == Err::<(), TypeError>(TypeError::OutOfBounds) && final(dst)@ == old(dst)@,
            self@.rows.len() <= self.capacity && old(dst)@.len() >= Self::spec_reserved_len(
                self.capacity as int,
            ) ==> r is Ok && final(dst)@ == splice(old(dst)@, 0, Self::spec_wire(self@)),
    {
        let dlen = dst.len();
        if self.rows.len() > self.capacity as usize {
            return Err(TypeError::CapacityExceeded);
        }
        let need = match Self::reserved_len_checked(self.capacity) {
            Some(n) => n,
            None => return Err(TypeError::OutOfBounds),
        };
        if dst.len() < need {
            return Err(TypeError::OutOfBounds);
        }
        let b = self.wire_bytes();
        proof {
            lemma_le_roundtrip();
            lemma_rows_bytes(self.rows@);
            Self::lemma_reserved_fits(self.capacity);
            lemma_mul_mono(self.rows@.len() as int, self.capacity as int, K::Row::spec_row_len() as int);
        }
        put_bytes(dst, 0, b.as_slice());
        Ok(())
    }

    /// Parse a catalog chunk: header checks, then the used rows in order.
    pub fn read_from(src: &[u8]) -> (r: Result<Self, TypeError>)
        ensures
            match Self::spec_read(src@) {
                Ok(v) => r matches Ok(c) && c@ == v,
                Err(e) => r matches Err(e2) && e2 == e,
            },
    {
        if src.len() < CATALOG_HEADER_LEN {
            return Err(TypeError::OutOfBounds);
        }
        let magic = get_u32(src, 0);
        let version = get_u32(src, 4);
        if magic != K::MAGIC || version != K::VERSION {
            return Err(TypeError::BadHeader);
        }
        let count = get_u32(src, 8) as usize;
        let capacity = get_u32(src, 12);
        let next_offset = get_u32(src, 16);
        let next_len = get_u32(src, 20);
        if count > capacity as usize {
            return Err(TypeError::BadHeader);
        }
        let row_len = K::Row::row_len();
        let need = match Self::reserved_len_checked(capacity) {
            Some(n) => n,
            None => return Err(TypeError::OutOfBounds),
        };
        if src.len() < need {
            return Err(TypeError::OutOfBounds);
        }
        let mut rows: Vec<K::Row> = Vec::new();
        let mut off = CATALOG_HEADER_LEN;
        let mut i: usize = 0;
        while i < count
            invariant
                count == get32(src@, 8),
                capacity == get32(src@, 12),
                src@.len() >= CATALOG_HEADER_LEN,
                get32(src@, 0) == K::MAGIC,
                get32(src@, 4) == K::VERSION,
                src@.len() >= Self::spec_reserved_len(capacity as int),
                count <= capacity,
                row_len == K::Row::spec_row_len(),
                src@.len() >= CATALOG_HEADER_LEN + capacity * row_len,
                src@.len() <= usize::MAX,
                0 <= i <= count,
                off == CATALOG_HEADER_LEN + i * row_len,
                decode_rows::<K::Row>(src@, CATALOG_HEADER_LEN as int, i as nat) == Ok::<Seq<K::Row>, TypeError>(rows@),
            decreases count - i,
        {
            proof {
                lemma_mul_succ(i as int, row_len as int);
                lemma_mul_mono(i as int + 1, capacity as int, row_len as int);
            }
            let slot = vstd::slice::slice_subrange(src, off, off + row_len);
            assert(slot@ == row_slot::<K::Row>(src@, CATALOG_HEADER_LEN as int, i as int));
            let row = match K::Row::decode_from(slot) {
                Ok(row) => row,
                Err(e) => {
                    proof {
                        assert(decode_rows::<K::Row>(src@, CATALOG_HEADER_LEN as int, i as nat + 1) == Err::<Seq<K::Row>, TypeError>(e));
                        lemma_decode_rows_err::<K::Row>(src@, CATALOG_HEADER_LEN as int, i as nat + 1, count as nat);
                    }
                    return Err(e);
                },
            };
            rows.push(row);
            off = off + row_len;
            i = i + 1;
        }
        Ok(Self { rows, capacity, next_offset, next_len })
    }

    /// The wire layout of a catalog: magic at 0, version at 4, row count at 8, capacity at
    /// 12, next-chunk offset at 16 and length at 20, each little-endian, then row `i` in the
    /// `i`-th slot of row length after the twenty-four header bytes.
    pub proof fn lemma_wire_layout(v: CatalogView<K::Row>)
        ensures
            Self::spec_wire(v).len() == CATALOG_HEADER_LEN + v.rows.len() * K::Row::spec_row_len(),
            Self::spec_wire(v).subrange(0, 4) == le32(K::MAGIC),
            Self::spec_wire(v).subrange(4, 8) == le32(K::VERSION),
            Self::spec_wire(v).subrange(8, 12) == le32(v.rows.len() as u32),
            Self::spec_wire(v).subrange(12, 16) == le32(v.capacity),
            Self::spec_wire(v).subrange(16, 20) == le32(v.next_offset),
            Self::spec_wire(v).subrange(20, 24) == le32(v.next_len),
            forall|i: int|
                0 <= i < v.rows.len() ==> Self::spec_wire(v).subrange(
                    CATALOG_HEADER_LEN + i * K::Row::spec_row_len(),
                    CATALOG_HEADER_LEN + (i + 1) * K::Row::spec_row_len(),
                ) == (#[trigger] v.rows[i]).spec_encoded(),
    {
        lemma_le_roundtrip();
        let w = Self::spec_wire(v);
        let rl = K::Row::spec_row_len() as int;
        let h = CATALOG_HEADER_LEN as int;
        lemma_rows_bytes(v.rows);
        assert(w.subrange(0, 4) =~= le32(K::MAGIC));
        assert(w.subrange(4, 8) =~= le32(K::VERSION));
        assert(w.subrange(8, 12) =~= le32(v.rows.len() as u32));
        assert(w.subrange(12, 16) =~= le32(v.capacity));
        assert(w.subrange(16, 20) =~= le32(v.next_offset));
        assert(w.subrange(20, 24) =~= le32(v.next_len));
        assert forall|i: int| 0 <= i < v.rows.len() implies w.subrange(h + i * rl, h + (i + 1) * rl)
            == (#[trigger] v.rows[i]).spec_encoded() by {
            lemma_mul_succ(i, rl);
            lemma_mul_mono(i + 1, v.rows.len() as int, rl);
            assert(w.subrange(h + i * rl, h + (i + 1) * rl) =~= rows_bytes(v.rows).subrange(
                i * rl,
                (i + 1) * rl,
            ));
        }
    }

    /// Reading a catalog takes the row count from bytes 8..12, the capacity from 12..16 and
    /// the next chunk's offset and length from 16..20 and 20..24, after checking the magic at
    /// 0..4 and the version at 4..8.
    pub proof fn lemma_read_offsets(s: Seq<u8>)
        requires
            Self::spec_read(s) is Ok,
        ensures
            s.subrange(0, 4) == le32(K::MAGIC),
            s.subrange(4, 8) == le32(K::VERSION),
            s.subrange(8, 12) == le32(Self::spec_read(s)->Ok_0.rows.len() as u32),
            s.subrange(12, 16) == le32(Self::spec_read(s)->Ok_0.capacity),
            s.subrange(16, 20) == le32(Self::spec_read(s)->Ok_0.next_offset),
            s.subrange(20, 24) == le32(Self::spec_read(s)->Ok_0.next_len),
            forall|i: int|
                0 <= i < Self::spec_read(s)->Ok_0.rows.len() ==> K::Row::spec_decode(
                    s.subrange(
                        CATALOG_HEADER_LEN + i * K::Row::spec_row_len(),
                        CATALOG_HEADER_LEN + (i + 1) * K::Row::spec_row_len(),
                    ),
                ) == Ok::<K::Row, TypeError>(#[trigger] Self::spec_read(s)->Ok_0.rows[i]),
    {
        lemma_le_roundtrip();
        lemma_decode_rows_at::<K::Row>(s, CATALOG_HEADER_LEN as int, get32(s, 8) as nat);
    }

    /// Reading back what `write_into` wrote gives the same catalog.
    pub proof fn lemma_write_read(v: CatalogView<K::Row>, dst: Seq<u8>)
        requires
            Self::spec_well_formed(v),
            dst.len() >= Self::spec_reserved_len(v.capacity as int),
        ensures
            Self::spec_read(splice(dst, 0, Self::spec_wire(v))) == Ok::<
                CatalogView<K::Row>,
                TypeError,
            >(v),
    {
        lemma_le_roundtrip();
        let w = Self::spec_wire(v);
        let s = splice(dst, 0, w);
        let rl = K::Row::spec_row_len() as int;
        lemma_rows_bytes(v.rows);
        Self::lemma_reserved_fits(v.capacity);
        lemma_mul_mono(v.rows.len() as int, v.capacity as int, rl);
        let hdr = header_bytes(K::MAGIC, K::VERSION, v.rows.len() as u32, v.capacity, v.next_offset, v.next_len);
        assert(s.subrange(0, 4) =~= le32(K::MAGIC));
        assert(s.subrange(4, 8) =~= le32(K::VERSION));
        assert(s.subrange(8, 12) =~= le32(v.rows.len() as u32));
        assert(s.subrange(12, 16) =~= le32(v.capacity));
        assert(s.subrange(16, 20) =~= le32(v.next_offset));
        assert(s.subrange(20, 24) =~= le32(v.next_len));
        assert forall|i: int| 0 <= i < v.rows.len() implies #[trigger] row_slot::<K::Row>(
            s,
            CATALOG_HEADER_LEN as int,
            i,
        ) == v.rows[i].spec_encoded() by {
            lemma_mul_succ(i, rl);
            lemma_mul_mono(i + 1, v.rows.len() as int, rl);
            assert(row_slot::<K::Row>(s, CATALOG_HEADER_LEN as int, i) =~= rows_bytes(
                v.rows,
            ).subrange(i * rl, (i + 1) * rl));
        }
        lemma_decode_encoded_rows::<K::Row>(s, CATALOG_HEADER_LEN as int, v.rows, v.rows.len());
        assert(v.rows.take(v.rows.len() as int) =~= v.rows);
    }
}

} // verus!
