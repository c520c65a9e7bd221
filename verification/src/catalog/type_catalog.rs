//! Single-chunk type catalog (`CTLG`, version 4): a 16-byte header and `MetaTypeHeader` rows.

use crate::catalog::wire::{
    decode_rows, lemma_decode_encoded_rows, lemma_decode_rows_err, lemma_mul_mono, lemma_mul_succ,
    lemma_rows_bytes, row_slot, rows_bytes, CatalogRow,
};
use crate::codec::{get32, get_u32, le32, lemma_le_roundtrip, push_u32, put_bytes, splice};
use crate::tags;
use crate::types::{HasMetaType, MetaType, MetaTypeHeader, TypeError, META_TYPE_HEADER_LEN};
use crate::catalog::metatype::spec_row_of;
use vstd::prelude::*;

verus! {

pub const TYPE_CATALOG_MAGIC: u32 = tags::CTLG;
pub const TYPE_CATALOG_VERSION: u32 = 4;
pub const TYPE_CATALOG_HEADER_LEN: usize = 16;

/// Default number of row slots reserved in a type catalog.
pub const DEFAULT_TYPE_CATALOG_CAPACITY: u32 = 64;

/// Row index of the catalog's own row (always registered first on mount).
pub const TYPE_CATALOG_SELF_INDEX: u32 = 0;

/// On-segment catalog of [`MetaTypeHeader`] rows; the row index is the `type_index`.
#[derive(Clone, Debug, PartialEq, Eq)]
pub struct TypeCatalog {
    pub types: Vec<MetaTypeHeader>,
    pub capacity: u32,
}

impl HasMetaType for TypeCatalog {
    const TYPE_NAME: &'static str = "cruspy.memory.TypeCatalog";
    const TYPE_UUID: [u8; 16] = [
        0xc4,
        0xa8,
        0xe9,
        0x10,
        0x2f,
        0x3b,
        0x4d,
        0x61,
        0x9c,
        0x07,
        0x1e,
        0x5b,
        0x29,
        0x38,
        0x4d,
        0x01,
    ];
    const TYPE_SCHEMA_VERSION: u32 = 1;
}

impl Default for TypeCatalog {
    fn default() -> (r: Self)
        ensures
            r.types@.len() == 0,
            r.capacity == DEFAULT_TYPE_CATALOG_CAPACITY,
    {
        Self::with_capacity(DEFAULT_TYPE_CATALOG_CAPACITY)
    }
}

impl TypeCatalog {
    pub open spec fn spec_reserved_len(capacity: int) -> int {
        TYPE_CATALOG_HEADER_LEN + capacity * META_TYPE_HEADER_LEN
    }

    /// The bytes `write_into` writes.
    pub open spec fn spec_wire(types: Seq<MetaTypeHeader>, capacity: u32) -> Seq<u8> {
        le32(TYPE_CATALOG_MAGIC) + le32(TYPE_CATALOG_VERSION) + le32(types.len() as u32) + le32(
            capacity,
        ) + rows_bytes(types)
    }

    /// What `read_from` gives on the bytes `s`: the rows and the capacity.
    pub open spec fn spec_read(s: Seq<u8>) -> Result<(Seq<MetaTypeHeader>, u32), TypeError> {
        if s.len() < TYPE_CATALOG_HEADER_LEN {
            Err(TypeError::OutOfBounds)
        } else if get32(s, 0) != TYPE_CATALOG_MAGIC || get32(s, 4) != TYPE_CATALOG_VERSION {
            Err(TypeError::BadHeader)
        } else if get32(s, 8) > get32(s, 12) {
            Err(TypeError::BadHeader)
        } else if s.len() < Self::spec_reserved_len(get32(s, 12) as int) {
            Err(TypeError::OutOfBounds)
        } else {
            match decode_rows::<MetaTypeHeader>(s, TYPE_CATALOG_HEADER_LEN as int, get32(s, 8) as nat) {
                Err(e) => Err(e),
                Ok(rows) => Ok((rows, get32(s, 12))),
            }
        }
    }

    /// A catalog holding `types`, with as many slots as rows (capped at `u32::MAX`).
    pub fn new(types: Vec<MetaTypeHeader>) -> (r: Self)
        ensures
            r.types@ == types@,
            r.capacity == (if types@.len() <= u32::MAX {
                types@.len() as u32
            } else {
                u32::MAX
            }),
    {
        let capacity: u32 = if types.len() <= u32::MAX as usize {
            types.len() as u32
        } else {
            u32::MAX
        };
        Self { types, capacity }
    }

    pub fn with_capacity(capacity: u32) -> (r: Self)
        ensures
            r.types@.len() == 0,
            r.capacity == capacity,
    {
        Self { types: Vec::new(), capacity }
    }

    pub fn empty() -> (r: Self)
        ensures
            r.types@.len() == 0,
            r.capacity == DEFAULT_TYPE_CATALOG_CAPACITY,
    {
        Self::default()
    }

    /// Reserved slots plus this catalog registered at [`TYPE_CATALOG_SELF_INDEX`].
    pub fn for_mount(capacity: u32) -> (r: Result<Self, TypeError>)
        ensures
            capacity == 0 ==> r == Err::<Self, TypeError>(TypeError::CapacityExceeded),
            capacity > 0 ==> (r matches Ok(c) && c.types@ == seq![spec_row_of::<TypeCatalog>()]
                && c.capacity == capacity),
    {
        let mut catalog = Self::with_capacity(capacity);
        catalog.register_self_type()?;
        Ok(catalog)
    }

    /// Register [`TypeCatalog`] as a row.
    pub fn register_self_type(&mut self) -> (r: Result<u32, TypeError>)
        ensures
            old(self).types@.len() >= old(self).capacity ==> r == Err::<u32, TypeError>(
                TypeError::CapacityExceeded,
            ) && *final(self) == *old(self),
            old(self).types@.len() < old(self).capacity ==> r == Ok::<u32, TypeError>(
                old(self).types@.len() as u32,
            ) && final(self).types@ == old(self).types@.push(spec_row_of::<TypeCatalog>())
                && final(self).capacity == old(self).capacity,
    {
        let row = MetaType::from_type::<Self>().to_header();
        self.append_type(row)
    }

    pub fn type_count(&self) -> (r: usize)
        ensures
            r == self.types@.len(),
    {
        self.types.len()
    }

    pub fn slots_remaining(&self) -> (r: usize)
        requires
            self.types@.len() <= self.capacity,
        ensures
            r == self.capacity - self.types@.len(),
    {
        self.capacity as usize - self.types.len()
    }

    pub fn encoded_len_used(type_count: usize) -> (r: usize)
        requires
            TYPE_CATALOG_HEADER_LEN + type_count * META_TYPE_HEADER_LEN <= usize::MAX,
        ensures
            r == TYPE_CATALOG_HEADER_LEN + type_count * META_TYPE_HEADER_LEN,
    {
        TYPE_CATALOG_HEADER_LEN + type_count * META_TYPE_HEADER_LEN
    }

    pub fn encoded_len_reserved(capacity: usize) -> (r: usize)
        requires
            Self::spec_reserved_len(capacity as int) <= usize::MAX,
        ensures
            r == Self::spec_reserved_len(capacity as int),
    {
        TYPE_CATALOG_HEADER_LEN + capacity * META_TYPE_HEADER_LEN
    }

    /// Bytes of valid wire data (header + registered rows).
    pub fn used_len(&self) -> (r: usize)
        requires
            TYPE_CATALOG_HEADER_LEN + self.types@.len() * META_TYPE_HEADER_LEN <= usize::MAX,
        ensures
            r == TYPE_CATALOG_HEADER_LEN + self.types@.len() * META_TYPE_HEADER_LEN,
    {
        Self::encoded_len_used(self.types.len())
    }

    /// Bytes reserved for the header and all row slots.
    pub fn allocated_len(&self) -> (r: usize)
        requires
            Self::spec_reserved_len(self.capacity as int) <= usize::MAX,
        ensures
            r == Self::spec_reserved_len(self.capacity as int),
    {
        Self::encoded_len_reserved(self.capacity as usize)
    }

    fn reserved_len_checked(capacity: u32) -> (r: Option<usize>)
        ensures
            Self::spec_reserved_len(capacity as int) <= usize::MAX ==> r == Some(
                Self::spec_reserved_len(capacity as int) as usize,
            ),
            Self::spec_reserved_len(capacity as int) > usize::MAX ==> r is None,
    {
        match (capacity as usize).checked_mul(META_TYPE_HEADER_LEN) {
            None => None,
            Some(m) => TYPE_CATALOG_HEADER_LEN.checked_add(m),
        }
    }

    pub fn append_type(&mut self, row: MetaTypeHeader) -> (r: Result<u32, TypeError>)
        ensures
            old(self).types@.len() >= old(self).capacity ==> r == Err::<u32, TypeError>(
                TypeError::CapacityExceeded,
            ) && *final(self) == *old(self),
            old(self).types@.len() < old(self).capacity && !row.spec_valid() ==> r == Err::<
                u32,
                TypeError,
            >(TypeError::BadHeader) && *final(self) == *old(self),
            old(self).types@.len() < old(self).capacity && row.spec_valid() ==> r == Ok::<
                u32,
                TypeError,
            >(old(self).types@.len() as u32) && final(self).types@ == old(self).types@.push(row)
                && final(self).capacity == old(self).capacity,
    {
        if self.types.len() >= self.capacity as usize {
            return Err(TypeError::CapacityExceeded);
        }
        row.validate()?;
        let index = self.types.len() as u32;
        self.types.push(row);
        Ok(index)
    }

    fn wire_bytes(&self) -> (r: Vec<u8>)
        ensures
            r@ == Self::spec_wire(self.types@, self.capacity),
    {
        proof {
            lemma_le_roundtrip();
        }
        let mut out: Vec<u8> = Vec::new();
        push_u32(&mut out, TYPE_CATALOG_MAGIC);
        push_u32(&mut out, TYPE_CATALOG_VERSION);
        push_u32(&mut out, self.types.len() as u32);
        push_u32(&mut out, self.capacity);
        let ghost hdr = out@;
        let n = self.types.len();
        let mut i: usize = 0;
        assert(self.types@.take(0) =~= Seq::<MetaTypeHeader>::empty());
        while i < n
            invariant
                n == self.types@.len(),
                0 <= i <= n,
                out@ == hdr + rows_bytes(self.types@.take(i as int)),
            decreases n - i,
        {
            let mut b = self.types[i].to_bytes();
            out.append(&mut b);
            proof {
                let t = self.types@.take(i as int + 1);
                assert(t.drop_last() =~= self.types@.take(i as int));
                assert(t.last() == self.types@[i as int]);
            }
            i = i + 1;
        }
        assert(self.types@.take(n as int) =~= self.types@);
        out
    }

    /// Write the header and registered rows into the front of `dst`.
    pub fn write_into(&self, dst: &mut [u8]) -> (r: Result<(), TypeError>)
        ensures
            self.types@.len() > self.capacity ==> r == Err::<(), TypeError>(
                TypeError::CapacityExceeded,
            ) && final(dst)@ == old(dst)@,
            self.types@.len() <= self.capacity && old(dst)@.len() < Self::spec_reserved_len(
                self.capacity as int,
            ) ==> r == Err::<(), TypeError>(TypeError::OutOfBounds) && final(dst)@ == old(dst)@,
            self.types@.len() <= self.capacity && old(dst)@.len() >= Self::spec_reserved_len(
                self.capacity as int,
            ) ==> r is Ok && final(dst)@ == splice(
                old(dst)@,
                0,
                Self::spec_wire(self.types@, self.capacity),
            ),
    {
        let dlen = dst.len();
        if self.types.len() > self.capacity as usize {
            return Err(TypeError::CapacityExceeded);
        }
        let need = match Self::reserved_len_checked(self.capacity) {
            Some(n) => n,
            None => return Err(TypeError::OutOfBounds),
        };
        if dst.len() < need {
            return Err(TypeError::OutOfBounds);
        }
        let b = self.wire_bytes();
        proof {
            lemma_le_roundtrip();
            lemma_rows_bytes(self.types@);
            lemma_mul_mono(self.types@.len() as int, self.capacity as int, META_TYPE_HEADER_LEN as int);
        }
        put_bytes(dst, 0, b.as_slice());
        Ok(())
    }

    /// Parse a type catalog: header checks, then the registered rows in order.
    pub fn read_from(src: &[u8]) -> (r: Result<Self, TypeError>)
        ensures
            match Self::spec_read(src@) {
                Ok((rows, cap)) => r matches Ok(c) && c.types@ == rows && c.capacity == cap,
                Err(e) => r matches Err(e2) && e2 == e,
            },
    {
        if src.len() < TYPE_CATALOG_HEADER_LEN {
            return Err(TypeError::OutOfBounds);
        }
        let magic = get_u32(src, 0);
        let version = get_u32(src, 4);
        let count = get_u32(src, 8) as usize;
        let capacity = get_u32(src, 12);
        if magic != TYPE_CATALOG_MAGIC || version != TYPE_CATALOG_VERSION {
            return Err(TypeError::BadHeader);
        }
        if count > capacity as usize {
            return Err(TypeError::BadHeader);
        }
        let need = match Self::reserved_len_checked(capacity) {
            Some(n) => n,
            None => return Err(TypeError::OutOfBounds),
        };
        if src.len() < need {
            return Err(TypeError::OutOfBounds);
        }
        let row_len = META_TYPE_HEADER_LEN;
        let mut types: Vec<MetaTypeHeader> = Vec::new();
        let mut off = TYPE_CATALOG_HEADER_LEN;
        let mut i: usize = 0;
        while i < count
            invariant
                count == get32(src@, 8),
                capacity == get32(src@, 12),
                src@.len() >= TYPE_CATALOG_HEADER_LEN,
                get32(src@, 0) == TYPE_CATALOG_MAGIC,
                get32(src@, 4) == TYPE_CATALOG_VERSION,
                src@.len() >= Self::spec_reserved_len(capacity as int),
                count <= capacity,
                row_len == META_TYPE_HEADER_LEN,
                src@.len() <= usize::MAX,
                0 <= i <= count,
                off == TYPE_CATALOG_HEADER_LEN + i * row_len,
                decode_rows::<MetaTypeHeader>(src@, TYPE_CATALOG_HEADER_LEN as int, i as nat)
                    == Ok::<Seq<MetaTypeHeader>, TypeError>(types@),
            decreases count - i,
        {
            proof {
                lemma_mul_succ(i as int, row_len as int);
                lemma_mul_mono(i as int + 1, capacity as int, row_len as int);
            }
            let slot = vstd::slice::slice_subrange(src, off, off + row_len);
            assert(slot@ == row_slot::<MetaTypeHeader>(src@, TYPE_CATALOG_HEADER_LEN as int, i as int));
            let row = match MetaTypeHeader::decode_from(slot) {
                Ok(row) => row,
                Err(e) => {
                    proof {
                        assert(decode_rows::<MetaTypeHeader>(src@, TYPE_CATALOG_HEADER_LEN as int, i as nat + 1) == Err::<Seq<MetaTypeHeader>, TypeError>(e));
                        lemma_decode_rows_err::<MetaTypeHeader>(
                            src@,
                            TYPE_CATALOG_HEADER_LEN as int,
                            i as nat + 1,
                            count as nat,
                        );
                    }
                    return Err(e);
                },
            };
            types.push(row);
            off = off + row_len;
            i = i + 1;
        }
        Ok(Self { types, capacity })
    }

    /// Reading back what `write_into` wrote gives the same rows and capacity.
    pub proof fn lemma_write_read(types: Seq<MetaTypeHeader>, capacity: u32, dst: Seq<u8>)
        requires
            types.len() <= capacity,
            forall|i: int| 0 <= i < types.len() ==> (#[trigger] types[i]).spec_valid(),
            dst.len() >= Self::spec_reserved_len(capacity as int),
        ensures
            Self::spec_read(splice(dst, 0, Self::spec_wire(types, capacity))) == Ok::<
                (Seq<MetaTypeHeader>, u32),
                TypeError,
            >((types, capacity)),
    {
        lemma_le_roundtrip();
        let s = splice(dst, 0, Self::spec_wire(types, capacity));
        let rl = META_TYPE_HEADER_LEN as int;
        lemma_rows_bytes(types);
        lemma_mul_mono(types.len() as int, capacity as int, rl);
        assert(s.subrange(0, 4) =~= le32(TYPE_CATALOG_MAGIC));
        assert(s.subrange(4, 8) =~= le32(TYPE_CATALOG_VERSION));
        assert(s.subrange(8, 12) =~= le32(types.len() as u32));
        assert(s.subrange(12, 16) =~= le32(capacity));
        assert forall|i: int| 0 <= i < types.len() implies #[trigger] row_slot::<MetaTypeHeader>(
            s,
            TYPE_CATALOG_HEADER_LEN as int,
            i,
        ) == types[i].spec_encoded() by {
            lemma_mul_succ(i, rl);
            lemma_mul_mono(i + 1, types.len() as int, rl);
            assert(row_slot::<MetaTypeHeader>(s, TYPE_CATALOG_HEADER_LEN as int, i) =~= rows_bytes(
                types,
            ).subrange(i * rl, (i + 1) * rl));
        }
        lemma_decode_encoded_rows::<MetaTypeHeader>(s, TYPE_CATALOG_HEADER_LEN as int, types, types.len());
        assert(types.take(types.len() as int) =~= types);
    }
}

} // verus!
