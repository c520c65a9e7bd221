//! Wire header for one row in the object-instance catalog (`COBJ`).

use crate::codec::{
    get16, get32, get_u16, get_u32, le16, le32, lemma_le_roundtrip, push_u16, push_u32,
    put_bytes, splice,
};
use crate::types::TypeError;
use crate::tags;
use vstd::prelude::*;

verus! {

/// Record layout guard (`OBJH`).
pub const OBJECT_HEADER_MAGIC: u32 = tags::OBJH;
pub const OBJECT_HEADER_VERSION: u16 = 1;
pub const OBJECT_HEADER_LEN: usize = 32;

/// Bytes of an object row that carry fields; the rest of the row is zero padding.
pub const OBJECT_HEADER_FIELDS_LEN: usize = 24;

/// One registered object instance (points at its heap payload via `data_offset`).
#[derive(Copy, Clone, Debug, PartialEq, Eq, Structural)]
pub struct ObjectHeader {
    pub magic: u32,
    pub version: u16,
    pub _reserved: u16,
    /// Index into the metatype catalog.
    pub type_index: u32,
    /// Stable index within this segment's object table.
    pub object_index: u32,
    /// Arena-relative offset to the instance body.
    pub data_offset: u32,
    pub flags: u32,
}

impl ObjectHeader {
    /// The twenty-four field bytes of this row.
    pub open spec fn spec_fields(self) -> Seq<u8> {
        le32(self.magic) + le16(self.version) + le16(self._reserved) + le32(self.type_index)
            + le32(self.object_index) + le32(self.data_offset) + le32(self.flags)
    }

    /// The thirty-two bytes written for this row: the fields, then zero padding.
    pub open spec fn spec_encoded(self) -> Seq<u8> {
        self.spec_fields() + Seq::new(8, |i: int| 0u8)
    }

    /// The row whose fields are read from the first twenty-four bytes of `s`.
    pub open spec fn spec_parse(s: Seq<u8>) -> ObjectHeader {
        ObjectHeader {
            magic: get32(s, 0),
            version: get16(s, 4),
            _reserved: get16(s, 6),
            type_index: get32(s, 8),
            object_index: get32(s, 12),
            data_offset: get32(s, 16),
            flags: get32(s, 20),
        }
    }

    pub open spec fn spec_valid(self) -> bool {
        self.magic == OBJECT_HEADER_MAGIC && self.version == OBJECT_HEADER_VERSION
    }

    /// What decoding `s` gives.
    pub open spec fn spec_decode(s: Seq<u8>) -> Result<ObjectHeader, TypeError> {
        if s.len() < OBJECT_HEADER_LEN {
            Err(TypeError::OutOfBounds)
        } else if Self::spec_parse(s).spec_valid() {
            Ok(Self::spec_parse(s))
        } else {
            Err(TypeError::BadHeader)
        }
    }

    pub fn new(type_index: u32, object_index: u32, data_offset: u32) -> (r: Self)
        ensures
            r == (ObjectHeader {
                magic: OBJECT_HEADER_MAGIC,
                version: OBJECT_HEADER_VERSION,
                _reserved: 0,
                type_index,
                object_index,
                data_offset,
                flags: 0,
            }),
            r.spec_valid(),
    {
        Self {
            magic: OBJECT_HEADER_MAGIC,
            version: OBJECT_HEADER_VERSION,
            _reserved: 0,
            type_index,
            object_index,
            data_offset,
            flags: 0,
        }
    }

    pub fn validate(&self) -> (r: Result<(), TypeError>)
        ensures
            r == (if self.spec_valid() {
                Ok(())
            } else {
                Err(TypeError::BadHeader)
            }),
    {
        if self.magic != OBJECT_HEADER_MAGIC || self.version != OBJECT_HEADER_VERSION {
            return Err(TypeError::BadHeader);
        }
        Ok(())
    }

    /// The encoded bytes of this row.
    pub fn to_bytes(&self) -> (r: Vec<u8>)
        ensures
            r@ == self.spec_encoded(),
            r@.len() == OBJECT_HEADER_LEN,
            r@.subrange(0, 4) == le32(self.magic),
            r@.subrange(4, 6) == le16(self.version),
            r@.subrange(6, 8) == le16(self._reserved),
            r@.subrange(8, 12) == le32(self.type_index),
            r@.subrange(12, 16) == le32(self.object_index),
            r@.subrange(16, 20) == le32(self.data_offset),
            r@.subrange(20, 24) == le32(self.flags),
            forall|i: int| 24 <= i < 32 ==> r@[i] == 0,
    {
        proof {
            self.lemma_layout();
        }
        proof {
            lemma_le_roundtrip();
        }
        let mut out: Vec<u8> = Vec::new();
        push_u32(&mut out, self.magic);
        push_u16(&mut out, self.version);
        push_u16(&mut out, self._reserved);
        push_u32(&mut out, self.type_index);
        push_u32(&mut out, self.object_index);
        push_u32(&mut out, self.data_offset);
        push_u32(&mut out, self.flags);
        let ghost fields = out@;
        assert(fields =~= self.spec_fields());
        let mut i: usize = 0;
        while i < 8
            invariant
                0 <= i <= 8,
                out@ == fields + Seq::new(i as nat, |k: int| 0u8),
            decreases 8 - i,
        {
            out.push(0u8);
            i = i + 1;
            assert(out@ =~= fields + Seq::new(i as nat, |k: int| 0u8));
        }
        out
    }

    /// Write the row, with its zero padding, into the first thirty-two bytes of `dst`.
    pub fn encode_into(self, dst: &mut [u8]) -> (r: Result<(), TypeError>)
        ensures
            old(dst)@.len() >= OBJECT_HEADER_LEN ==> r is Ok && final(dst)@ == splice(
                old(dst)@,
                0,
                self.spec_encoded(),
            ),
            old(dst)@.len() < OBJECT_HEADER_LEN ==> r == Err::<(), TypeError>(
                TypeError::OutOfBounds,
            ) && final(dst)@ == old(dst)@,
    {
        if dst.len() < OBJECT_HEADER_LEN {
            return Err(TypeError::OutOfBounds);
        }
        let b = self.to_bytes();
        put_bytes(dst, 0, b.as_slice());
        Ok(())
    }

    /// Read and validate a row from the first thirty-two bytes of `src`.
    pub fn decode_from(src: &[u8]) -> (r: Result<Self, TypeError>)
        ensures
            r == Self::spec_decode(src@),
            r matches Ok(h) ==> le32(h.magic) == src@.subrange(0, 4) && le16(h.version)
                == src@.subrange(4, 6) && le16(h._reserved) == src@.subrange(6, 8) && le32(
                h.type_index,
            ) == src@.subrange(8, 12) && le32(h.object_index) == src@.subrange(12, 16) && le32(
                h.data_offset,
            ) == src@.subrange(16, 20) && le32(h.flags) == src@.subrange(20, 24),
    {
        proof {
            if src@.len() >= OBJECT_HEADER_LEN {
                Self::lemma_read_offsets(src@);
            }
        }
        if src.len() < OBJECT_HEADER_LEN {
            return Err(TypeError::OutOfBounds);
        }
        let h = Self {
            magic: get_u32(src, 0),
            version: get_u16(src, 4),
            _reserved: get_u16(src, 6),
            type_index: get_u32(src, 8),
            object_index: get_u32(src, 12),
            data_offset: get_u32(src, 16),
            flags: get_u32(src, 20),
        };
        h.validate()?;
        Ok(h)
    }

    /// Decoding the encoding of a row gives the row back, and accepts it exactly when
    /// the row is valid.
    pub proof fn lemma_roundtrip(self)
        ensures
            Self::spec_parse(self.spec_encoded()) == self,
            self.spec_encoded().len() == OBJECT_HEADER_LEN,
            Self::spec_decode(self.spec_encoded()) == (if self.spec_valid() {
                Ok::<ObjectHeader, TypeError>(self)
            } else {
                Err(TypeError::BadHeader)
            }),
    {
        lemma_le_roundtrip();
        let e = self.spec_encoded();
        assert(e.subrange(0, 4) =~= le32(self.magic));
        assert(e.subrange(4, 6) =~= le16(self.version));
        assert(e.subrange(6, 8) =~= le16(self._reserved));
        assert(e.subrange(8, 12) =~= le32(self.type_index));
        assert(e.subrange(12, 16) =~= le32(self.object_index));
        assert(e.subrange(16, 20) =~= le32(self.data_offset));
        assert(e.subrange(20, 24) =~= le32(self.flags));
    }

    /// The row layout: magic at 0, version at 4, reserved at 6, type index at 8, object
    /// index at 12, data offset at 16 and flags at 20, each little-endian, then eight zero
    /// bytes.
    pub proof fn lemma_layout(self)
        ensures
            self.spec_encoded().len() == OBJECT_HEADER_LEN,
            self.spec_encoded().subrange(0, 4) == le32(self.magic),
            self.spec_encoded().subrange(4, 6) == le16(self.version),
            self.spec_encoded().subrange(6, 8) == le16(self._reserved),
            self.spec_encoded().subrange(8, 12) == le32(self.type_index),
            self.spec_encoded().subrange(12, 16) == le32(self.object_index),
            self.spec_encoded().subrange(16, 20) == le32(self.data_offset),
            self.spec_encoded().subrange(20, 24) == le32(self.flags),
            forall|i: int| 24 <= i < 32 ==> self.spec_encoded()[i] == 0,
    {
        lemma_le_roundtrip();
        let e = self.spec_encoded();
        assert(e.subrange(0, 4) =~= le32(self.magic));
        assert(e.subrange(4, 6) =~= le16(self.version));
        assert(e.subrange(6, 8) =~= le16(self._reserved));
        assert(e.subrange(8, 12) =~= le32(self.type_index));
        assert(e.subrange(12, 16) =~= le32(self.object_index));
        assert(e.subrange(16, 20) =~= le32(self.data_offset));
        assert(e.subrange(20, 24) =~= le32(self.flags));
    }

    /// Reading a row takes each field from its fixed offset: magic at 0, version at 4,
    /// reserved at 6, type index at 8, object index at 12, data offset at 16, flags at 20.
    pub proof fn lemma_read_offsets(s: Seq<u8>)
        requires
            s.len() >= OBJECT_HEADER_LEN,
        ensures
            le32(Self::spec_parse(s).magic) == s.subrange(0, 4),
            le16(Self::spec_parse(s).version) == s.subrange(4, 6),
            le16(Self::spec_parse(s)._reserved) == s.subrange(6, 8),
            le32(Self::spec_parse(s).type_index) == s.subrange(8, 12),
            le32(Self::spec_parse(s).object_index) == s.subrange(12, 16),
            le32(Self::spec_parse(s).data_offset) == s.subrange(16, 20),
            le32(Self::spec_parse(s).flags) == s.subrange(20, 24),
    {
        lemma_le_roundtrip();
    }
}

} // verus!
