//! Runtime type descriptors and their fixed-size wire rows (`MTYP`).

use crate::codec::{
    get16, get32, get_u16, get_u32, le16, le32, lemma_le_roundtrip, push_u16, push_u32,
    put_bytes, splice,
};
use crate::types::TypeError;
use crate::tags;
use vstd::prelude::*;

verus! {

broadcast use vstd::array::axiom_array_ext_equal;

pub const META_TYPE_MAGIC: u32 = tags::MTYP;
pub const META_TYPE_VERSION: u16 = 1;
pub const META_TYPE_HEADER_LEN: usize = 32;

/// Compile-time identity of a type that can live in a slab.
pub trait HasMetaType {
    const TYPE_NAME: &'static str;
    const TYPE_UUID: [u8; 16];
    const TYPE_SCHEMA_VERSION: u32;
}

/// Whether two type UUIDs are equal, byte for byte.
pub fn uuid_eq(a: &[u8; 16], b: &[u8; 16]) -> (r: bool)
    ensures
        r == (*a == *b),
{
    let mut i: usize = 0;
    while i < 16
        invariant
            0 <= i <= 16,
            forall|k: int| 0 <= k < i ==> a[k] == b[k],
        decreases 16 - i,
    {
        if a[i] != b[i] {
            return false;
        }
        i = i + 1;
    }
    assert(*a =~= *b);
    true
}

/// Runtime descriptor for a registered type.
#[derive(Clone, Debug, PartialEq, Eq)]
pub struct MetaType {
    pub name: String,
    pub type_uuid: [u8; 16],
    pub type_schema_version: u32,
    pub flags: u32,
}

/// The wire row that describes a type: its UUID, schema version and flags.
pub open spec fn spec_row_for(type_uuid: [u8; 16], type_schema_version: u32, flags: u32) -> MetaTypeHeader {
    MetaTypeHeader {
        magic: META_TYPE_MAGIC,
        version: META_TYPE_VERSION,
        _reserved: 0,
        type_uuid,
        type_schema_version,
        flags,
    }
}

impl MetaType {
    /// Descriptor of the type `T`, with no flags set.
    pub fn from_type<T: HasMetaType>() -> (r: Self)
        ensures
            r.name@ == T::TYPE_NAME@,
            r.type_uuid == T::TYPE_UUID,
            r.type_schema_version == T::TYPE_SCHEMA_VERSION,
            r.flags == 0,
    {
        Self::new(T::TYPE_NAME, T::TYPE_UUID, T::TYPE_SCHEMA_VERSION)
    }

    pub fn new(name: &str, type_uuid: [u8; 16], type_schema_version: u32) -> (r: Self)
        ensures
            r.name@ == name@,
            r.type_uuid == type_uuid,
            r.type_schema_version == type_schema_version,
            r.flags == 0,
    {
        Self { name: name.to_owned(), type_uuid, type_schema_version, flags: 0 }
    }

    /// The valid wire row of this descriptor (the name is not stored on the wire).
    pub fn to_header(&self) -> (r: MetaTypeHeader)
        ensures
            r == spec_row_for(self.type_uuid, self.type_schema_version, self.flags),
            r.spec_valid(),
    {
        MetaTypeHeader {
            magic: META_TYPE_MAGIC,
            version: META_TYPE_VERSION,
            _reserved: 0,
            type_uuid: self.type_uuid,
            type_schema_version: self.type_schema_version,
            flags: self.flags,
        }
    }
}

/// On-segment fixed-size header row in the metatype catalog.
#[derive(Copy, Clone, Debug, PartialEq, Eq)]
pub struct MetaTypeHeader {
    pub magic: u32,
    pub version: u16,
    pub _reserved: u16,
    pub type_uuid: [u8; 16],
    pub type_schema_version: u32,
    pub flags: u32,
}

impl MetaTypeHeader {
    /// The thirty-two bytes written for this row.
    pub open spec fn spec_encoded(self) -> Seq<u8> {
        le32(self.magic) + le16(self.version) + le16(self._reserved) + self.type_uuid@ + le32(
            self.type_schema_version,
        ) + le32(self.flags)
    }

    /// The row whose fields are read from the first thirty-two bytes of `s`.
    pub open spec fn spec_parse(s: Seq<u8>) -> MetaTypeHeader {
        MetaTypeHeader {
            magic: get32(s, 0),
            version: get16(s, 4),
            _reserved: get16(s, 6),
            type_uuid: [
                s[8],
                s[9],
                s[10],
                s[11],
                s[12],
                s[13],
                s[14],
                s[15],
                s[16],
                s[17],
                s[18],
                s[19],
                s[20],
                s[21],
                s[22],
                s[23],
            ],
            type_schema_version: get32(s, 24),
            flags: get32(s, 28),
        }
    }

    pub open spec fn spec_valid(self) -> bool {
        self.magic == META_TYPE_MAGIC && self.version == META_TYPE_VERSION
    }

    /// What decoding `s` gives.
    pub open spec fn spec_decode(s: Seq<u8>) -> Result<MetaTypeHeader, TypeError> {
        if s.len() < META_TYPE_HEADER_LEN {
            Err(TypeError::OutOfBounds)
        } else if Self::spec_parse(s).spec_valid() {
            Ok(Self::spec_parse(s))
        } else {
            Err(TypeError::BadHeader)
        }
    }

    pub fn validate(&self) -> (r: Result<(), TypeError>)
        ensures
            r == (if self.spec_valid() {
                Ok(())
            } else {
                Err(TypeError::BadHeader)
            }),
    {
        if self.magic != META_TYPE_MAGIC || self.version != META_TYPE_VERSION {
            return Err(TypeError::BadHeader);
        }
        Ok(())
    }

    /// The encoded bytes of this row.
    pub fn to_bytes(&self) -> (r: Vec<u8>)
        ensures
            r@ == self.spec_encoded(),
            r@.len() == META_TYPE_HEADER_LEN,
            r@.subrange(0, 4) == le32(self.magic),
            r@.subrange(4, 6) == le16(self.version),
            r@.subrange(6, 8) == le16(self._reserved),
            r@.subrange(8, 24) == self.type_uuid@,
            r@.subrange(24, 28) == le32(self.type_schema_version),
            r@.subrange(28, 32) == le32(self.flags),
    {
        proof {
            lemma_le_roundtrip();
            self.lemma_layout();
        }
        let mut out: Vec<u8> = Vec::new();
        push_u32(&mut out, self.magic);
        push_u16(&mut out, self.version);
        push_u16(&mut out, self._reserved);
        let mut i: usize = 0;
        while i < 16
            invariant
                0 <= i <= 16,
                out@ == le32(self.magic) + le16(self.version) + le16(self._reserved)
                    + self.type_uuid@.take(i as int),
            decreases 16 - i,
        {
            out.push(self.type_uuid[i]);
            i = i + 1;
            assert(out@ =~= le32(self.magic) + le16(self.version) + le16(self._reserved)
                + self.type_uuid@.take(i as int));
        }
        assert(self.type_uuid@.take(16) =~= self.type_uuid@);
        push_u32(&mut out, self.type_schema_version);
        push_u32(&mut out, self.flags);
        assert(out@ =~= self.spec_encoded());
        out
    }

    /// Write the row into the first thirty-two bytes of `dst`.
    pub fn encode_into(self, dst: &mut [u8]) -> (r: Result<(), TypeError>)
        ensures
            old(dst)@.len() >= META_TYPE_HEADER_LEN ==> r is Ok && final(dst)@ == splice(
                old(dst)@,
                0,
                self.spec_encoded(),
            ),
            old(dst)@.len() < META_TYPE_HEADER_LEN ==> r == Err::<(), TypeError>(
                TypeError::OutOfBounds,
            ) && final(dst)@ == old(dst)@,
    {
        if dst.len() < META_TYPE_HEADER_LEN {
            return Err(TypeError::OutOfBounds);
        }
        let b = self.to_bytes();
        put_bytes(dst, 0, b.as_slice());
        Ok(())
    }

    /// Read and validate a row from the first thirty-two bytes of `src`.
    pub fn decode_from(src: &[u8]) -> (r: Result<Self, TypeError>)
        ensures
            r == Self::spec_decode(src@),
            r matches Ok(h) ==> le32(h.magic) == src@.subrange(0, 4)
                && le16(h.version) == src@.subrange(4, 6)
                && le16(h._reserved) == src@.subrange(6, 8)
                && h.type_uuid@ == src@.subrange(8, 24)
                && le32(h.type_schema_version) == src@.subrange(24, 28)
                && le32(h.flags) == src@.subrange(28, 32),
    {
        proof {
            if src@.len() >= META_TYPE_HEADER_LEN {
                Self::lemma_read_offsets(src@);
            }
        }
        if src.len() < META_TYPE_HEADER_LEN {
            return Err(TypeError::OutOfBounds);
        }
        let uuid: [u8; 16] = [
            src[8],
            src[9],
            src[10],
            src[11],
            src[12],
            src[13],
            src[14],
            src[15],
            src[16],
            src[17],
            src[18],
            src[19],
            src[20],
            src[21],
            src[22],
            src[23],
        ];
        let h = Self {
            magic: get_u32(src, 0),
            version: get_u16(src, 4),
            _reserved: get_u16(src, 6),
            type_uuid: uuid,
            type_schema_version: get_u32(src, 24),
            flags: get_u32(src, 28),
        };
        assert(h.type_uuid =~= Self::spec_parse(src@).type_uuid);
        h.validate()?;
        Ok(h)
    }

    /// Decoding the encoding of a row gives the row back, and accepts it exactly when
    /// the row is valid.
    pub proof fn lemma_roundtrip(self)
        ensures
            Self::spec_parse(self.spec_encoded()) == self,
            self.spec_encoded().len() == META_TYPE_HEADER_LEN,
            Self::spec_decode(self.spec_encoded()) == (if self.spec_valid() {
                Ok::<MetaTypeHeader, TypeError>(self)
            } else {
                Err(TypeError::BadHeader)
            }),
    {
        lemma_le_roundtrip();
        let e = self.spec_encoded();
        assert(e.subrange(0, 4) =~= le32(self.magic));
        assert(e.subrange(4, 6) =~= le16(self.version));
        assert(e.subrange(6, 8) =~= le16(self._reserved));
        assert(e.subrange(24, 28) =~= le32(self.type_schema_version));
        assert(e.subrange(28, 32) =~= le32(self.flags));
        assert(Self::spec_parse(e).type_uuid =~= self.type_uuid);
    }

    /// The layout: each field at its fixed offset, little-endian.
    pub proof fn lemma_layout(self)
        ensures
            self.spec_encoded().len() == META_TYPE_HEADER_LEN,
            self.spec_encoded().subrange(0, 4) == le32(self.magic),
            self.spec_encoded().subrange(4, 6) == le16(self.version),
            self.spec_encoded().subrange(6, 8) == le16(self._reserved),
            self.spec_encoded().subrange(8, 24) == self.type_uuid@,
            self.spec_encoded().subrange(24, 28) == le32(self.type_schema_version),
            self.spec_encoded().subrange(28, 32) == le32(self.flags),
    {
        lemma_le_roundtrip();
        let e = self.spec_encoded();
        assert(e.subrange(0, 4) =~= le32(self.magic));
        assert(e.subrange(4, 6) =~= le16(self.version));
        assert(e.subrange(6, 8) =~= le16(self._reserved));
        assert(e.subrange(8, 24) =~= self.type_uuid@);
        assert(e.subrange(24, 28) =~= le32(self.type_schema_version));
        assert(e.subrange(28, 32) =~= le32(self.flags));
    }

    /// Reading takes each field from its fixed offset (the layout of `lemma_layout`).
    pub proof fn lemma_read_offsets(s: Seq<u8>)
        requires
            s.len() >= META_TYPE_HEADER_LEN,
        ensures
            le32(Self::spec_parse(s).magic) == s.subrange(0, 4),
            le16(Self::spec_parse(s).version) == s.subrange(4, 6),
            le16(Self::spec_parse(s)._reserved) == s.subrange(6, 8),
            Self::spec_parse(s).type_uuid@ == s.subrange(8, 24),
            le32(Self::spec_parse(s).type_schema_version) == s.subrange(24, 28),
            le32(Self::spec_parse(s).flags) == s.subrange(28, 32),
    {
        lemma_le_roundtrip();
        assert(Self::spec_parse(s).type_uuid@ =~= s.subrange(8, 24));
    }
}

} // verus!
