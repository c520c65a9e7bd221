//! On-wire header of a variable-length UTF-8 string blob (`STRS`).

use crate::codec::{get16, get32, get_u16, get_u32, le16, le32, lemma_le_roundtrip, push_u16, push_u32, put_bytes, splice};
use crate::types::TypeError;
use crate::tags;
use vstd::prelude::*;

verus! {

pub const STRING_MAGIC: u32 = tags::STRS;
pub const STRING_VERSION: u16 = 1;
pub const STRING_HEADER_LEN: usize = 16;

/// On-wire header for a variable-length UTF-8 string.
#[derive(Copy, Clone, Debug, PartialEq, Eq, Structural)]
pub struct StringHeader {
    pub magic: u32,
    pub version: u16,
    pub _reserved: u16,
    pub len: u32,
    pub capacity: u32,
}

impl StringHeader {
    /// The sixteen bytes written for this header.
    pub open spec fn spec_encoded(self) -> Seq<u8> {
        le32(self.magic) + le16(self.version) + le16(self._reserved) + le32(self.len) + le32(
            self.capacity,
        )
    }

    /// The header whose fields are read from the first sixteen bytes of `s`.
    pub open spec fn spec_parse(s: Seq<u8>) -> StringHeader {
        StringHeader {
            magic: get32(s, 0),
            version: get16(s, 4),
            _reserved: get16(s, 6),
            len: get32(s, 8),
            capacity: get32(s, 12),
        }
    }

    pub open spec fn spec_valid(self) -> bool {
        self.magic == STRING_MAGIC && self.version == STRING_VERSION && self.len <= self.capacity
    }

    /// What decoding `s` gives.
    pub open spec fn spec_decode(s: Seq<u8>) -> Result<StringHeader, TypeError> {
        if s.len() < STRING_HEADER_LEN {
            Err(TypeError::OutOfBounds)
        } else if Self::spec_parse(s).spec_valid() {
            Ok(Self::spec_parse(s))
        } else {
            Err(TypeError::BadHeader)
        }
    }

    pub fn new(len: u32, capacity: u32) -> (r: Self)
        ensures
            r == (StringHeader {
                magic: STRING_MAGIC,
                version: STRING_VERSION,
                _reserved: 0,
                len,
                capacity,
            }),
    {
        Self { magic: STRING_MAGIC, version: STRING_VERSION, _reserved: 0, len, capacity }
    }

    /// Byte range of the payload of a string whose header starts at `base_offset`.
    pub fn payload_range(&self, base_offset: usize) -> (r: Result<
        std::ops::Range<usize>,
        TypeError,
    >)
        ensures
            base_offset + STRING_HEADER_LEN + self.capacity <= usize::MAX ==> (r matches Ok(rg)
                && rg.start == base_offset + STRING_HEADER_LEN && rg.end == base_offset
                + STRING_HEADER_LEN + self.capacity),
            base_offset + STRING_HEADER_LEN + self.capacity > usize::MAX ==> r == Err::<
                std::ops::Range<usize>,
                TypeError,
            >(TypeError::OutOfBounds),
    {
        let start = match base_offset.checked_add(STRING_HEADER_LEN) {
            Some(s) => s,
            None => return Err(TypeError::OutOfBounds),
        };
        let end = match start.checked_add(self.capacity as usize) {
            Some(e) => e,
            None => return Err(TypeError::OutOfBounds),
        };
        Ok(start..end)
    }

    pub fn validate(&self) -> (r: Result<(), TypeError>)
        ensures
            r == (if self.spec_valid() {
                Ok(())
            } else {
                Err(TypeError::BadHeader)
            }),
    {
        if self.magic != STRING_MAGIC || self.version != STRING_VERSION || self.len
            > self.capacity {
            return Err(TypeError::BadHeader);
        }
        Ok(())
    }

    /// The encoded bytes of this header.
    pub fn to_bytes(&self) -> (r: Vec<u8>)
        ensures
            r@ == self.spec_encoded(),
            r@.len() == STRING_HEADER_LEN,
            r@.subrange(0, 4) == le32(self.magic),
            r@.subrange(4, 6) == le16(self.version),
            r@.subrange(6, 8) == le16(self._reserved),
            r@.subrange(8, 12) == le32(self.len),
            r@.subrange(12, 16) == le32(self.capacity),
    {
        proof {
            lemma_le_roundtrip();
            self.lemma_layout();
        }
        let mut out: Vec<u8> = Vec::new();
        push_u32(&mut out, self.magic);
        push_u16(&mut out, self.version);
        push_u16(&mut out, self._reserved);
        push_u32(&mut out, self.len);
        push_u32(&mut out, self.capacity);
        assert(out@ =~= self.spec_encoded());
        out
    }

    /// Write the header into the first sixteen bytes of `dst`.
    pub fn encode_into(self, dst: &mut [u8]) -> (r: Result<(), TypeError>)
        ensures
            old(dst)@.len() >= STRING_HEADER_LEN ==> r is Ok && final(dst)@ == splice(
                old(dst)@,
                0,
                self.spec_encoded(),
            ),
            old(dst)@.len() < STRING_HEADER_LEN ==> r == Err::<(), TypeError>(
                TypeError::OutOfBounds,
            ) && final(dst)@ == old(dst)@,
    {
        if dst.len() < STRING_HEADER_LEN {
            return Err(TypeError::OutOfBounds);
        }
        let b = self.to_bytes();
        put_bytes(dst, 0, b.as_slice());
        Ok(())
    }

    /// Read and validate a header from the first sixteen bytes of `src`.
    pub fn decode_from(src: &[u8]) -> (r: Result<Self, TypeError>)
        ensures
            r == Self::spec_decode(src@),
            r matches Ok(h) ==> le32(h.magic) == src@.subrange(0, 4)
                && le16(h.version) == src@.subrange(4, 6)
                && le16(h._reserved) == src@.subrange(6, 8)
                && le32(h.len) == src@.subrange(8, 12)
                && le32(h.capacity) == src@.subrange(12, 16),
    {
        proof {
            if src@.len() >= STRING_HEADER_LEN {
                Self::lemma_read_offsets(src@);
            }
        }
        if src.len() < STRING_HEADER_LEN {
            return Err(TypeError::OutOfBounds);
        }
        let h = Self {
            magic: get_u32(src, 0),
            version: get_u16(src, 4),
            _reserved: get_u16(src, 6),
            len: get_u32(src, 8),
            capacity: get_u32(src, 12),
        };
        h.validate()?;
        Ok(h)
    }

    /// Decoding the encoding of a header gives the header back, and accepts it exactly
    /// when the header is valid.
    pub proof fn lemma_roundtrip(self)
        ensures
            Self::spec_parse(self.spec_encoded()) == self,
            self.spec_encoded().len() == STRING_HEADER_LEN,
            Self::spec_decode(self.spec_encoded()) == (if self.spec_valid() {
                Ok::<StringHeader, TypeError>(self)
            } else {
                Err(TypeError::BadHeader)
            }),
    {
        lemma_le_roundtrip();
        let e = self.spec_encoded();
        assert(e.subrange(0, 4) =~= le32(self.magic));
        assert(e.subrange(4, 6) =~= le16(self.version));
        assert(e.subrange(6, 8) =~= le16(self._reserved));
        assert(e.subrange(8, 12) =~= le32(self.len));
        assert(e.subrange(12, 16) =~= le32(self.capacity));
    }

    /// Encoding the header read from sixteen bytes gives those bytes back.
    pub proof fn lemma_parse_encode(s: Seq<u8>)
        requires
            s.len() == STRING_HEADER_LEN,
        ensures
            Self::spec_parse(s).spec_encoded() == s,
    {
        lemma_le_roundtrip();
        assert(s.subrange(0, 4).len() == 4);
        assert(s.subrange(4, 6).len() == 2);
        assert(s.subrange(6, 8).len() == 2);
        assert(s.subrange(8, 12).len() == 4);
        assert(s.subrange(12, 16).len() == 4);
        assert(Self::spec_parse(s).spec_encoded() =~= s);
    }

    /// The layout: each field at its fixed offset, little-endian.
    pub proof fn lemma_layout(self)
        ensures
            self.spec_encoded().len() == STRING_HEADER_LEN,
            self.spec_encoded().subrange(0, 4) == le32(self.magic),
            self.spec_encoded().subrange(4, 6) == le16(self.version),
            self.spec_encoded().subrange(6, 8) == le16(self._reserved),
            self.spec_encoded().subrange(8, 12) == le32(self.len),
            self.spec_encoded().subrange(12, 16) == le32(self.capacity),
    {
        lemma_le_roundtrip();
        let e = self.spec_encoded();
        assert(e.subrange(0, 4) =~= le32(self.magic));
        assert(e.subrange(4, 6) =~= le16(self.version));
        assert(e.subrange(6, 8) =~= le16(self._reserved));
        assert(e.subrange(8, 12) =~= le32(self.len));
        assert(e.subrange(12, 16) =~= le32(self.capacity));
    }

    /// Reading takes each field from its fixed offset (the layout of `lemma_layout`).
    pub proof fn lemma_read_offsets(s: Seq<u8>)
        requires
            s.len() >= STRING_HEADER_LEN,
        ensures
            le32(Self::spec_parse(s).magic) == s.subrange(0, 4),
            le16(Self::spec_parse(s).version) == s.subrange(4, 6),
            le16(Self::spec_parse(s)._reserved) == s.subrange(6, 8),
            le32(Self::spec_parse(s).len) == s.subrange(8, 12),
            le32(Self::spec_parse(s).capacity) == s.subrange(12, 16),
    {
        lemma_le_roundtrip();
    }
}

} // verus!
