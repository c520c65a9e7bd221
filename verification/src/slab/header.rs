//! Fixed 64-byte prefix at the start of every slab mapping in a segment.

use crate::codec::{
    get16, get32, get_u16, get_u32, le16, le32, lemma_le_roundtrip, push_u16, push_u32,
    put_bytes, splice,
};
use crate::tags;
use vstd::prelude::*;

verus! {

broadcast use vstd::array::axiom_array_ext_equal;

/// Slab envelope tag (`CRUS`).
pub const MAGIC: u32 = tags::CRUS;
pub const VERSION: u32 = 4;

/// Bytes reserved at the start of each slab before its arena.
pub const HEADER_LEN: usize = 512;

/// Bytes the header fields occupy (the rest of `HEADER_LEN` is reserved).
pub const HEADER_SIZE: usize = 64;

pub const SLAB_ROLE_PRIMARY: u32 = 0;
pub const SLAB_ROLE_HEAP_EXT: u32 = 1;

/// Arena claimed and, for the primary slab, both catalogs pinned.
pub const FLAG_MOUNTED: u32 = 1;

/// Per-slab prefix: arena bounds, segment identity and catalog locations in the arena.
#[derive(Copy, Clone, Debug, PartialEq, Eq)]
pub struct Header {
    pub magic: u32,
    pub version: u32,
    pub header_len: u32,
    pub offset: u32,
    pub len: u32,
    pub segment_uuid: [u8; 16],
    pub slab_role: u32,
    pub slab_index: u16,
    pub extension_count: u16,
    /// Arena-relative offset of the pinned metatype catalog (`CTLG`).
    pub metatype_catalog_offset: u32,
    /// Reserved byte length of the pinned metatype catalog.
    pub metatype_catalog_len: u32,
    /// Arena-relative offset of the pinned object catalog (`COBJ`).
    pub object_catalog_offset: u32,
    /// Reserved byte length of the pinned object catalog.
    pub object_catalog_len: u32,
    pub flags: u32,
}

impl Header {
    /// The sixty-four bytes of this header, in field order, little-endian.
    pub open spec fn spec_encoded(self) -> Seq<u8> {
        le32(self.magic) + le32(self.version) + le32(self.header_len) + le32(self.offset) + le32(
            self.len,
        ) + self.segment_uuid@ + le32(self.slab_role) + le16(self.slab_index) + le16(
            self.extension_count,
        ) + le32(self.metatype_catalog_offset) + le32(self.metatype_catalog_len) + le32(
            self.object_catalog_offset,
        ) + le32(self.object_catalog_len) + le32(self.flags)
    }

    /// The header whose fields are read from the first sixty-four bytes of `s`.
    pub open spec fn spec_parse(s: Seq<u8>) -> Header {
        Header {
            magic: get32(s, 0),
            version: get32(s, 4),
            header_len: get32(s, 8),
            offset: get32(s, 12),
            len: get32(s, 16),
            segment_uuid: [
                s[20],
                s[21],
                s[22],
                s[23],
                s[24],
                s[25],
                s[26],
                s[27],
                s[28],
                s[29],
                s[30],
                s[31],
                s[32],
                s[33],
                s[34],
                s[35],
            ],
            slab_role: get32(s, 36),
            slab_index: get16(s, 40),
            extension_count: get16(s, 42),
            metatype_catalog_offset: get32(s, 44),
            metatype_catalog_len: get32(s, 48),
            object_catalog_offset: get32(s, 52),
            object_catalog_len: get32(s, 56),
            flags: get32(s, 60),
        }
    }

    pub open spec fn spec_is_primary(self) -> bool {
        self.slab_role == SLAB_ROLE_PRIMARY
    }

    pub open spec fn spec_is_mounted(self) -> bool {
        self.flags & FLAG_MOUNTED != 0
    }

    /// Header of the primary slab: arena right after the header, catalogs as given.
    pub fn new_primary(
        arena_len: u32,
        segment_uuid: [u8; 16],
        metatype_catalog_offset: u32,
        metatype_catalog_len: u32,
        object_catalog_offset: u32,
        object_catalog_len: u32,
        extension_count: u16,
        flags: u32,
    ) -> (r: Self)
        ensures
            r == (Header {
                magic: MAGIC,
                version: VERSION,
                header_len: HEADER_LEN as u32,
                offset: HEADER_LEN as u32,
                len: arena_len,
                segment_uuid,
                slab_role: SLAB_ROLE_PRIMARY,
                slab_index: 0,
                extension_count,
                metatype_catalog_offset,
                metatype_catalog_len,
                object_catalog_offset,
                object_catalog_len,
                flags,
            }),
    {
        let header_len = HEADER_LEN as u32;
        Self {
            magic: MAGIC,
            version: VERSION,
            header_len,
            offset: header_len,
            len: arena_len,
            segment_uuid,
            slab_role: SLAB_ROLE_PRIMARY,
            slab_index: 0,
            extension_count,
            metatype_catalog_offset,
            metatype_catalog_len,
            object_catalog_offset,
            object_catalog_len,
            flags,
        }
    }

    /// Header of heap extension slab `slab_index`: arena only, no catalogs.
    pub fn new_extension(arena_len: u32, segment_uuid: [u8; 16], slab_index: u16, flags: u32) -> (r:
        Self)
        ensures
            r == (Header {
                magic: MAGIC,
                version: VERSION,
                header_len: HEADER_LEN as u32,
                offset: HEADER_LEN as u32,
                len: arena_len,
                segment_uuid,
                slab_role: SLAB_ROLE_HEAP_EXT,
                slab_index,
                extension_count: 0,
                metatype_catalog_offset: 0,
                metatype_catalog_len: 0,
                object_catalog_offset: 0,
                object_catalog_len: 0,
                flags,
            }),
    {
        let header_len = HEADER_LEN as u32;
        Self {
            magic: MAGIC,
            version: VERSION,
            header_len,
            offset: header_len,
            len: arena_len,
            segment_uuid,
            slab_role: SLAB_ROLE_HEAP_EXT,
            slab_index,
            extension_count: 0,
            metatype_catalog_offset: 0,
            metatype_catalog_len: 0,
            object_catalog_offset: 0,
            object_catalog_len: 0,
            flags,
        }
    }

    pub fn is_primary(self) -> (r: bool)
        ensures
            r == self.spec_is_primary(),
    {
        self.slab_role == SLAB_ROLE_PRIMARY
    }

    pub fn is_mounted(self) -> (r: bool)
        ensures
            r == self.spec_is_mounted(),
    {
        self.flags & FLAG_MOUNTED != 0
    }

    /// The encoded bytes of this header.
    pub fn to_bytes(&self) -> (r: Vec<u8>)
        ensures
            r@ == self.spec_encoded(),
            r@.len() == HEADER_SIZE,
            r@.subrange(0, 4) == le32(self.magic),
            r@.subrange(4, 8) == le32(self.version),
            r@.subrange(8, 12) == le32(self.header_len),
            r@.subrange(12, 16) == le32(self.offset),
            r@.subrange(16, 20) == le32(self.len),
            r@.subrange(20, 36) == self.segment_uuid@,
            r@.subrange(36, 40) == le32(self.slab_role),
            r@.subrange(40, 42) == le16(self.slab_index),
            r@.subrange(42, 44) == le16(self.extension_count),
            r@.subrange(44, 48) == le32(self.metatype_catalog_offset),
            r@.subrange(48, 52) == le32(self.metatype_catalog_len),
            r@.subrange(52, 56) == le32(self.object_catalog_offset),
            r@.subrange(56, 60) == le32(self.object_catalog_len),
            r@.subrange(60, 64) == le32(self.flags),
    {
        proof {
            lemma_le_roundtrip();
            self.lemma_layout();
        }
        let mut out: Vec<u8> = Vec::new();
        push_u32(&mut out, self.magic);
        push_u32(&mut out, self.version);
        push_u32(&mut out, self.header_len);
        push_u32(&mut out, self.offset);
        push_u32(&mut out, self.len);
        let ghost pre = out@;
        let mut i: usize = 0;
        while i < 16
            invariant
                0 <= i <= 16,
                out@ == pre + self.segment_uuid@.take(i as int),
            decreases 16 - i,
        {
            out.push(self.segment_uuid[i]);
            i = i + 1;
            assert(out@ =~= pre + self.segment_uuid@.take(i as int));
        }
        assert(self.segment_uuid@.take(16) =~= self.segment_uuid@);
        push_u32(&mut out, self.slab_role);
        push_u16(&mut out, self.slab_index);
        push_u16(&mut out, self.extension_count);
        push_u32(&mut out, self.metatype_catalog_offset);
        push_u32(&mut out, self.metatype_catalog_len);
        push_u32(&mut out, self.object_catalog_offset);
        push_u32(&mut out, self.object_catalog_len);
        push_u32(&mut out, self.flags);
        assert(out@ =~= self.spec_encoded());
        out
    }

    /// Decoding the encoding of a header gives the header back.
    pub proof fn lemma_roundtrip(self)
        ensures
            self.spec_encoded().len() == HEADER_SIZE,
            Self::spec_parse(self.spec_encoded()) == self,
    {
        lemma_le_roundtrip();
        let e = self.spec_encoded();
        assert(e.subrange(0, 4) =~= le32(self.magic));
        assert(e.subrange(4, 8) =~= le32(self.version));
        assert(e.subrange(8, 12) =~= le32(self.header_len));
        assert(e.subrange(12, 16) =~= le32(self.offset));
        assert(e.subrange(16, 20) =~= le32(self.len));
        assert(e.subrange(36, 40) =~= le32(self.slab_role));
        assert(e.subrange(40, 42) =~= le16(self.slab_index));
        assert(e.subrange(42, 44) =~= le16(self.extension_count));
        assert(e.subrange(44, 48) =~= le32(self.metatype_catalog_offset));
        assert(e.subrange(48, 52) =~= le32(self.metatype_catalog_len));
        assert(e.subrange(52, 56) =~= le32(self.object_catalog_offset));
        assert(e.subrange(56, 60) =~= le32(self.object_catalog_len));
        assert(e.subrange(60, 64) =~= le32(self.flags));
        assert(Self::spec_parse(e).segment_uuid =~= self.segment_uuid);
    }

    /// The header layout: magic at 0, version at 4, header length at 8, arena offset at 12,
    /// arena length at 16, segment uuid at 20..36, slab role at 36, slab index at 40,
    /// extension count at 42, metatype catalog offset and length at 44 and 48, object catalog
    /// offset and length at 52 and 56, flags at 60, each little-endian.
    pub proof fn lemma_layout(self)
        ensures
            self.spec_encoded().len() == HEADER_SIZE,
            self.spec_encoded().subrange(0, 4) == le32(self.magic),
            self.spec_encoded().subrange(4, 8) == le32(self.version),
            self.spec_encoded().subrange(8, 12) == le32(self.header_len),
            self.spec_encoded().subrange(12, 16) == le32(self.offset),
            self.spec_encoded().subrange(16, 20) == le32(self.len),
            self.spec_encoded().subrange(20, 36) == self.segment_uuid@,
            self.spec_encoded().subrange(36, 40) == le32(self.slab_role),
            self.spec_encoded().subrange(40, 42) == le16(self.slab_index),
            self.spec_encoded().subrange(42, 44) == le16(self.extension_count),
            self.spec_encoded().subrange(44, 48) == le32(self.metatype_catalog_offset),
            self.spec_encoded().subrange(48, 52) == le32(self.metatype_catalog_len),
            self.spec_encoded().subrange(52, 56) == le32(self.object_catalog_offset),
            self.spec_encoded().subrange(56, 60) == le32(self.object_catalog_len),
            self.spec_encoded().subrange(60, 64) == le32(self.flags),
    {
        lemma_le_roundtrip();
        let e = self.spec_encoded();
        assert(e.subrange(0, 4) =~= le32(self.magic));
        assert(e.subrange(4, 8) =~= le32(self.version));
        assert(e.subrange(8, 12) =~= le32(self.header_len));
        assert(e.subrange(12, 16) =~= le32(self.offset));
        assert(e.subrange(16, 20) =~= le32(self.len));
        assert(e.subrange(20, 36) =~= self.segment_uuid@);
        assert(e.subrange(36, 40) =~= le32(self.slab_role));
        assert(e.subrange(40, 42) =~= le16(self.slab_index));
        assert(e.subrange(42, 44) =~= le16(self.extension_count));
        assert(e.subrange(44, 48) =~= le32(self.metatype_catalog_offset));
        assert(e.subrange(48, 52) =~= le32(self.metatype_catalog_len));
        assert(e.subrange(52, 56) =~= le32(self.object_catalog_offset));
        assert(e.subrange(56, 60) =~= le32(self.object_catalog_len));
        assert(e.subrange(60, 64) =~= le32(self.flags));
    }

    /// Reading a header takes each field from its fixed offset (the layout of
    /// [`Header::lemma_layout`]).
    pub proof fn lemma_read_offsets(s: Seq<u8>)
        requires
            s.len() >= HEADER_SIZE,
        ensures
            le32(Self::spec_parse(s).magic) == s.subrange(0, 4),
            le32(Self::spec_parse(s).version) == s.subrange(4, 8),
            le32(Self::spec_parse(s).header_len) == s.subrange(8, 12),
            le32(Self::spec_parse(s).offset) == s.subrange(12, 16),
            le32(Self::spec_parse(s).len) == s.subrange(16, 20),
            Self::spec_parse(s).segment_uuid@ == s.subrange(20, 36),
            le32(Self::spec_parse(s).slab_role) == s.subrange(36, 40),
            le16(Self::spec_parse(s).slab_index) == s.subrange(40, 42),
            le16(Self::spec_parse(s).extension_count) == s.subrange(42, 44),
            le32(Self::spec_parse(s).metatype_catalog_offset) == s.subrange(44, 48),
            le32(Self::spec_parse(s).metatype_catalog_len) == s.subrange(48, 52),
            le32(Self::spec_parse(s).object_catalog_offset) == s.subrange(52, 56),
            le32(Self::spec_parse(s).object_catalog_len) == s.subrange(56, 60),
            le32(Self::spec_parse(s).flags) == s.subrange(60, 64),
    {
        lemma_le_roundtrip();
        assert(Self::spec_parse(s).segment_uuid@ =~= s.subrange(20, 36));
    }
}

/// What `read_header` gives on `bytes`.
pub open spec fn spec_read_header(bytes: Seq<u8>) -> Option<Header> {
    if bytes.len() < HEADER_SIZE {
        None
    } else {
        Some(Header::spec_parse(bytes))
    }
}

/// Read the header prefix from `bytes`.
pub fn read_header(bytes: &[u8]) -> (r: Option<Header>)
    ensures
        r == spec_read_header(bytes@),
        r is Some <==> bytes@.len() >= HEADER_SIZE,
        r matches Some(h) ==> {
            &&& le32(h.magic) == bytes@.subrange(0, 4)
            &&& le32(h.version) == bytes@.subrange(4, 8)
            &&& le32(h.header_len) == bytes@.subrange(8, 12)
            &&& le32(h.offset) == bytes@.subrange(12, 16)
            &&& le32(h.len) == bytes@.subrange(16, 20)
            &&& h.segment_uuid@ == bytes@.subrange(20, 36)
            &&& le32(h.slab_role) == bytes@.subrange(36, 40)
            &&& le16(h.slab_index) == bytes@.subrange(40, 42)
            &&& le16(h.extension_count) == bytes@.subrange(42, 44)
            &&& le32(h.metatype_catalog_offset) == bytes@.subrange(44, 48)
            &&& le32(h.metatype_catalog_len) == bytes@.subrange(48, 52)
            &&& le32(h.object_catalog_offset) == bytes@.subrange(52, 56)
            &&& le32(h.object_catalog_len) == bytes@.subrange(56, 60)
            &&& le32(h.flags) == bytes@.subrange(60, 64)
        },
{
    proof {
        if bytes@.len() >= HEADER_SIZE {
            Header::lemma_read_offsets(bytes@);
        }
    }
    if bytes.len() < HEADER_SIZE {
        return None;
    }
    let uuid: [u8; 16] = [
        bytes[20],
        bytes[21],
        bytes[22],
        bytes[23],
        bytes[24],
        bytes[25],
        bytes[26],
        bytes[27],
        bytes[28],
        bytes[29],
        bytes[30],
        bytes[31],
        bytes[32],
        bytes[33],
        bytes[34],
        bytes[35],
    ];
    let h = Header {
        magic: get_u32(bytes, 0),
        version: get_u32(bytes, 4),
        header_len: get_u32(bytes, 8),
        offset: get_u32(bytes, 12),
        len: get_u32(bytes, 16),
        segment_uuid: uuid,
        slab_role: get_u32(bytes, 36),
        slab_index: get_u16(bytes, 40),
        extension_count: get_u16(bytes, 42),
        metatype_catalog_offset: get_u32(bytes, 44),
        metatype_catalog_len: get_u32(bytes, 48),
        object_catalog_offset: get_u32(bytes, 52),
        object_catalog_len: get_u32(bytes, 56),
        flags: get_u32(bytes, 60),
    };
    assert(h.segment_uuid =~= Header::spec_parse(bytes@).segment_uuid);
    Some(h)
}

/// Write `header` into the start of `bytes`.
pub fn write_header(bytes: &mut [u8], header: Header)
    requires
        old(bytes)@.len() >= HEADER_SIZE,
    ensures
        final(bytes)@ == splice(old(bytes)@, 0, header.spec_encoded()),
        final(bytes)@.len() == old(bytes)@.len(),
        final(bytes)@.subrange(0, 4) == le32(header.magic),
        final(bytes)@.subrange(4, 8) == le32(header.version),
        final(bytes)@.subrange(8, 12) == le32(header.header_len),
        final(bytes)@.subrange(12, 16) == le32(header.offset),
        final(bytes)@.subrange(16, 20) == le32(header.len),
        final(bytes)@.subrange(20, 36) == header.segment_uuid@,
        final(bytes)@.subrange(36, 40) == le32(header.slab_role),
        final(bytes)@.subrange(40, 42) == le16(header.slab_index),
        final(bytes)@.subrange(42, 44) == le16(header.extension_count),
        final(bytes)@.subrange(44, 48) == le32(header.metatype_catalog_offset),
        final(bytes)@.subrange(48, 52) == le32(header.metatype_catalog_len),
        final(bytes)@.subrange(52, 56) == le32(header.object_catalog_offset),
        final(bytes)@.subrange(56, 60) == le32(header.object_catalog_len),
        final(bytes)@.subrange(60, 64) == le32(header.flags),
        final(bytes)@.subrange(HEADER_SIZE as int, old(bytes)@.len() as int) == old(bytes)@.subrange(
            HEADER_SIZE as int,
            old(bytes)@.len() as int,
        ),
{
    proof {
        header.lemma_layout();
    }
    let b = header.to_bytes();
    put_bytes(bytes, 0, b.as_slice());
    proof {
        let e = header.spec_encoded();
        assert(bytes@.subrange(0, 64) =~= e);
        assert forall|a: int, c: int| 0 <= a <= c <= 64 implies bytes@.subrange(a, c)
            == e.subrange(a, c) by {
            assert(bytes@.subrange(a, c) =~= e.subrange(a, c));
        }
        assert(bytes@.subrange(HEADER_SIZE as int, bytes@.len() as int) =~= old(bytes)@.subrange(
            HEADER_SIZE as int,
            old(bytes)@.len() as int,
        ));
    }
}

/// Reading the header back after writing it gives the written header.
pub proof fn lemma_write_then_read(bytes: Seq<u8>, header: Header)
    requires
        bytes.len() >= HEADER_SIZE,
    ensures
        spec_read_header(splice(bytes, 0, header.spec_encoded())) == Some(header),
{
    header.lemma_roundtrip();
    let s = splice(bytes, 0, header.spec_encoded());
    assert(s.subrange(0, 64) =~= header.spec_encoded());
    assert forall|a: int, b: int| 0 <= a <= b <= 64 implies s.subrange(a, b)
        == header.spec_encoded().subrange(a, b) by {
        assert(s.subrange(a, b) =~= header.spec_encoded().subrange(a, b));
    }
    assert(Header::spec_parse(s).segment_uuid =~= header.segment_uuid);
}

} // verus!
