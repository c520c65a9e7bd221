//! A UTF-8 string of bounded capacity stored in a slab arena (`STRS` header + payload).

use crate::codec::{put_bytes, splice, zero_bytes};
use crate::text::{str_to_bytes, utf8_to_string};
use crate::types::handle::TypeHandle;
use crate::types::layout::{StringHeader, STRING_HEADER_LEN};
use crate::types::metatype::HasMetaType;
use crate::types::TypeError;
use vstd::prelude::*;
use vstd::utf8::{decode_utf8, encode_utf8, valid_utf8};

verus! {

broadcast use {
    vstd::utf8::encode_utf8_decode_utf8,
    vstd::utf8::decode_utf8_encode_utf8,
    vstd::utf8::encode_utf8_valid_utf8,
};

/// A string in slab memory: header at `handle.offset`, payload right after it.
///
/// Allocator-agnostic: it only needs a byte arena and a handle.
#[derive(Copy, Clone, Debug, PartialEq, Eq, Structural)]
pub struct FlexString {
    pub handle: TypeHandle,
}

impl HasMetaType for FlexString {
    const TYPE_NAME: &'static str = "cruspy.types.FlexString";
    const TYPE_UUID: [u8; 16] = [
        0x8f,
        0x3c,
        0x21,
        0x54,
        0x9a,
        0x4e,
        0x07,
        0x4b,
        0x2c,
        0xb1,
        0x6d,
        0x18,
        0x44,
        0x0a,
        0x7f,
        0x92,
    ];
    const TYPE_SCHEMA_VERSION: u32 = 1;
}

/// `n` zero bytes.
pub open spec fn zeros(n: int) -> Seq<u8> {
    Seq::new(n as nat, |i: int| 0u8)
}

impl FlexString {
    /// Start of the header region, when it lies inside both the handle and the arena.
    pub open spec fn spec_header_start(self, arena_len: int) -> Option<int> {
        let start = self.handle.offset as int;
        let end = start + STRING_HEADER_LEN;
        if end > usize::MAX || end > self.handle.spec_end() || end > arena_len {
            None
        } else {
            Some(start)
        }
    }

    /// The header stored in `a`, or why it cannot be read.
    pub open spec fn spec_header(self, a: Seq<u8>) -> Result<StringHeader, TypeError> {
        match self.spec_header_start(a.len() as int) {
            None => Err(TypeError::OutOfBounds),
            Some(start) => StringHeader::spec_decode(a.subrange(start, start + STRING_HEADER_LEN)),
        }
    }

    /// Whether the payload of `h` fits inside the handle and the arena of length `arena_len`.
    pub open spec fn spec_payload_fits(self, h: StringHeader, arena_len: int) -> bool {
        let pe = self.handle.offset + STRING_HEADER_LEN + h.capacity;
        pe <= usize::MAX && pe <= self.handle.spec_end() && pe <= arena_len
    }

    /// The stored string bytes, or why they cannot be read.
    pub open spec fn spec_get_bytes(self, a: Seq<u8>) -> Result<Seq<u8>, TypeError> {
        match self.spec_header(a) {
            Err(e) => Err(e),
            Ok(h) => if self.spec_payload_fits(h, a.len() as int) {
                let ps = self.handle.offset + STRING_HEADER_LEN;
                Ok(a.subrange(ps, ps + h.len))
            } else {
                Err(TypeError::OutOfBounds)
            },
        }
    }

    /// The stored string, or why it cannot be read.
    pub open spec fn spec_get(self, a: Seq<u8>) -> Result<Seq<char>, TypeError> {
        match self.spec_get_bytes(a) {
            Err(e) => Err(e),
            Ok(b) => if valid_utf8(b) {
                Ok(decode_utf8(b))
            } else {
                Err(TypeError::InvalidUtf8)
            },
        }
    }

    /// The arena after storing the UTF-8 bytes `v`, or why they cannot be stored.
    pub open spec fn spec_set(self, a: Seq<u8>, v: Seq<u8>) -> Result<Seq<u8>, TypeError> {
        match self.spec_header(a) {
            Err(e) => Err(e),
            Ok(h) => if v.len() > h.capacity {
                Err(TypeError::CapacityExceeded)
            } else if !self.spec_payload_fits(h, a.len() as int) {
                Err(TypeError::OutOfBounds)
            } else {
                let start = self.handle.offset as int;
                let ps = start + STRING_HEADER_LEN;
                let payload = v + zeros(h.capacity - v.len());
                let h2 = StringHeader { len: v.len() as u32, ..h };
                Ok(splice(splice(a, ps, payload), start, h2.spec_encoded()))
            },
        }
    }

    /// The arena after writing an empty header of the given capacity, or why it cannot be.
    pub open spec fn spec_init(self, a: Seq<u8>, capacity: usize) -> Result<Seq<u8>, TypeError> {
        match self.spec_header_start(a.len() as int) {
            None => Err(TypeError::OutOfBounds),
            Some(start) => Ok(
                splice(
                    a,
                    start,
                    StringHeader {
                        magic: crate::types::layout::STRING_MAGIC,
                        version: crate::types::layout::STRING_VERSION,
                        _reserved: 0,
                        len: 0,
                        capacity: capacity as u32,
                    }.spec_encoded(),
                ),
            ),
        }
    }

    pub fn new(handle: TypeHandle) -> (r: Self)
        ensures
            r.handle == handle,
    {
        Self { handle }
    }

    /// Bytes a string of the given capacity occupies (header + payload), saturating.
    pub fn required_len(capacity: usize) -> (r: usize)
        ensures
            r == crate::types::handle::sat_add(STRING_HEADER_LEN, capacity),
    {
        STRING_HEADER_LEN.saturating_add(capacity)
    }

    fn header_range(&self, arena_len: usize) -> (r: Result<std::ops::Range<usize>, TypeError>)
        ensures
            match self.spec_header_start(arena_len as int) {
                None => r == Err::<std::ops::Range<usize>, TypeError>(TypeError::OutOfBounds),
                Some(s) => r matches Ok(rg) && rg.start == s && rg.end == s + STRING_HEADER_LEN,
            },
    {
        let start = self.handle.offset;
        let end = match start.checked_add(STRING_HEADER_LEN) {
            Some(e) => e,
            None => return Err(TypeError::OutOfBounds),
        };
        if end > self.handle.end() || end > arena_len {
            return Err(TypeError::OutOfBounds);
        }
        Ok(start..end)
    }

    /// Write an empty header (length 0) with the given capacity (truncated to `u32`).
    pub fn init_in(&self, arena: &mut [u8], capacity: usize) -> (r: Result<(), TypeError>)
        ensures
            match self.spec_init(old(arena)@, capacity) {
                Ok(a) => r is Ok && final(arena)@ == a,
                Err(e) => r == Err::<(), TypeError>(e) && final(arena)@ == old(arena)@,
            },
            r is Ok <==> self.spec_header_start(old(arena)@.len() as int) is Some,
            r is Ok ==> self.spec_header(final(arena)@) == Ok::<StringHeader, TypeError>(
                StringHeader {
                    magic: crate::types::layout::STRING_MAGIC,
                    version: crate::types::layout::STRING_VERSION,
                    _reserved: 0,
                    len: 0,
                    capacity: capacity as u32,
                },
            ),
    {
        proof {
            if self.spec_init(arena@, capacity) is Ok {
                self.lemma_init_header(arena@, capacity);
            }
        }
        let header = StringHeader::new(0, capacity as u32);
        let range = self.header_range(arena.len())?;
        let b = header.to_bytes();
        put_bytes(arena, range.start, b.as_slice());
        Ok(())
    }

    /// Store `value`, zero-filling the rest of the payload, and record its length.
    pub fn set(&self, arena: &mut [u8], value: &str) -> (r: Result<(), TypeError>)
        ensures
            match self.spec_set(old(arena)@, encode_utf8(value@)) {
                Ok(a) => r is Ok && final(arena)@ == a,
                Err(e) => r == Err::<(), TypeError>(e) && final(arena)@ == old(arena)@,
            },
    {
        let header_range = self.header_range(arena.len())?;
        let mut header = StringHeader::decode_from(
            vstd::slice::slice_subrange(arena, header_range.start, header_range.end),
        )?;
        let vbytes = str_to_bytes(value);
        if vbytes.len() > header.capacity as usize {
            return Err(TypeError::CapacityExceeded);
        }
        let payload_range = header.payload_range(self.handle.offset)?;
        if payload_range.end > self.handle.end() || payload_range.end > arena.len() {
            return Err(TypeError::OutOfBounds);
        }
        let ghost a0 = arena@;
        zero_bytes(arena, payload_range.start, payload_range.end);
        put_bytes(arena, payload_range.start, vbytes.as_slice());
        let ghost ps = payload_range.start as int;
        let ghost cap = header.capacity as int;
        assert(arena@ =~= splice(a0, ps, vbytes@ + zeros(cap - vbytes@.len())));
        header.len = vbytes.len() as u32;
        let hb = header.to_bytes();
        put_bytes(arena, header_range.start, hb.as_slice());
        Ok(())
    }

    /// Read the stored string.
    pub fn get(&self, arena: &[u8]) -> (r: Result<String, TypeError>)
        ensures
            match self.spec_get(arena@) {
                Ok(c) => r matches Ok(s) && s@ == c,
                Err(e) => r matches Err(e2) && e2 == e,
            },
    {
        let header_range = self.header_range(arena.len())?;
        let header = StringHeader::decode_from(
            vstd::slice::slice_subrange(arena, header_range.start, header_range.end),
        )?;
        let payload_range = header.payload_range(self.handle.offset)?;
        if payload_range.end > self.handle.end() || payload_range.end > arena.len() {
            return Err(TypeError::OutOfBounds);
        }
        let bytes = vstd::slice::slice_to_vec(
            vstd::slice::slice_subrange(
                arena,
                payload_range.start,
                payload_range.start + header.len as usize,
            ),
        );
        match utf8_to_string(bytes) {
            Some(s) => Ok(s),
            None => Err(TypeError::InvalidUtf8),
        }
    }

    /// Reading back after a successful store gives exactly the stored string.
    pub proof fn lemma_set_then_get(self, a: Seq<u8>, value: Seq<char>)
        requires
            self.spec_set(a, encode_utf8(value)) is Ok,
        ensures
            self.spec_get(self.spec_set(a, encode_utf8(value))->Ok_0) == Ok::<
                Seq<char>,
                TypeError,
            >(value),
    {
        let v = encode_utf8(value);
        let h = self.spec_header(a)->Ok_0;
        let start = self.handle.offset as int;
        let ps = start + STRING_HEADER_LEN;
        let payload = v + zeros(h.capacity - v.len());
        let h2 = StringHeader { len: v.len() as u32, ..h };
        let a1 = splice(a, ps, payload);
        let a2 = splice(a1, start, h2.spec_encoded());
        h2.lemma_roundtrip();
        assert(a2.len() == a.len());
        assert(a2.subrange(start, start + STRING_HEADER_LEN) =~= h2.spec_encoded());
        assert(StringHeader::spec_parse(h2.spec_encoded()) == h2);
        assert(self.spec_header(a2) == Ok::<StringHeader, TypeError>(h2));
        assert(a2.subrange(ps, ps + h2.len) =~= v);
    }

    /// After an empty header of capacity `capacity` is written, reading the header back gives
    /// length 0 and that capacity (as `u32`), and the stored string reads as empty when its
    /// payload fits.
    pub proof fn lemma_init_header(self, a: Seq<u8>, capacity: usize)
        requires
            self.spec_init(a, capacity) is Ok,
        ensures
            self.spec_header(self.spec_init(a, capacity)->Ok_0) == Ok::<StringHeader, TypeError>(
                StringHeader {
                    magic: crate::types::layout::STRING_MAGIC,
                    version: crate::types::layout::STRING_VERSION,
                    _reserved: 0,
                    len: 0,
                    capacity: capacity as u32,
                },
            ),
            self.spec_init(a, capacity)->Ok_0.len() == a.len(),
    {
        let h = StringHeader {
            magic: crate::types::layout::STRING_MAGIC,
            version: crate::types::layout::STRING_VERSION,
            _reserved: 0,
            len: 0,
            capacity: capacity as u32,
        };
        let start = self.handle.offset as int;
        let a1 = self.spec_init(a, capacity)->Ok_0;
        h.lemma_roundtrip();
        assert(a1 == splice(a, start, h.spec_encoded()));
        assert(a1.subrange(start, start + STRING_HEADER_LEN) =~= h.spec_encoded());
    }

    /// A string initialised with capacity `capacity` (whose payload fits in its handle and
    /// the arena) accepts every value of at most `capacity` UTF-8 bytes, and reading it back
    /// gives that value; a longer value is refused as exceeding the capacity.
    pub proof fn lemma_init_then_set_get(self, a: Seq<u8>, capacity: usize, value: Seq<char>)
        requires
            self.spec_init(a, capacity) is Ok,
            capacity <= u32::MAX,
            self.handle.offset + STRING_HEADER_LEN + capacity <= self.handle.spec_end(),
            self.handle.offset + STRING_HEADER_LEN + capacity <= a.len(),
        ensures
            ({
                let a1 = self.spec_init(a, capacity)->Ok_0;
                let v = encode_utf8(value);
                &&& v.len() <= capacity ==> self.spec_set(a1, v) is Ok && self.spec_get(
                    self.spec_set(a1, v)->Ok_0,
                ) == Ok::<Seq<char>, TypeError>(value)
                &&& v.len() > capacity ==> self.spec_set(a1, v) == Err::<Seq<u8>, TypeError>(
                    TypeError::CapacityExceeded,
                )
            }),
    {
        self.lemma_init_header(a, capacity);
        let a1 = self.spec_init(a, capacity)->Ok_0;
        let v = encode_utf8(value);
        if v.len() <= capacity {
            assert(self.spec_set(a1, v) is Ok);
            self.lemma_set_then_get(a1, value);
        }
    }

    /// A successful store keeps the header's capacity, records the value's length, writes
    /// the value at the start of the payload and zeros after it, and leaves every byte outside
    /// the string's header and payload as it was.
    pub proof fn lemma_set_effect(self, a: Seq<u8>, v: Seq<u8>)
        requires
            self.spec_set(a, v) is Ok,
        ensures
            ({
                let h = self.spec_header(a)->Ok_0;
                let a2 = self.spec_set(a, v)->Ok_0;
                let start = self.handle.offset as int;
                let ps = start + STRING_HEADER_LEN;
                &&& a2.len() == a.len()
                &&& self.spec_header(a2) == Ok::<StringHeader, TypeError>(
                    StringHeader { len: v.len() as u32, ..h },
                )
                &&& a2.subrange(ps, ps + v.len()) == v
                &&& forall|i: int| ps + v.len() <= i < ps + h.capacity ==> a2[i] == 0
                &&& forall|i: int|
                    0 <= i < a.len() && !(start <= i < ps + h.capacity) ==> a2[i] == a[i]
            }),
    {
        let h = self.spec_header(a)->Ok_0;
        let start = self.handle.offset as int;
        let ps = start + STRING_HEADER_LEN;
        let payload = v + zeros(h.capacity - v.len());
        let h2 = StringHeader { len: v.len() as u32, ..h };
        let a1 = splice(a, ps, payload);
        let a2 = splice(a1, start, h2.spec_encoded());
        h2.lemma_roundtrip();
        assert(a2.subrange(start, start + STRING_HEADER_LEN) =~= h2.spec_encoded());
        assert(h2.spec_valid());
        assert(a2.subrange(ps, ps + v.len()) =~= v);
        assert forall|i: int| ps + v.len() <= i < ps + h.capacity implies a2[i] == 0 by {
            assert(a2[i] == a1[i]);
            assert(a1[i] == payload[i - ps]);
        }
        assert forall|i: int| 0 <= i < a.len() && !(start <= i < ps + h.capacity) implies a2[i]
            == a[i] by {
            assert(a2[i] == a1[i]);
        }
    }

    /// Storing twice is storing the second value: the second store overwrites the whole
    /// payload and the recorded length, so nothing of the first value remains.
    pub proof fn lemma_set_twice(self, a: Seq<u8>, v1: Seq<u8>, v2: Seq<u8>)
        requires
            self.spec_set(a, v1) is Ok,
            self.spec_set(a, v2) is Ok,
        ensures
            self.spec_set(self.spec_set(a, v1)->Ok_0, v2) == self.spec_set(a, v2),
    {
        self.lemma_set_effect(a, v1);
        self.lemma_set_effect(a, v2);
        let h = self.spec_header(a)->Ok_0;
        let a1 = self.spec_set(a, v1)->Ok_0;
        self.lemma_set_effect(a1, v2);
        let b = self.spec_set(a1, v2)->Ok_0;
        let c = self.spec_set(a, v2)->Ok_0;
        let start = self.handle.offset as int;
        let ps = start + STRING_HEADER_LEN;
        let h2 = StringHeader { len: v2.len() as u32, ..h };
        let ha1 = self.spec_header(a1)->Ok_0;
        assert(ha1 == StringHeader { len: v1.len() as u32, ..h });
        assert(StringHeader { len: v2.len() as u32, ..ha1 } == h2);
        h2.lemma_roundtrip();
        let pay = v2 + zeros(h.capacity - v2.len());
        assert(b == splice(splice(a1, ps, pay), start, h2.spec_encoded()));
        assert(b.subrange(start, start + STRING_HEADER_LEN) =~= h2.spec_encoded());
        assert(c.subrange(start, start + STRING_HEADER_LEN) =~= h2.spec_encoded());
        assert forall|i: int| 0 <= i < b.len() implies b[i] == c[i] by {
            if start <= i < ps {
                assert(b[i] == b.subrange(start, start + STRING_HEADER_LEN)[i - start]);
                assert(c[i] == c.subrange(start, start + STRING_HEADER_LEN)[i - start]);
            } else if ps <= i < ps + v2.len() {
                assert(b[i] == b.subrange(ps, ps + v2.len())[i - ps]);
                assert(c[i] == c.subrange(ps, ps + v2.len())[i - ps]);
            } else if ps + v2.len() <= i < ps + h.capacity {
            } else {
                assert(b[i] == a1[i]);
                assert(a1[i] == a[i]);
            }
        }
        assert(b =~= c);
    }
}

} // verus!
