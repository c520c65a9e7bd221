//! Little-endian field codecs over byte slices.

use vstd::bytes::*;
use vstd::prelude::*;

verus! {

/// `s` with the bytes at `off .. off + b.len()` replaced by `b`.
pub open spec fn splice(s: Seq<u8>, off: int, b: Seq<u8>) -> Seq<u8> {
    s.take(off) + b + s.skip(off + b.len())
}

pub open spec fn le16(v: u16) -> Seq<u8> {
    spec_u16_to_le_bytes(v)
}

pub open spec fn le32(v: u32) -> Seq<u8> {
    spec_u32_to_le_bytes(v)
}

pub open spec fn get16(s: Seq<u8>, off: int) -> u16 {
    spec_u16_from_le_bytes(s.subrange(off, off + 2))
}

pub open spec fn get32(s: Seq<u8>, off: int) -> u32 {
    spec_u32_from_le_bytes(s.subrange(off, off + 4))
}

/// Both directions of the little-endian encodings are inverse to each other.
pub proof fn lemma_le_roundtrip()
    ensures
        forall|x: u16| #[trigger] le16(x).len() == 2 && spec_u16_from_le_bytes(le16(x)) == x,
        forall|x: u32| #[trigger] le32(x).len() == 4 && spec_u32_from_le_bytes(le32(x)) == x,
        forall|s: Seq<u8>| s.len() == 2 ==> #[trigger] le16(spec_u16_from_le_bytes(s)) == s,
        forall|s: Seq<u8>| s.len() == 4 ==> #[trigger] le32(spec_u32_from_le_bytes(s)) == s,
{
    lemma_auto_spec_u16_to_from_le_bytes();
    lemma_auto_spec_u32_to_from_le_bytes();
}

/// Copy `src` into `dst` starting at `off`.
pub fn put_bytes(dst: &mut [u8], off: usize, src: &[u8])
    requires
        off + src@.len() <= old(dst)@.len(),
    ensures
        final(dst)@ == splice(old(dst)@, off as int, src@),
{
    let n = src.len();
    let dl = dst.len();
    let mut i: usize = 0;
    while i < n
        invariant
            n == src@.len(),
            dl == dst@.len(),
            off + n <= dst@.len(),
            0 <= i <= n,
            dst@.len() == old(dst)@.len(),
            forall|k: int| 0 <= k < off ==> dst@[k] == old(dst)@[k],
            forall|k: int| off + n <= k < dst@.len() ==> dst@[k] == old(dst)@[k],
            forall|k: int| 0 <= k < i ==> dst@[off + k] == src@[k],
        decreases n - i,
    {
        dst[off + i] = src[i];
        i = i + 1;
    }
    assert(dst@ =~= splice(old(dst)@, off as int, src@));
}

/// Set every byte of `dst` in `start .. end` to zero.
pub fn zero_bytes(dst: &mut [u8], start: usize, end: usize)
    requires
        start <= end <= old(dst)@.len(),
    ensures
        final(dst)@ == splice(old(dst)@, start as int, Seq::new((end - start) as nat, |i: int| 0u8)),
{
    let mut i: usize = start;
    while i < end
        invariant
            start <= i <= end,
            end <= dst@.len(),
            dst@.len() == old(dst)@.len(),
            forall|k: int| 0 <= k < start ==> dst@[k] == old(dst)@[k],
            forall|k: int| end <= k < dst@.len() ==> dst@[k] == old(dst)@[k],
            forall|k: int| start <= k < i ==> dst@[k] == 0u8,
        decreases end - i,
    {
        dst[i] = 0;
        i = i + 1;
    }
    assert(dst@ =~= splice(old(dst)@, start as int, Seq::new((end - start) as nat, |i: int| 0u8)));
}

pub fn put_u16(dst: &mut [u8], off: usize, v: u16)
    requires
        off + 2 <= old(dst)@.len(),
    ensures
        final(dst)@ == splice(old(dst)@, off as int, le16(v)),
{
    let b = u16_to_le_bytes(v);
    put_bytes(dst, off, b.as_slice());
}

pub fn put_u32(dst: &mut [u8], off: usize, v: u32)
    requires
        off + 4 <= old(dst)@.len(),
    ensures
        final(dst)@ == splice(old(dst)@, off as int, le32(v)),
{
    let b = u32_to_le_bytes(v);
    put_bytes(dst, off, b.as_slice());
}

pub fn get_u16(src: &[u8], off: usize) -> (r: u16)
    requires
        off + 2 <= src@.len(),
    ensures
        r == get16(src@, off as int),
{
    let _n = src.len();
    u16_from_le_bytes(vstd::slice::slice_subrange(src, off, off + 2))
}

pub fn get_u32(src: &[u8], off: usize) -> (r: u32)
    requires
        off + 4 <= src@.len(),
    ensures
        r == get32(src@, off as int),
{
    let _n = src.len();
    u32_from_le_bytes(vstd::slice::slice_subrange(src, off, off + 4))
}

/// Append the little-endian bytes of `v` to `out`.
pub fn push_u16(out: &mut Vec<u8>, v: u16)
    ensures
        final(out)@ == old(out)@ + le16(v),
{
    let mut b = u16_to_le_bytes(v);
    out.append(&mut b);
}

/// Append the little-endian bytes of `v` to `out`.
pub fn push_u32(out: &mut Vec<u8>, v: u32)
    ensures
        final(out)@ == old(out)@ + le32(v),
{
    let mut b = u32_to_le_bytes(v);
    out.append(&mut b);
}

} // verus!
