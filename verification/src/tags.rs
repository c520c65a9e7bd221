//! Four-character layout tags for slab, catalog and record headers.
//!
//! A tag answers "what shape is this byte range?"; it is a layout guard, not a type
//! identity (types are identified by their 16-byte UUID).

use vstd::prelude::*;

verus! {

/// The big-endian packing of four bytes: `a` is the most significant.
pub open spec fn spec_fourcc(a: u8, b: u8, c: u8, d: u8) -> int {
    (a as u32) * 0x0100_0000 + (b as u32) * 0x0001_0000 + (c as u32) * 0x0100 + (d as u32)
}

/// Pack a four-byte ASCII tag into a `u32`, first byte most significant.
pub fn fourcc(tag: &[u8; 4]) -> (r: u32)
    ensures
        r == spec_fourcc(tag@[0], tag@[1], tag@[2], tag@[3]),
{
    (tag[0] as u32) * 0x0100_0000 + (tag[1] as u32) * 0x0001_0000 + (tag[2] as u32) * 0x0100
        + (tag[3] as u32)
}

/// The bytes of a packed tag, most significant first.
pub open spec fn fourcc_bytes_spec(tag: u32) -> Seq<u8> {
    seq![
        (tag / 0x0100_0000) as u8,
        ((tag % 0x0100_0000) / 0x0001_0000) as u8,
        ((tag % 0x0001_0000) / 0x0100) as u8,
        (tag % 0x0100) as u8,
    ]
}

/// Packing four bytes and taking them apart again gives the same bytes, and a tag's bytes
/// pack back to it.
pub proof fn lemma_fourcc_roundtrip(a: u8, b: u8, c: u8, d: u8, tag: u32)
    ensures
        0 <= spec_fourcc(a, b, c, d) <= u32::MAX,
        fourcc_bytes_spec(spec_fourcc(a, b, c, d) as u32) == seq![a, b, c, d],
        spec_fourcc(
            fourcc_bytes_spec(tag)[0],
            fourcc_bytes_spec(tag)[1],
            fourcc_bytes_spec(tag)[2],
            fourcc_bytes_spec(tag)[3],
        ) == tag,
{
    let t = spec_fourcc(a, b, c, d);
    assert(0 <= t <= 0xffff_ffff) by (nonlinear_arith)
        requires
            t == (a as u32) * 0x0100_0000 + (b as u32) * 0x0001_0000 + (c as u32) * 0x0100 + (d as u32),
            a < 256,
            b < 256,
            c < 256,
            d < 256,
    ;
    assert(t / 0x0100_0000 == a && (t % 0x0100_0000) / 0x0001_0000 == b && (t % 0x0001_0000)
        / 0x0100 == c && t % 0x0100 == d) by (nonlinear_arith)
        requires
            t == (a as u32) * 0x0100_0000 + (b as u32) * 0x0001_0000 + (c as u32) * 0x0100 + (d as u32),
            a < 256,
            b < 256,
            c < 256,
            d < 256,
    ;
    assert(fourcc_bytes_spec(t as u32) =~= seq![a, b, c, d]);
    let x = tag as int;
    assert(x == (x / 0x0100_0000) * 0x0100_0000 + ((x % 0x0100_0000) / 0x0001_0000) * 0x0001_0000
        + ((x % 0x0001_0000) / 0x0100) * 0x0100 + x % 0x0100 && x / 0x0100_0000 < 256 && (x
        % 0x0100_0000) / 0x0001_0000 < 256 && (x % 0x0001_0000) / 0x0100 < 256) by (nonlinear_arith)
        requires
            0 <= x <= 0xffff_ffff,
    ;
}

/// The four bytes of a packed tag, most significant first.
pub fn fourcc_bytes(tag: u32) -> (r: [u8; 4])
    ensures
        r@ == fourcc_bytes_spec(tag),
        spec_fourcc(r@[0], r@[1], r@[2], r@[3]) == tag,
{
    proof {
        lemma_fourcc_roundtrip(0, 0, 0, 0, tag);
    }
    let a: u8 = (tag / 0x0100_0000) as u8;
    let b: u8 = ((tag % 0x0100_0000) / 0x0001_0000) as u8;
    let c: u8 = ((tag % 0x0001_0000) / 0x0100) as u8;
    let d: u8 = (tag % 0x0100) as u8;
    let r = [a, b, c, d];
    assert(r@ =~= fourcc_bytes_spec(tag));
    r
}

/// The four characters of a packed tag, when each byte is printable ASCII.
pub fn fourcc_text(tag: u32) -> (r: Option<String>)
    ensures
        r is Some <==> (forall|i: int| 0 <= i < 4 ==> 0x20 <= #[trigger] fourcc_bytes_spec(tag)[i] <= 0x7e),
        r matches Some(s) ==> s@ == fourcc_bytes_spec(tag).map_values(|x: u8| x as char),
{
    let b = fourcc_bytes(tag);
    let mut i: usize = 0;
    while i < 4
        invariant
            i <= 4,
            b@ == fourcc_bytes_spec(tag),
            forall|j: int| 0 <= j < i ==> 0x20 <= #[trigger] b@[j] <= 0x7e,
        decreases 4 - i,
    {
        if b[i] < 0x20 || b[i] > 0x7e {
            return None;
        }
        i = i + 1;
    }
    let chars: Vec<char> = vec![b[0] as char, b[1] as char, b[2] as char, b[3] as char];
    assert(chars@ =~= fourcc_bytes_spec(tag).map_values(|x: u8| x as char));
    Some(crate::chars::string_of(chars.as_slice()))
}

/// Slab mapping envelope.
pub const CRUS: u32 = 0x4352_5553;

/// Pinned metatype catalog blob.
pub const CTLG: u32 = 0x4354_4C47;

/// Pinned object catalog blob.
pub const COBJ: u32 = 0x434F_424A;

/// Metatype row header.
pub const MTYP: u32 = 0x4D54_5950;

/// String blob header.
pub const STRS: u32 = 0x5354_5253;

/// Object row header.
pub const OBJH: u32 = 0x4F42_4A48;

/// Every tag constant is the packing of its four ASCII letters.
pub proof fn lemma_tags_are_fourcc()
    ensures
        CRUS == spec_fourcc(0x43, 0x52, 0x55, 0x53),
        CTLG == spec_fourcc(0x43, 0x54, 0x4C, 0x47),
        COBJ == spec_fourcc(0x43, 0x4F, 0x42, 0x4A),
        MTYP == spec_fourcc(0x4D, 0x54, 0x59, 0x50),
        STRS == spec_fourcc(0x53, 0x54, 0x52, 0x53),
        OBJH == spec_fourcc(0x4F, 0x42, 0x4A, 0x48),
{
}

} // verus!
