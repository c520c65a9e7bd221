//! UTF-8 conversions between byte buffers and strings.

use vstd::prelude::*;
use vstd::utf8::{decode_utf8, encode_utf8, valid_utf8};

verus! {

broadcast use {vstd::utf8::encode_utf8_decode_utf8, vstd::utf8::decode_utf8_encode_utf8};

/// Calls `String::from_utf8`: the bytes are taken over as a string exactly when they
/// are valid UTF-8 (per the std documentation), and the string's bytes are the input.
#[verifier::external_body]
fn string_from_utf8(bytes: Vec<u8>) -> (r: Option<String>)
    ensures
        r is Some <==> valid_utf8(bytes@),
        r matches Some(s) ==> encode_utf8(s@) == bytes@,
{
    match String::from_utf8(bytes) {
        Ok(s) => Some(s),
        Err(_) => None,
    }
}

/// The characters that valid UTF-8 `bytes` decode to, or `None` when they are not valid.
pub fn utf8_to_string(bytes: Vec<u8>) -> (r: Option<String>)
    ensures
        r is Some <==> valid_utf8(bytes@),
        r matches Some(s) ==> s@ == decode_utf8(bytes@) && encode_utf8(s@) == bytes@,
{
    let r = string_from_utf8(bytes);
    proof {
        if let Some(s) = &r {
            assert(decode_utf8(encode_utf8(s@)) == s@);
        }
    }
    r
}

/// The UTF-8 bytes of a string.
pub fn str_to_bytes(s: &str) -> (r: Vec<u8>)
    ensures
        r@ == encode_utf8(s@),
{
    vstd::slice::slice_to_vec(s.as_bytes())
}

} // verus!
