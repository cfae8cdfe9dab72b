//! Conversions between byte vectors and strings.
//!
//! The on-disk formats and the JSON protocol are byte-oriented; strings
//! cross into them through UTF-8 encoding.  vstd's UTF-8 model
//! (`encode_utf8` / `decode_utf8` / `valid_utf8`) ties the two views
//! together.

use vstd::prelude::*;
use vstd::utf8::{decode_utf8, encode_utf8, valid_utf8};

verus! {

/// Relies on `String::from_utf8`: it succeeds exactly on valid UTF-8 and
/// returns the decoded character sequence.
#[verifier::external_body]
pub fn utf8_to_string(v: &Vec<u8>) -> (r: Option<String>)
    ensures
        r is Some <==> valid_utf8(v@),
        r matches Some(s) ==> s@ == decode_utf8(v@),
{
    match String::from_utf8(v.clone()) {
        Ok(s) => Some(s),
        Err(_) => None,
    }
}

/// The characters an ASCII byte sequence decodes to, one per byte.
pub open spec fn ascii_chars_of(v: Seq<u8>) -> Seq<char> {
    v.map(|i: int, b: u8| b as char)
}

/// Every byte of `v` is ASCII.
pub open spec fn all_ascii(v: Seq<u8>) -> bool {
    forall|i: int| 0 <= i < v.len() ==> v[i] < 0x80
}

/// Decode a vector of ASCII bytes into a string, character for character.
pub fn ascii_to_string(v: &Vec<u8>) -> (r: String)
    requires
        all_ascii(v@),
    ensures
        r@ == ascii_chars_of(v@),
{
    proof {
        lemma_ascii_decode(v@);
    }
    match utf8_to_string(v) {
        Some(s) => s,
        None => vstd::pervasive::unreached(),
    }
}

/// Compare two string slices by contents.
pub fn str_eq(a: &str, b: &str) -> (r: bool)
    ensures
        r == (a@ == b@),
{
    proof {
        vstd::utf8::encode_utf8_decode_utf8(a@);
        vstd::utf8::encode_utf8_decode_utf8(b@);
    }
    crate::order::bytes_cmp(a.as_bytes(), b.as_bytes()) == 0
}

/// ASCII bytes are valid UTF-8 and decode to themselves.
pub proof fn lemma_ascii_decode(v: Seq<u8>)
    requires
        all_ascii(v),
    ensures
        valid_utf8(v),
        decode_utf8(v) == ascii_chars_of(v),
{
    let chars = ascii_chars_of(v);
    assert(vstd::utf8::is_ascii_chars(chars));
    vstd::utf8::is_ascii_chars_encode_utf8(chars);
    assert(encode_utf8(chars) =~= v);
    vstd::utf8::encode_utf8_valid_utf8(chars);
    vstd::utf8::encode_utf8_decode_utf8(chars);
}

} // verus!
