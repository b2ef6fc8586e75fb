//! Helpers for sensitive byte and text buffers: constant-structure equality
//! checks, explicit wiping, and the bridge between ASCII byte sequences and
//! the character sequences they decode to.

use vstd::prelude::*;
use vstd::string::StringSliceAdditionalSpecFns;
use vstd::utf8::*;
use zeroize::Zeroize;

verus! {

/// Compares two byte slices for equality.
pub fn bytes_eq(a: &[u8], b: &[u8]) -> (r: bool)
    ensures
        r == (a@ == b@),
{
    if a.len() != b.len() {
        return false;
    }
    let n = a.len();
    let mut i: usize = 0;
    while i < n
        invariant
            n == a@.len() == b@.len(),
            i <= n,
            forall|j: int| 0 <= j < i ==> a@[j] == b@[j],
        decreases n - i,
    {
        if *vstd::slice::slice_index_get(a, i) != *vstd::slice::slice_index_get(b, i) {
            return false;
        }
        i = i + 1;
    }
    proof {
        assert(a@ =~= b@);
    }
    true
}

/// Compares two string slices for equality of their character sequences.
pub fn str_eq(a: &str, b: &str) -> (r: bool)
    ensures
        r == (a@ == b@),
{
    let r = bytes_eq(a.as_bytes(), b.as_bytes());
    proof {
        if a.spec_bytes() == b.spec_bytes() {
            encode_utf8_decode_utf8(a@);
            encode_utf8_decode_utf8(b@);
        }
    }
    r
}

/// Wipes a text buffer: its bytes are overwritten and it is left empty.
///
/// Relies on zeroize's `Zeroize` impl for `String`: it zeroizes the backing
/// byte vector and clears it, so the string is empty afterwards.
#[verifier::external_body]
pub fn wipe_string(s: &mut String)
    ensures
        final(s)@.len() == 0,
{
    s.zeroize();
}

/// Wipes a byte buffer: its bytes are overwritten and it is left empty.
///
/// Relies on zeroize's `Zeroize` impl for `Vec<u8>`: it zeroizes every
/// element and the spare capacity, then clears the vector.
#[verifier::external_body]
pub fn wipe_bytes(v: &mut Vec<u8>)
    ensures
        final(v)@.len() == 0,
{
    v.zeroize();
}

/// Turns a byte vector into the text it encodes.
///
/// Relies on `String::from_utf8` of std, which vstd leaves unspecified:
/// it succeeds exactly on valid UTF-8 input and preserves the bytes.
#[verifier::external_body]
pub fn string_from_utf8(v: Vec<u8>) -> (r: Option<String>)
    ensures
        r is Some <==> valid_utf8(v@),
        r is Some ==> r.unwrap()@ == decode_utf8(v@),
{
    match String::from_utf8(v) {
        Ok(s) => Some(s),
        Err(_) => None,
    }
}

/// True when every byte of the sequence is in the ASCII range.
pub open spec fn all_ascii_bytes(b: Seq<u8>) -> bool {
    forall|i: int| 0 <= i < b.len() ==> b[i] < 128
}

/// The character sequence that a sequence of ASCII bytes spells.
pub open spec fn chars_of_ascii(b: Seq<u8>) -> Seq<char> {
    Seq::new(b.len(), |i: int| b[i] as char)
}

/// The byte sequence that a sequence of ASCII characters encodes to.
pub open spec fn ascii_of_chars(s: Seq<char>) -> Seq<u8> {
    Seq::new(s.len(), |i: int| s[i] as u8)
}

/// A sequence of ASCII bytes is valid UTF-8 and decodes character by
/// character: byte `i` becomes the character with the same code.
pub proof fn lemma_ascii_decode(b: Seq<u8>)
    requires
        all_ascii_bytes(b),
    ensures
        valid_utf8(b),
        decode_utf8(b) == chars_of_ascii(b),
        encode_utf8(chars_of_ascii(b)) == b,
        is_ascii_chars(chars_of_ascii(b)),
{
    let cs = chars_of_ascii(b);
    assert forall|i: int| 0 <= i < cs.len() implies #[trigger] (cs[i] as u32) < 128 by {
        assert(b[i] < 128);
        assert(cs[i] == b[i] as char);
    }
    assert(is_ascii_chars(cs));
    is_ascii_chars_encode_utf8(cs);
    assert(encode_utf8(cs) =~= b);
    encode_utf8_valid_utf8(cs);
    encode_utf8_decode_utf8(cs);
}

/// Encoding to UTF-8 is injective: two texts with the same bytes are equal.
pub proof fn lemma_encode_injective(s1: Seq<char>, s2: Seq<char>)
    requires
        encode_utf8(s1) == encode_utf8(s2),
    ensures
        s1 == s2,
{
    encode_utf8_decode_utf8(s1);
    encode_utf8_decode_utf8(s2);
}

} // verus!
