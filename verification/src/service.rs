//! The pure half of service selection: turning the text a user typed into
//! a service title and password number, and building the salt that ties a
//! derived password to a user and service.  The screen that reads the text
//! and the store of known services stay outside.

use vstd::prelude::*;
use vstd::slice::{slice_index_get, slice_subrange};
use vstd::string::StringSliceAdditionalSpecFns;
use vstd::utf8::*;

use crate::buffers::{all_ascii_bytes, lemma_ascii_decode, string_from_utf8};
use crate::inputs::{parse_u8_bytes, parse_u8_spec};

verus! {

/// A byte lowered to its ASCII lowercase form.
pub open spec fn to_lower_byte(b: u8) -> u8 {
    if 65 <= b <= 90 {
        (b + 32) as u8
    } else {
        b
    }
}

/// A byte sequence lowered byte by byte to ASCII lowercase.
pub open spec fn to_lower_bytes(b: Seq<u8>) -> Seq<u8> {
    Seq::new(b.len(), |i: int| to_lower_byte(b[i]))
}

/// The position after the last space of a byte sequence, or 0 when it has
/// no space.
pub open spec fn after_last_space(b: Seq<u8>) -> int
    decreases b.len(),
{
    if b.len() == 0 {
        0
    } else if b.last() == 32 {
        b.len() as int
    } else {
        after_last_space(b.drop_last())
    }
}

/// The title part of a service request: everything before the last space,
/// lowered to ASCII lowercase, when the word after that space reads as a
/// number; the whole text lowered otherwise.
pub open spec fn request_title(b: Seq<u8>) -> Seq<u8> {
    let cut = after_last_space(b);
    if parse_u8_spec(b.subrange(cut, b.len() as int)) is Some {
        to_lower_bytes(b.subrange(0, if cut == 0 { 0 } else { cut - 1 }))
    } else {
        to_lower_bytes(b)
    }
}

/// The password number a service request carries, if its last word reads
/// as one.
pub open spec fn request_num(b: Seq<u8>) -> Option<u8> {
    parse_u8_spec(b.subrange(after_last_space(b), b.len() as int))
}

/// Finds the position after the last space of a byte slice.
#[verifier::loop_isolation(false)]
fn find_after_last_space(b: &[u8]) -> (r: usize)
    ensures
        0 <= r <= b@.len(),
        r == after_last_space(b@),
{
    let mut j = b.len();
    proof {
        assert(b@.take(b@.len() as int) =~= b@);
    }
    while j > 0
        invariant
            j <= b@.len(),
            after_last_space(b@) == after_last_space(b@.take(j as int)),
        decreases j,
    {
        if *slice_index_get(b, j - 1) == 32 {
            proof {
                assert(b@.take(j as int).last() == 32);
            }
            return j;
        }
        proof {
            assert(b@.take(j as int).last() != 32);
            assert(b@.take(j as int).drop_last() =~= b@.take(j as int - 1));
        }
        j = j - 1;
    }
    proof {
        assert(b@.take(0).len() == 0);
    }
    0
}

/// Lowers a byte slice to ASCII lowercase.
#[verifier::loop_isolation(false)]
fn lower_bytes_vec(b: &[u8]) -> (v: Vec<u8>)
    ensures
        v@ == to_lower_bytes(b@),
{
    let n = b.len();
    let mut v: Vec<u8> = Vec::new();
    let mut i: usize = 0;
    while i < n
        invariant
            i <= n,
            v@ =~= to_lower_bytes(b@).take(i as int),
        decreases n - i,
    {
        let c = *slice_index_get(b, i);
        let low = if 65 <= c && c <= 90 {
            c + 32
        } else {
            c
        };
        v.push(low);
        proof {
            assert(v@ =~= to_lower_bytes(b@).take(i as int + 1));
        }
        i = i + 1;
    }
    proof {
        assert(v@ =~= to_lower_bytes(b@));
    }
    v
}

/// Splits the text typed on the service screen into a service title and an
/// optional password number: when the word after the last space reads as a
/// number it is the password number and the text before the space is the
/// title; otherwise the whole text is the title.  The title is lowered to
/// ASCII lowercase.  The screen only produces ASCII text, so ASCII input
/// is required.
#[verifier::loop_isolation(false)]
pub fn split_service_request(buffer: &str) -> (r: (String, Option<u8>))
    requires
        buffer.is_ascii(),
    ensures
        encode_utf8(r.0@) == request_title(encode_utf8(buffer@)),
        r.1 == request_num(encode_utf8(buffer@)),
{
    proof {
        vstd::string::is_ascii_spec_bytes(buffer);
    }
    let b = buffer.as_bytes();
    let ghost bs = b@;
    proof {
        assert(all_ascii_bytes(bs));
    }
    let n = b.len();
    let cut = find_after_last_space(b);
    let num = parse_u8_bytes(slice_subrange(b, cut, n));
    let title_end: usize = if num.is_some() {
        if cut == 0 {
            0
        } else {
            cut - 1
        }
    } else {
        n
    };
    let lowered = lower_bytes_vec(slice_subrange(b, 0, title_end));
    let ghost lb = lowered@;
    proof {
        assert forall|i: int| 0 <= i < lb.len() implies lb[i] < 128 by {
            assert(lb[i] == to_lower_byte(bs.subrange(0, title_end as int)[i]));
            assert(bs[i] < 128);
        }
        lemma_ascii_decode(lb);
    }
    let title = match string_from_utf8(lowered) {
        Some(s) => s,
        None => {
            proof {
                assert(false);
            }
            return (String::new(), None);
        },
    };
    proof {
        assert(encode_utf8(title@) == lb);
    }
    (title, num)
}

/// The decimal digits of a byte-sized number, without leading zeros.
pub open spec fn u8_decimal(n: u8) -> Seq<u8> {
    if n >= 100 {
        seq![(48 + n / 100) as u8, (48 + (n / 10) % 10) as u8, (48 + n % 10) as u8]
    } else if n >= 10 {
        seq![(48 + n / 10) as u8, (48 + n % 10) as u8]
    } else {
        seq![(48 + n) as u8]
    }
}

/// Appends the password number to the service title: the label that names
/// one derived password, and the service part of its salt.
pub fn make_service_label(title: &str, num: u8) -> (r: String)
    ensures
        encode_utf8(r@) == encode_utf8(title@) + u8_decimal(num),
{
    let mut out: Vec<u8> = vstd::slice::slice_to_vec(title.as_bytes());
    if num >= 100 {
        out.push(48 + num / 100);
        out.push(48 + (num / 10) % 10);
        out.push(48 + num % 10);
    } else if num >= 10 {
        out.push(48 + num / 10);
        out.push(48 + num % 10);
    } else {
        out.push(48 + num);
    }
    proof {
        assert(out@ =~= encode_utf8(title@) + u8_decimal(num));
        assert forall|i: int| 0 <= i < u8_decimal(num).len() implies u8_decimal(num)[i] < 128 by {
        }
        assert(all_ascii_bytes(u8_decimal(num)));
        lemma_ascii_decode(u8_decimal(num));
        encode_utf8_valid_utf8(title@);
        valid_utf8_concat(encode_utf8(title@), u8_decimal(num));
        assert(valid_utf8(out@));
    }
    let ghost ob = out@;
    match string_from_utf8(out) {
        Some(s) => {
            proof {
                decode_utf8_encode_utf8(ob);
                assert(encode_utf8(s@) == ob);
            }
            s
        },
        None => {
            proof {
                assert(false);
            }
            String::new()
        },
    }
}

/// Builds the salt for a derivation: the username followed by the service
/// label, so that a derived password is tied to both.
pub fn build_salt(username: &str, service: &str) -> (r: String)
    ensures
        r@ == username@ + service@,
{
    let mut salt = String::new();
    salt.append(username);
    salt.append(service);
    salt
}

} // verus!
