//! The pure half of the command prompts: turning a raw line of user input
//! into a class selection or a password length.  Reading the line itself is
//! left to the surrounding command loop.

use vstd::prelude::*;
use vstd::slice::slice_index_get;
use vstd::string::StringSliceAdditionalSpecFns;
use vstd::utf8::encode_utf8;

use crate::characters::Key;
use crate::generator::is_digit_byte;

verus! {

/// True of the ASCII whitespace bytes that input lines are trimmed of.
pub open spec fn is_ws_byte(b: u8) -> bool {
    b == 32 || b == 9 || b == 10 || b == 13
}

/// A byte sequence with leading and trailing ASCII whitespace removed.
pub open spec fn trim_bytes(b: Seq<u8>) -> Seq<u8>
    decreases b.len(),
{
    if b.len() == 0 {
        b
    } else if is_ws_byte(b[0]) {
        trim_bytes(b.drop_first())
    } else if is_ws_byte(b[b.len() - 1]) {
        trim_bytes(b.drop_last())
    } else {
        b
    }
}

/// Finds the range of a byte slice left over after trimming ASCII
/// whitespace from both ends.
fn trim_range(b: &[u8]) -> (r: (usize, usize))
    ensures
        r.0 <= r.1 <= b@.len(),
        b@.subrange(r.0 as int, r.1 as int) == trim_bytes(b@),
        r.0 < r.1 ==> !is_ws_byte(b@[r.0 as int]) && !is_ws_byte(b@[r.1 - 1]),
{
    let mut lo: usize = 0;
    let mut hi: usize = b.len();
    proof {
        assert(b@.subrange(0, b@.len() as int) =~= b@);
    }
    while lo < hi && is_ws(*slice_index_get(b, lo))
        invariant
            lo <= hi <= b@.len(),
            trim_bytes(b@) == trim_bytes(b@.subrange(lo as int, hi as int)),
            hi == b@.len(),
        decreases hi - lo,
    {
        proof {
            let s = b@.subrange(lo as int, hi as int);
            assert(s.drop_first() =~= b@.subrange(lo as int + 1, hi as int));
        }
        lo = lo + 1;
    }
    while lo < hi && is_ws(*slice_index_get(b, hi - 1))
        invariant
            lo <= hi <= b@.len(),
            trim_bytes(b@) == trim_bytes(b@.subrange(lo as int, hi as int)),
            lo < hi ==> !is_ws_byte(b@[lo as int]),
        decreases hi - lo,
    {
        proof {
            let s = b@.subrange(lo as int, hi as int);
            assert(s.drop_last() =~= b@.subrange(lo as int, hi as int - 1));
        }
        hi = hi - 1;
    }
    (lo, hi)
}

/// Tests a byte for ASCII whitespace.
fn is_ws(b: u8) -> (r: bool)
    ensures
        r == is_ws_byte(b),
{
    b == 32 || b == 9 || b == 10 || b == 13
}

/// True of the bytes that mark a class enabled: `t` or `T`.
pub open spec fn is_t_byte(b: u8) -> bool {
    b == 116 || b == 84
}

/// True of the bytes that mark a class disabled: `f` or `F`.
pub open spec fn is_f_byte(b: u8) -> bool {
    b == 102 || b == 70
}

/// The all-enabled selection that malformed input falls back to.
pub open spec fn default_key() -> Key {
    Key { upper: true, lower: true, num: true, sym: true }
}

/// The selection a raw input line denotes.  A well-formed line has exactly
/// five bytes — four flags and the newline — and after trimming holds at
/// most four `t`/`f` marks, ordered upper, lower, numbers, symbols, with
/// missing trailing marks left enabled.  Anything else falls back to the
/// default, as does `ffff`: a selection without a single class is refused
/// before it could reach the engine.
pub open spec fn parse_key_spec(b: Seq<u8>) -> Key {
    let t = trim_bytes(b);
    if b.len() != 5 {
        default_key()
    } else if t.len() == 4 && (forall|i: int| 0 <= i < 4 ==> is_f_byte(#[trigger] t[i])) {
        default_key()
    } else if t.len() > 4 {
        default_key()
    } else if exists|i: int|
        0 <= i < t.len() && !(is_t_byte(#[trigger] t[i]) || is_f_byte(t[i])) {
        default_key()
    } else {
        Key {
            upper: t.len() <= 0 || is_t_byte(t[0]),
            lower: t.len() <= 1 || is_t_byte(t[1]),
            num: t.len() <= 2 || is_t_byte(t[2]),
            sym: t.len() <= 3 || is_t_byte(t[3]),
        }
    }
}

/// Parses a raw input line into a class selection, falling back to the
/// default selection on malformed input and on the all-disabled `ffff`.
#[verifier::loop_isolation(false)]
pub fn parse_key(s: &str) -> (k: Key)
    ensures
        k == parse_key_spec(encode_utf8(s@)),
{
    let b = s.as_bytes();
    let ghost bs = b@;
    if b.len() != 5 {
        return Key::default();
    }
    let (lo, hi) = trim_range(b);
    let ghost t = trim_bytes(bs);
    let n = hi - lo;
    if n == 4 {
        let all_f = is_f(*slice_index_get(b, lo)) && is_f(*slice_index_get(b, lo + 1)) && is_f(
            *slice_index_get(b, lo + 2),
        ) && is_f(*slice_index_get(b, lo + 3));
        if all_f {
            proof {
                assert(forall|i: int| 0 <= i < 4 ==> is_f_byte(#[trigger] t[i]));
            }
            return Key::default();
        }
        proof {
            assert(t[0] == bs[lo as int]);
            assert(t[1] == bs[lo as int + 1]);
            assert(t[2] == bs[lo as int + 2]);
            assert(t[3] == bs[lo as int + 3]);
        }
    }
    if n > 4 {
        return Key::default();
    }
    let mut i: usize = 0;
    while i < n
        invariant
            lo + n == hi,
            hi <= bs.len(),
            t == bs.subrange(lo as int, hi as int),
            i <= n,
            forall|j: int| 0 <= j < i ==> is_t_byte(#[trigger] t[j]) || is_f_byte(t[j]),
        decreases n - i,
    {
        let c = *slice_index_get(b, lo + i);
        if !(is_t(c) || is_f(c)) {
            proof {
                assert(t[i as int] == c);
            }
            return Key::default();
        }
        i = i + 1;
    }
    let upper = if n > 0 {
        is_t(*slice_index_get(b, lo))
    } else {
        true
    };
    let lower = if n > 1 {
        is_t(*slice_index_get(b, lo + 1))
    } else {
        true
    };
    let num = if n > 2 {
        is_t(*slice_index_get(b, lo + 2))
    } else {
        true
    };
    let sym = if n > 3 {
        is_t(*slice_index_get(b, lo + 3))
    } else {
        true
    };
    Key { upper, lower, num, sym }
}

/// Tests a byte for the `t`/`T` mark.
fn is_t(b: u8) -> (r: bool)
    ensures
        r == is_t_byte(b),
{
    b == 116 || b == 84
}

/// Tests a byte for the `f`/`F` mark.
fn is_f(b: u8) -> (r: bool)
    ensures
        r == is_f_byte(b),
{
    b == 102 || b == 70
}

/// The value of a sequence of decimal digit bytes.
pub open spec fn digits_val(d: Seq<u8>) -> int
    decreases d.len(),
{
    if d.len() == 0 {
        0
    } else {
        digits_val(d.drop_last()) * 10 + (d.last() - 48)
    }
}

/// The digits of a number: the sequence with an optional leading `+`
/// removed.
pub open spec fn sign_stripped(t: Seq<u8>) -> Seq<u8> {
    if t.len() >= 1 && t[0] == 43 {
        t.drop_first()
    } else {
        t
    }
}

/// The number a trimmed byte sequence denotes under unsigned decimal
/// parsing: an optional leading `+`, then only digits, valuing at most
/// 255.
pub open spec fn parse_u8_spec(t: Seq<u8>) -> Option<u8> {
    if sign_stripped(t).len() == 0 {
        Option::None
    } else if exists|i: int|
        0 <= i < sign_stripped(t).len() && !is_digit_byte(#[trigger] sign_stripped(t)[i]) {
        Option::None
    } else if digits_val(sign_stripped(t)) > 255 {
        Option::None
    } else {
        Option::Some(digits_val(sign_stripped(t)) as u8)
    }
}

/// The password length a raw input line denotes: the line trimmed and read
/// as an unsigned number, with the default of 16 for anything malformed or
/// shorter than the minimum length of 4.
pub open spec fn parse_len_spec(b: Seq<u8>) -> u8 {
    match parse_u8_spec(trim_bytes(b)) {
        Option::None => 16,
        Option::Some(v) => if v < 4 {
            16
        } else {
            v
        },
    }
}

/// The value of a digit sequence is nonnegative.
proof fn lemma_digits_val_nonneg(d: Seq<u8>)
    requires
        forall|j: int| 0 <= j < d.len() ==> is_digit_byte(#[trigger] d[j]),
    ensures
        digits_val(d) >= 0,
    decreases d.len(),
{
    if d.len() > 0 {
        assert(forall|j: int|
            0 <= j < d.drop_last().len() ==> is_digit_byte(#[trigger] d.drop_last()[j]));
        lemma_digits_val_nonneg(d.drop_last());
    }
}

/// Reading more digits never shrinks the value: the value of a digit
/// sequence is at least the value of any of its prefixes.
proof fn lemma_digits_val_monotone(d: Seq<u8>, i: int)
    requires
        0 <= i <= d.len(),
        forall|j: int| 0 <= j < d.len() ==> is_digit_byte(#[trigger] d[j]),
    ensures
        digits_val(d) >= digits_val(d.take(i)),
    decreases d.len() - i,
{
    if i < d.len() {
        assert(d.take(i + 1).drop_last() =~= d.take(i));
        assert(forall|j: int| 0 <= j < d.take(i).len() ==> is_digit_byte(#[trigger] d.take(i)[j]));
        lemma_digits_val_nonneg(d.take(i));
        assert(digits_val(d.take(i + 1)) >= digits_val(d.take(i)));
        lemma_digits_val_monotone(d, i + 1);
    } else {
        assert(d.take(i) =~= d);
    }
}

/// Parses a byte sequence as an unsigned decimal number of at most 255:
/// an optional leading `+`, then only digits.
#[verifier::loop_isolation(false)]
pub fn parse_u8_bytes(b: &[u8]) -> (r: Option<u8>)
    ensures
        r == parse_u8_spec(b@),
{
    let ghost t = b@;
    let start: usize = if b.len() >= 1 && *slice_index_get(b, 0) == 43 {
        1
    } else {
        0
    };
    let hi = b.len();
    let ghost d = sign_stripped(t);
    proof {
        assert(d =~= t.subrange(start as int, hi as int));
    }
    if start == hi {
        return None;
    }
    let mut acc: u32 = 0;
    let mut i: usize = start;
    while i < hi
        invariant
            start <= i <= hi,
            start < hi,
            forall|j: int| 0 <= j < i - start ==> is_digit_byte(#[trigger] d[j]),
            acc == digits_val(d.take(i - start)),
            acc <= 255,
        decreases hi - i,
    {
        let c = *slice_index_get(b, i);
        if !(48 <= c && c <= 57) {
            proof {
                assert(d[i - start] == c);
                assert(!is_digit_byte(d[i - start]));
                assert(parse_u8_spec(t) is None);
            }
            return None;
        }
        acc = acc * 10 + ((c - 48) as u32);
        proof {
            assert(d.take(i - start + 1).drop_last() =~= d.take(i - start));
            assert(d.take(i - start + 1).last() == c);
        }
        if acc > 255 {
            proof {
                if forall|j: int| 0 <= j < d.len() ==> is_digit_byte(#[trigger] d[j]) {
                    lemma_digits_val_monotone(d, i - start + 1);
                    assert(digits_val(d) > 255);
                }
                assert(parse_u8_spec(t) is None);
            }
            return None;
        }
        i = i + 1;
    }
    proof {
        assert(d.take(i - start) =~= d);
    }
    Some(acc as u8)
}

/// Parses a raw input line into a password length, with the default of 16
/// for malformed input and for lengths below the minimum of 4.
pub fn parse_len(s: &str) -> (r: u8)
    ensures
        r == parse_len_spec(encode_utf8(s@)),
{
    let b = s.as_bytes();
    let (lo, hi) = trim_range(b);
    match parse_u8_bytes(vstd::slice::slice_subrange(b, lo, hi)) {
        Option::None => 16,
        Option::Some(v) => if v < 4 {
            16
        } else {
            v
        },
    }
}

} // verus!
