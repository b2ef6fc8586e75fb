//! The derivation engine: turns a master secret, a salt, a length and a
//! class selection into a reproducible password.  The secret is run through
//! a memory-hard hash with pinned parameters; the raw digest is read as
//! big-endian 32-bit chunks that index into the legal alphabet; a candidate
//! that does not show exactly the enabled character classes is itself
//! re-hashed until one does.

use vstd::prelude::*;
use vstd::slice::{slice_index_get, slice_subrange, slice_to_vec};
use vstd::string::StringSliceAdditionalSpecFns;
use vstd::utf8::*;

use crate::buffers::{all_ascii_bytes, ascii_of_chars, chars_of_ascii, lemma_ascii_decode,
    lemma_encode_injective, string_from_utf8, wipe_bytes, wipe_string};
use crate::characters::{alphabet, get_pass_building_chars, is_digit_char, is_lower_char,
    is_symbol_char, is_upper_char, key_enables_some_class, Key};

verus! {

/// Memory cost of the derivation hash, in KiB.  Pinned: changing it would
/// invalidate every previously derived password.
pub const DERIVE_MEM_COST: u32 = 16384;

/// Pass count of the derivation hash.  Pinned like the memory cost.
pub const DERIVE_TIME_COST: u32 = 4;

/// Lane count of the derivation hash.  Pinned like the memory cost.
pub const DERIVE_LANES: u32 = 8;

/// Bytes of raw digest consumed per generated password character.
pub const HASH_BYTES_PER_GENERATED_PASS_CHAR: u32 = 4;

/// Cap on the rejection-sampling rounds.  A candidate that misses an
/// enabled class is re-hashed; for any selection with at least one class
/// the chance of exhausting this many rounds is negligible, but the cap
/// gives the loop a defined fatal outcome instead of running unbounded.
pub const DERIVE_MAX_ATTEMPTS: u32 = 1024;

/// Why a derivation was refused.  Each variant names the input that the
/// hash configuration cannot accept; the engine fails fast rather than
/// falling back to a weaker password.
#[derive(Clone, Copy, PartialEq, Eq, Structural, Debug)]
pub enum DeriveError {
    /// The secret's byte length exceeds what the hash accepts.
    SecretTooLong,
    /// The salt is shorter than the eight bytes the hash requires.
    SaltTooShort,
    /// The salt's byte length exceeds what the hash accepts.
    SaltTooLong,
    /// No candidate matched the selection within the sampling cap.
    RetriesExhausted,
}

/// The parameter ranges under which the hash accepts a configuration.
pub open spec fn params_ok(mem_cost: u32, time_cost: u32, lanes: u32, out_len: u32) -> bool {
    &&& 1 <= lanes <= 0xFFFFFF
    &&& mem_cost >= 8 * lanes
    &&& 8 <= mem_cost <= 0x200000
    &&& time_cost >= 1
    &&& out_len >= 4
}

/// The input lengths under which the hash accepts a password and a salt.
pub open spec fn inputs_ok(pwd_len: int, salt_len: int) -> bool {
    &&& pwd_len <= 0xFFFFFFFF
    &&& 8 <= salt_len <= 0xFFFFFFFF
}

/// The raw Argon2id (version 0x13) digest of a password and salt under the
/// given memory cost, time cost, lane count and output length.  The digest
/// is a function of exactly these arguments; this name stands for it.
pub uninterp spec fn argon2id_digest(
    pwd: Seq<u8>,
    salt: Seq<u8>,
    mem_cost: u32,
    time_cost: u32,
    lanes: u32,
    out_len: u32,
) -> Seq<u8>;

/// Computes the raw Argon2id digest.
///
/// Relies on argon2::hash_raw of the rust-argon2 crate, with the Argon2id
/// variant, version 0x13, no secret and no associated data: it returns a
/// digest of exactly `out_len` bytes that depends on nothing but the
/// arguments, and it succeeds whenever the configuration and the input
/// lengths are within the ranges its `Context::new` admits (`params_ok`
/// and `inputs_ok`).
#[verifier::external_body]
fn argon2id_raw(
    pwd: &[u8],
    salt: &[u8],
    mem_cost: u32,
    time_cost: u32,
    lanes: u32,
    out_len: u32,
) -> (r: Option<Vec<u8>>)
    ensures
        r is Some ==> r.unwrap()@ == argon2id_digest(pwd@, salt@, mem_cost, time_cost, lanes,
            out_len) && r.unwrap()@.len() == out_len,
        params_ok(mem_cost, time_cost, lanes, out_len) && inputs_ok(
            pwd@.len() as int,
            salt@.len() as int,
        ) ==> r is Some,
{
    let config = argon2::Config {
        ad: &[],
        hash_length: out_len,
        lanes,
        mem_cost,
        secret: &[],
        thread_mode: argon2::ThreadMode::Parallel,
        time_cost,
        variant: argon2::Variant::Argon2id,
        version: argon2::Version::Version13,
    };
    argon2::hash_raw(pwd, salt, &config).ok()
}

/// The digest the engine uses: the pinned derivation parameters applied to
/// a secret, a salt and an output length.
pub open spec fn derive_digest(secret: Seq<u8>, salt: Seq<u8>, out_len: u32) -> Seq<u8> {
    argon2id_digest(secret, salt, DERIVE_MEM_COST, DERIVE_TIME_COST, DERIVE_LANES, out_len)
}

/// The big-endian 32-bit value of four bytes.
pub open spec fn be_u32(b: Seq<u8>) -> int
    recommends
        b.len() == 4,
{
    b[0] * 0x1000000 + b[1] * 0x10000 + b[2] * 0x100 + b[3]
}

/// The candidate password bytes read off a digest: each consecutive 4-byte
/// chunk, taken big-endian and reduced modulo the alphabet size, indexes
/// into the alphabet.
pub open spec fn password_bytes_of_digest(digest: Seq<u8>, alpha: Seq<u8>) -> Seq<u8>
    recommends
        alpha.len() >= 1,
{
    Seq::new(digest.len() / 4, |i: int| alpha[be_u32(digest.subrange(4 * i, 4 * i + 4)) % (
    alpha.len() as int)])
}

/// True of the bytes of lowercase letters.
pub open spec fn is_lower_byte(b: u8) -> bool {
    97 <= b <= 122
}

/// True of the bytes of uppercase letters.
pub open spec fn is_upper_byte(b: u8) -> bool {
    65 <= b <= 90
}

/// True of the bytes of decimal digits.
pub open spec fn is_digit_byte(b: u8) -> bool {
    48 <= b <= 57
}

/// True of the bytes of the symbol class: printable ASCII, space included,
/// that is neither a letter nor a digit.
pub open spec fn is_symbol_byte(b: u8) -> bool {
    32 <= b <= 126 && !is_lower_byte(b) && !is_upper_byte(b) && !is_digit_byte(b)
}

/// Exact class match, stated over password bytes: a class occurs in the
/// password if and only if the selection enables it.
pub open spec fn pass_matches_key(p: Seq<u8>, k: Key) -> bool {
    &&& k.lower == exists|i: int| 0 <= i < p.len() && is_lower_byte(#[trigger] p[i])
    &&& k.upper == exists|i: int| 0 <= i < p.len() && is_upper_byte(#[trigger] p[i])
    &&& k.num == exists|i: int| 0 <= i < p.len() && is_digit_byte(#[trigger] p[i])
    &&& k.sym == exists|i: int| 0 <= i < p.len() && is_symbol_byte(#[trigger] p[i])
}

/// Exact class match, stated over the password's characters.
pub open spec fn pass_matches_key_chars(p: Seq<char>, k: Key) -> bool {
    &&& k.lower == exists|i: int| 0 <= i < p.len() && is_lower_char(#[trigger] p[i])
    &&& k.upper == exists|i: int| 0 <= i < p.len() && is_upper_char(#[trigger] p[i])
    &&& k.num == exists|i: int| 0 <= i < p.len() && is_digit_char(#[trigger] p[i])
    &&& k.sym == exists|i: int| 0 <= i < p.len() && is_symbol_char(#[trigger] p[i])
}

/// The chain of candidate passwords that rejection sampling walks: the
/// first candidate is read off the digest of the secret; after a rejection
/// the candidate itself is re-hashed with the same salt and parameters.
pub open spec fn candidate(secret: Seq<u8>, salt: Seq<u8>, pass_len: u8, k: Key, i: nat) -> Seq<
    u8,
>
    decreases i,
{
    if i == 0 {
        password_bytes_of_digest(
            derive_digest(secret, salt, (4 * pass_len) as u32),
            ascii_of_chars(alphabet(k)),
        )
    } else {
        password_bytes_of_digest(
            derive_digest(
                candidate(secret, salt, pass_len, k, (i - 1) as nat),
                salt,
                (4 * pass_len) as u32,
            ),
            ascii_of_chars(alphabet(k)),
        )
    }
}

/// True when the chain's candidate at step `i` is the first to match the
/// selection exactly.
pub open spec fn first_match_at(secret: Seq<u8>, salt: Seq<u8>, pass_len: u8, k: Key, i: nat) -> bool {
    &&& pass_matches_key(candidate(secret, salt, pass_len, k, i), k)
    &&& forall|j: nat| j < i ==> !pass_matches_key(
        #[trigger] candidate(secret, salt, pass_len, k, j),
        k,
    )
}

/// True when `out` is the password that the derivation of (secret, salt,
/// pass_len, selection) arrives at: the first matching candidate of the
/// chain.
pub open spec fn derives_to(secret: Seq<u8>, salt: Seq<u8>, pass_len: u8, k: Key, out: Seq<u8>) -> bool {
    exists|i: nat|
        #[trigger] first_match_at(secret, salt, pass_len, k, i) && out == candidate(
            secret,
            salt,
            pass_len,
            k,
            i,
        )
}

/// Determinism of the chain: the derivation relation admits at most one
/// password for given inputs.
pub proof fn lemma_derive_deterministic(
    secret: Seq<u8>,
    salt: Seq<u8>,
    pass_len: u8,
    k: Key,
    p1: Seq<u8>,
    p2: Seq<u8>,
)
    requires
        derives_to(secret, salt, pass_len, k, p1),
        derives_to(secret, salt, pass_len, k, p2),
    ensures
        p1 == p2,
{
    let i1 = choose|i: nat|
        #[trigger] first_match_at(secret, salt, pass_len, k, i) && p1 == candidate(
            secret,
            salt,
            pass_len,
            k,
            i,
        );
    let i2 = choose|i: nat|
        #[trigger] first_match_at(secret, salt, pass_len, k, i) && p2 == candidate(
            secret,
            salt,
            pass_len,
            k,
            i,
        );
    if i1 < i2 {
        assert(!pass_matches_key(candidate(secret, salt, pass_len, k, i1), k));
    }
    if i2 < i1 {
        assert(!pass_matches_key(candidate(secret, salt, pass_len, k, i2), k));
    }
}

/// Copies four bytes of a chunk into an array.
pub fn chunk_to_arr(chunk: &[u8]) -> (arr: [u8; 4])
    requires
        chunk@.len() == 4,
    ensures
        arr@ == chunk@,
{
    let arr: [u8; 4] = [
        *slice_index_get(chunk, 0),
        *slice_index_get(chunk, 1),
        *slice_index_get(chunk, 2),
        *slice_index_get(chunk, 3),
    ];
    proof {
        assert(arr@ =~= chunk@);
    }
    arr
}

/// Tests whether a candidate password has exactly the classes the selection
/// enables: at least one byte of every enabled class, none of a disabled
/// class.
pub fn guarantee_pass_property(pass: &[u8], key: &Key) -> (r: bool)
    ensures
        r == pass_matches_key(pass@, *key),
{
    let n = pass.len();
    let mut has_lower = false;
    let mut has_upper = false;
    let mut has_num = false;
    let mut has_sym = false;
    let mut i: usize = 0;
    while i < n
        invariant
            n == pass@.len(),
            i <= n,
            has_lower == exists|j: int| 0 <= j < i && is_lower_byte(#[trigger] pass@[j]),
            has_upper == exists|j: int| 0 <= j < i && is_upper_byte(#[trigger] pass@[j]),
            has_num == exists|j: int| 0 <= j < i && is_digit_byte(#[trigger] pass@[j]),
            has_sym == exists|j: int| 0 <= j < i && is_symbol_byte(#[trigger] pass@[j]),
        decreases n - i,
    {
        let b = *slice_index_get(pass, i);
        if 97 <= b && b <= 122 {
            has_lower = true;
        } else if 65 <= b && b <= 90 {
            has_upper = true;
        } else if 48 <= b && b <= 57 {
            has_num = true;
        } else if 32 <= b && b <= 126 {
            has_sym = true;
        }
        i = i + 1;
    }
    has_lower == key.lower && has_upper == key.upper && has_num == key.num && has_sym == key.sym
}

/// One round of the sampling loop: hashes the current secret, wipes it, and
/// reads the next candidate password off the digest.
pub fn argon2_loop(password: &mut Vec<u8>, salt: &[u8], pass_len: u8, legal_chars: &Vec<u8>) -> (r:
    Result<Vec<u8>, DeriveError>)
    requires
        pass_len >= 1,
        1 <= legal_chars@.len() <= 0xFFFFFFFF,
    ensures
        final(password)@.len() == 0,
        r is Ok <==> inputs_ok(old(password)@.len() as int, salt@.len() as int),
        r is Ok ==> r.unwrap()@ == password_bytes_of_digest(
            derive_digest(old(password)@, salt@, (4 * pass_len) as u32),
            legal_chars@,
        ) && r.unwrap()@.len() == pass_len,
        r is Err ==> r == Result::<Vec<u8>, DeriveError>::Err(derive_input_error(
            old(password)@.len() as int,
            salt@.len() as int,
        )),
{
    if password.len() > 0xFFFFFFFF_usize {
        wipe_bytes(password);
        return Err(DeriveError::SecretTooLong);
    }
    if salt.len() < 8 {
        wipe_bytes(password);
        return Err(DeriveError::SaltTooShort);
    }
    if salt.len() > 0xFFFFFFFF_usize {
        wipe_bytes(password);
        return Err(DeriveError::SaltTooLong);
    }
    let out_len: u32 = HASH_BYTES_PER_GENERATED_PASS_CHAR * (pass_len as u32);
    let digest = argon2id_raw(
        password.as_slice(),
        salt,
        DERIVE_MEM_COST,
        DERIVE_TIME_COST,
        DERIVE_LANES,
        out_len,
    ).unwrap();
    wipe_bytes(password);
    let ghost spec_pass = password_bytes_of_digest(digest@, legal_chars@);
    let alpha_len: u32 = legal_chars.len() as u32;
    let count = (pass_len as usize);
    let mut out: Vec<u8> = Vec::new();
    let mut i: usize = 0;
    while i < count
        invariant
            count == pass_len,
            digest@.len() == 4 * count,
            1 <= alpha_len,
            alpha_len == legal_chars@.len(),
            spec_pass == password_bytes_of_digest(digest@, legal_chars@),
            i <= count,
            out@ =~= spec_pass.take(i as int),
        decreases count - i,
    {
        let chunk = chunk_to_arr(slice_subrange(digest.as_slice(), 4 * i, 4 * i + 4));
        let val: u32 = (chunk[0] as u32) * 0x1000000 + (chunk[1] as u32) * 0x10000 + (
        chunk[2] as u32) * 0x100 + (chunk[3] as u32);
        let idx = (val % alpha_len) as usize;
        out.push(legal_chars[idx]);
        proof {
            assert(chunk@ == digest@.subrange(4 * i as int, 4 * i as int + 4));
            assert(val == be_u32(digest@.subrange(4 * i as int, 4 * i as int + 4)));
            assert(out@ =~= spec_pass.take(i as int + 1));
        }
        i = i + 1;
    }
    proof {
        assert(out@ =~= spec_pass);
    }
    Ok(out)
}

/// Class membership is the same whether a password is read as ASCII bytes
/// or as the characters they decode to.
pub proof fn lemma_matches_ascii_bridge(b: Seq<u8>, k: Key)
    requires
        all_ascii_bytes(b),
    ensures
        pass_matches_key(b, k) == pass_matches_key_chars(chars_of_ascii(b), k),
{
    let cs = chars_of_ascii(b);
    assert forall|i: int| 0 <= i < b.len() implies {
        &&& is_lower_byte(#[trigger] b[i]) == is_lower_char(cs[i])
        &&& is_upper_byte(b[i]) == is_upper_char(cs[i])
        &&& is_digit_byte(b[i]) == is_digit_char(cs[i])
        &&& is_symbol_byte(b[i]) == is_symbol_char(cs[i])
    } by {
        assert(cs[i] == b[i] as char);
        assert(cs[i] as u32 == b[i]);
    }
    assert forall|i: int| 0 <= i < cs.len() implies {
        &&& is_lower_byte(b[i]) == is_lower_char(#[trigger] cs[i])
        &&& is_upper_byte(b[i]) == is_upper_char(cs[i])
        &&& is_digit_byte(b[i]) == is_digit_char(cs[i])
        &&& is_symbol_byte(b[i]) == is_symbol_char(cs[i])
    } by {
        assert(cs[i] == b[i] as char);
        assert(cs[i] as u32 == b[i]);
    }
}

/// Every byte of a candidate read off a digest is drawn from the alphabet.
pub proof fn lemma_password_bytes_membership(digest: Seq<u8>, alpha: Seq<u8>)
    requires
        alpha.len() >= 1,
    ensures
        forall|i: int|
            0 <= i < password_bytes_of_digest(digest, alpha).len() ==> alpha.contains(
                #[trigger] password_bytes_of_digest(digest, alpha)[i],
            ),
{
    let p = password_bytes_of_digest(digest, alpha);
    assert forall|i: int| 0 <= i < p.len() implies alpha.contains(p[i]) by {
        let idx = be_u32(digest.subrange(4 * i, 4 * i + 4)) % (alpha.len() as int);
        assert(0 <= idx < alpha.len());
        assert(p[i] == alpha[idx]);
    }
}

/// Bytes drawn from a selection's alphabet are ASCII, and decoded as ASCII
/// they are characters of that alphabet.
pub proof fn lemma_alphabet_bytes_to_chars(b: Seq<u8>, k: Key)
    requires
        forall|i: int|
            0 <= i < b.len() ==> ascii_of_chars(alphabet(k)).contains(#[trigger] b[i]),
    ensures
        all_ascii_bytes(b),
        forall|i: int|
            0 <= i < b.len() ==> alphabet(k).contains(#[trigger] chars_of_ascii(b)[i]),
{
    crate::characters::lemma_alphabet_ascii(k);
    let a = alphabet(k);
    let alpha = ascii_of_chars(a);
    assert forall|i: int| 0 <= i < b.len() implies b[i] < 128 by {
        let j = choose|j: int| 0 <= j < alpha.len() && alpha[j] == b[i];
        assert(alpha[j] == a[j] as u8);
        assert((a[j] as u32) < 128);
    }
    assert forall|i: int| 0 <= i < b.len() implies a.contains(#[trigger] chars_of_ascii(b)[i]) by {
        let j = choose|j: int| 0 <= j < alpha.len() && alpha[j] == b[i];
        assert(a[j] as u8 == b[i]);
        assert((a[j] as u32) < 128);
        assert(chars_of_ascii(b)[i] == b[i] as char);
        assert(chars_of_ascii(b)[i] as u32 == a[j] as u32);
        char_u32_cast(a[j], a[j] as u32);
        char_u32_cast(chars_of_ascii(b)[i], chars_of_ascii(b)[i] as u32);
        assert(chars_of_ascii(b)[i] == a[j]);
    }
}

/// Converts a vector of ASCII characters into their byte codes.
pub fn ascii_codes(chars: &Vec<char>) -> (v: Vec<u8>)
    requires
        forall|i: int| 0 <= i < chars@.len() ==> #[trigger] (chars@[i] as u32) < 128,
    ensures
        v@ == ascii_of_chars(chars@),
{
    let n = chars.len();
    let mut v: Vec<u8> = Vec::new();
    let mut i: usize = 0;
    while i < n
        invariant
            n == chars@.len(),
            i <= n,
            forall|j: int| 0 <= j < n ==> #[trigger] (chars@[j] as u32) < 128,
            v@ =~= ascii_of_chars(chars@).take(i as int),
        decreases n - i,
    {
        v.push(chars[i] as u8);
        proof {
            assert(v@ =~= ascii_of_chars(chars@).take(i as int + 1));
        }
        i = i + 1;
    }
    proof {
        assert(v@ =~= ascii_of_chars(chars@));
    }
    v
}

/// Derives the password for a service: hashes the secret with the pinned
/// parameters, reads a candidate off the digest, and re-hashes rejected
/// candidates until one shows exactly the enabled character classes.  The
/// secret buffer is wiped before the function returns, on every path.
///
/// The result is the unique password that the sampling chain of the inputs
/// arrives at: every character is drawn from the selection's alphabet, the
/// length is exactly `pass_len`, and every enabled class occurs while no
/// disabled one does.  Derivation is refused exactly when the hash cannot
/// accept the secret's or the salt's byte length.
#[verifier::loop_isolation(false)]
#[verifier::rlimit(60)]
pub fn generate_pass(password: &mut String, salt: &[u8], pass_len: u8, key: Key) -> (r: Result<
    String,
    DeriveError,
>)
    requires
        pass_len >= 1,
        key_enables_some_class(key),
    ensures
        final(password)@.len() == 0,
        r is Ok <==> inputs_ok(encode_utf8(old(password)@).len() as int, salt@.len() as int)
            && exists|i: nat|
            i < DERIVE_MAX_ATTEMPTS && #[trigger] first_match_at(
                encode_utf8(old(password)@),
                salt@,
                pass_len,
                key,
                i,
            ),
        r is Err && !inputs_ok(encode_utf8(old(password)@).len() as int, salt@.len() as int)
            ==> r == Result::<String, DeriveError>::Err(derive_input_error(
            encode_utf8(old(password)@).len() as int,
            salt@.len() as int,
        )),
        r is Err && inputs_ok(encode_utf8(old(password)@).len() as int, salt@.len() as int)
            ==> r == Result::<String, DeriveError>::Err(DeriveError::RetriesExhausted),
        r is Ok ==> derives_to(encode_utf8(old(password)@), salt@, pass_len, key, encode_utf8(
            r.unwrap()@,
        )),
        r is Ok ==> r.unwrap()@.len() == pass_len,
        r is Ok ==> pass_matches_key_chars(r.unwrap()@, key),
        r is Ok ==> forall|i: int|
            0 <= i < r.unwrap()@.len() ==> alphabet(key).contains(#[trigger] r.unwrap()@[i]),
{
    let alpha_chars = get_pass_building_chars(&key);
    proof {
        crate::characters::lemma_alphabet_ascii(key);
    }
    let legal_chars = ascii_codes(&alpha_chars);
    let mut secret: Vec<u8> = slice_to_vec(password.as_str().as_bytes());
    wipe_string(password);
    let ghost secret0 = secret@;
    let ghost alpha = legal_chars@;
    let first = argon2_loop(&mut secret, salt, pass_len, &legal_chars);
    let mut cand = match first {
        Ok(c) => c,
        Err(e) => {
            return Err(e);
        },
    };
    let mut tries: u32 = 0;
    let ghost mut step: nat = 0;
    while tries < DERIVE_MAX_ATTEMPTS
        invariant
            pass_len >= 1,
            key_enables_some_class(key),
            legal_chars@ == alpha,
            alpha == ascii_of_chars(alphabet(key)),
            1 <= alpha.len() <= 95,
            forall|i: int| 0 <= i < alpha.len() ==> 32 <= #[trigger] alpha[i] <= 126,
            inputs_ok(secret0.len() as int, salt@.len() as int),
            step == tries,
            tries <= DERIVE_MAX_ATTEMPTS,
            cand@ == candidate(secret0, salt@, pass_len, key, step),
            cand@.len() == pass_len,
            forall|j: nat|
                j < step ==> !pass_matches_key(
                    #[trigger] candidate(secret0, salt@, pass_len, key, j),
                    key,
                ),
        decreases DERIVE_MAX_ATTEMPTS - tries,
    {
        if guarantee_pass_property(cand.as_slice(), &key) {
            proof {
                assert(first_match_at(secret0, salt@, pass_len, key, step));
                if step == 0 {
                    lemma_password_bytes_membership(
                        derive_digest(secret0, salt@, (4 * pass_len) as u32),
                        alpha,
                    );
                } else {
                    lemma_password_bytes_membership(
                        derive_digest(
                            candidate(secret0, salt@, pass_len, key, (step - 1) as nat),
                            salt@,
                            (4 * pass_len) as u32,
                        ),
                        alpha,
                    );
                }
                lemma_alphabet_bytes_to_chars(cand@, key);
                lemma_ascii_decode(cand@);
                lemma_matches_ascii_bridge(cand@, key);
            }
            let ghost cand_bytes = cand@;
            let out = match string_from_utf8(cand) {
                Some(s) => s,
                None => {
                    proof {
                        assert(false);
                    }
                    return Err(DeriveError::SaltTooShort);
                },
            };
            proof {
                assert(out@ == chars_of_ascii(cand_bytes));
                assert(encode_utf8(out@) == cand_bytes);
                assert(derives_to(secret0, salt@, pass_len, key, cand_bytes));
            }
            return Ok(out);
        }
        let next = argon2_loop(&mut cand, salt, pass_len, &legal_chars);
        cand = match next {
            Ok(c) => c,
            Err(e) => {
                proof {
                    assert(false);
                }
                return Err(e);
            },
        };
        tries = tries + 1;
        proof {
            step = step + 1;
        }
    }
    wipe_bytes(&mut cand);
    proof {
        assert forall|i: nat|
            i < DERIVE_MAX_ATTEMPTS implies !first_match_at(secret0, salt@, pass_len, key, i) by {
            assert(!pass_matches_key(candidate(secret0, salt@, pass_len, key, i), key));
        }
    }
    Err(DeriveError::RetriesExhausted)
}

/// Determinism of derivation: two derived passwords that both stand in the
/// derivation relation of the same secret, salt, length and selection are
/// the same text.
pub proof fn lemma_generate_pass_deterministic(
    secret: Seq<char>,
    salt: Seq<u8>,
    pass_len: u8,
    k: Key,
    p1: Seq<char>,
    p2: Seq<char>,
)
    requires
        derives_to(encode_utf8(secret), salt, pass_len, k, encode_utf8(p1)),
        derives_to(encode_utf8(secret), salt, pass_len, k, encode_utf8(p2)),
    ensures
        p1 == p2,
{
    lemma_derive_deterministic(
        encode_utf8(secret),
        salt,
        pass_len,
        k,
        encode_utf8(p1),
        encode_utf8(p2),
    );
    lemma_encode_injective(p1, p2);
}

/// The error that the engine reports for given input lengths, in the order
/// the hash's own validation tests them.
pub open spec fn derive_input_error(pwd_len: int, salt_len: int) -> DeriveError
    recommends
        !inputs_ok(pwd_len, salt_len),
{
    if pwd_len > 0xFFFFFFFF {
        DeriveError::SecretTooLong
    } else if salt_len < 8 {
        DeriveError::SaltTooShort
    } else {
        DeriveError::SaltTooLong
    }
}

} // verus!
