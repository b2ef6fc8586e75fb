//! The credential store and the authenticator that gates access to the
//! derivation engine.  A first-time username is registered after its
//! password is confirmed; a failed confirmation leaves no row behind.  A
//! returning username is accepted exactly when the memory-hard hash of the
//! offered password under the stored salt equals the stored hash.

use vstd::prelude::*;
use vstd::string::StringSliceAdditionalSpecFns;
use vstd::utf8::*;

use crate::buffers::{str_eq, wipe_string};
use rand::distributions::DistString;

verus! {

/// One credential row: a unique username, the encoded password hash, and
/// the salt the hash was computed with.
pub struct Credential {
    pub username: String,
    pub password_hash: String,
    pub password_salt: String,
}

/// Why the store refused to insert a credential.
#[derive(Clone, Copy, PartialEq, Eq, Structural, Debug)]
pub enum StoreError {
    /// A row with this username already exists.
    DuplicateUser,
    /// The salt's byte length is outside what the authentication hash
    /// accepts, so a row with it could never be verified.
    InvalidSalt,
}

/// A salt the authentication hash accepts: at least eight bytes.
pub open spec fn valid_salt(s: Seq<char>) -> bool {
    8 <= encode_utf8(s).len() <= 0xFFFFFFFF
}

/// True of ASCII alphanumeric characters.
pub open spec fn is_alnum_char(c: char) -> bool {
    ||| 48 <= c as u32 <= 57
    ||| 65 <= c as u32 <= 90
    ||| 97 <= c as u32 <= 122
}

/// The encoded Argon2 tag that the authenticator computes for a password
/// and salt under its pinned parameter set.  The tag is a function of
/// exactly the password and salt bytes; this name stands for it.
pub uninterp spec fn auth_tag(pwd: Seq<u8>, salt: Seq<u8>) -> Seq<char>;

/// Computes the encoded authentication tag of a password under a salt.
///
/// Relies on argon2::hash_encoded of the rust-argon2 crate with the
/// crate's default configuration, a parameter set pinned independently of
/// the derivation engine's: the encoded result depends on nothing but the
/// password and salt bytes, and the call accepts every password of at most
/// 0xFFFFFFFF bytes with a salt of 8 to 0xFFFFFFFF bytes.
#[verifier::external_body]
fn argon2_hash_encoded(pwd: &[u8], salt: &[u8]) -> (r: Option<String>)
    ensures
        r is Some ==> r.unwrap()@ == auth_tag(pwd@, salt@),
        crate::generator::inputs_ok(pwd@.len() as int, salt@.len() as int) ==> r is Some,
{
    argon2::hash_encoded(pwd, salt, &argon2::Config::default()).ok()
}

/// Draws a fresh random salt of `len` ASCII alphanumeric characters.
///
/// Relies on rand's `Alphanumeric` distribution sampled from the thread
/// rng: the result has exactly `len` characters, each drawn from its ASCII
/// alphanumeric charset; nothing else is promised of a random value.
#[verifier::external_body]
fn sample_alnum(len: usize) -> (r: String)
    ensures
        r@.len() == len,
        forall|i: int| 0 <= i < r@.len() ==> is_alnum_char(#[trigger] r@[i]),
        is_ascii_chars(r@),
{
    rand::distributions::Alphanumeric.sample_string(&mut rand::thread_rng(), len)
}

/// The credential store: a set of rows keyed by username.  Rows are
/// created by first-time registration, never updated, and deleted only to
/// roll back an unconfirmed registration.
pub struct CredStore {
    rows: Vec<Credential>,
}

impl CredStore {
    /// Well-formedness: usernames are unique keys, and every stored salt
    /// is one the authentication hash accepts.
    pub closed spec fn wf(self) -> bool {
        &&& forall|i: int, j: int|
            0 <= i < j < self.rows.len() ==> #[trigger] self.rows[i].username@
                != #[trigger] self.rows[j].username@
        &&& forall|i: int|
            0 <= i < self.rows.len() ==> valid_salt(#[trigger] self.rows[i].password_salt@)
    }

    /// True when a row for this username exists.
    pub closed spec fn has_user(self, u: Seq<char>) -> bool {
        exists|i: int| 0 <= i < self.rows.len() && #[trigger] self.rows[i].username@ == u
    }

    /// The index of the row for a username.
    spec fn index_of(self, u: Seq<char>) -> int {
        choose|i: int| 0 <= i < self.rows.len() && #[trigger] self.rows[i].username@ == u
    }

    /// The stored hash of a username's row.
    pub closed spec fn hash_of(self, u: Seq<char>) -> Seq<char> {
        self.rows[self.index_of(u)].password_hash@
    }

    /// The stored salt of a username's row.
    pub closed spec fn salt_of(self, u: Seq<char>) -> Seq<char> {
        self.rows[self.index_of(u)].password_salt@
    }

    /// A row determines the lookup results: in a well-formed store the
    /// username of row `i` is found at row `i`.
    proof fn lemma_row_lookup(self, i: int)
        requires
            self.wf(),
            0 <= i < self.rows.len(),
        ensures
            self.has_user(self.rows[i].username@),
            self.hash_of(self.rows[i].username@) == self.rows[i].password_hash@,
            self.salt_of(self.rows[i].username@) == self.rows[i].password_salt@,
    {
        let u = self.rows[i].username@;
        assert(self.has_user(u));
        let j = self.index_of(u);
        if i < j {
            assert(self.rows[i].username@ != self.rows[j].username@);
        }
        if j < i {
            assert(self.rows[j].username@ != self.rows[i].username@);
        }
    }

    /// An empty store.
    pub fn new() -> (s: CredStore)
        ensures
            s.wf(),
            forall|u: Seq<char>| !s.has_user(u),
    {
        CredStore { rows: Vec::new() }
    }

    /// Finds the row index of a username.
    fn find(&self, username: &str) -> (r: Option<usize>)
        ensures
            r is Some <==> self.has_user(username@),
            r is Some ==> 0 <= r.unwrap() < self.rows@.len() && self.rows@[
                r.unwrap() as int
            ].username@ == username@,
    {
        let n = self.rows.len();
        let mut i: usize = 0;
        while i < n
            invariant
                n == self.rows@.len(),
                i <= n,
                forall|j: int| 0 <= j < i ==> #[trigger] self.rows@[j].username@ != username@,
            decreases n - i,
        {
            if str_eq(self.rows[i].username.as_str(), username) {
                return Some(i);
            }
            i = i + 1;
        }
        proof {
            assert(!self.has_user(username@));
        }
        None
    }

    /// True when a row for this username exists.
    pub fn contains(&self, username: &str) -> (r: bool)
        ensures
            r == self.has_user(username@),
    {
        self.find(username).is_some()
    }

    /// Looks a username up and hands back its stored hash and salt.
    pub fn select_by_key(&self, username: &str) -> (r: Option<(String, String)>)
        requires
            self.wf(),
        ensures
            r is Some <==> self.has_user(username@),
            r is Some ==> r.unwrap().0@ == self.hash_of(username@) && r.unwrap().1@
                == self.salt_of(username@),
    {
        match self.find(username) {
            Some(i) => {
                proof {
                    self.lemma_row_lookup(i as int);
                }
                Some((self.rows[i].password_hash.clone(), self.rows[i].password_salt.clone()))
            },
            None => None,
        }
    }

    /// Inserts a credential under a username not yet present.  Fails on a
    /// duplicate key — the expected signal that the username exists — and
    /// on a salt the authentication hash could never verify.
    pub fn insert_unique(&mut self, cred: Credential) -> (r: Result<(), StoreError>)
        requires
            old(self).wf(),
        ensures
            final(self).wf(),
            r is Ok <==> !old(self).has_user(cred.username@) && valid_salt(cred.password_salt@),
            old(self).has_user(cred.username@) ==> r == Result::<(), StoreError>::Err(
                StoreError::DuplicateUser,
            ),
            !old(self).has_user(cred.username@) && !valid_salt(cred.password_salt@) ==> r
                == Result::<(), StoreError>::Err(StoreError::InvalidSalt),
            r is Err ==> *final(self) == *old(self),
            r is Ok ==> final(self).has_user(cred.username@) && final(self).hash_of(
                cred.username@,
            ) == cred.password_hash@ && final(self).salt_of(cred.username@)
                == cred.password_salt@,
            r is Ok ==> forall|u: Seq<char>|
                u != cred.username@ ==> #[trigger] final(self).has_user(u) == old(self).has_user(
                    u,
                ) && (old(self).has_user(u) ==> final(self).hash_of(u) == old(self).hash_of(u)
                    && final(self).salt_of(u) == old(self).salt_of(u)),
    {
        if self.contains(cred.username.as_str()) {
            return Err(StoreError::DuplicateUser);
        }
        let salt_bytes = cred.password_salt.as_str().as_bytes().len();
        if salt_bytes < 8 || salt_bytes > 0xFFFFFFFF_usize {
            return Err(StoreError::InvalidSalt);
        }
        let ghost pre = *self;
        let ghost c = cred;
        self.rows.push(cred);
        proof {
            assert(self.rows@ == pre.rows@.push(c));
            let n = pre.rows@.len() as int;
            assert(self.rows@[n] == c);
            assert(forall|i: int| 0 <= i < n ==> self.rows@[i] == pre.rows@[i]);
            assert(forall|i: int| 0 <= i < n ==> #[trigger] self.rows@[i].username@ != c.username@);
            assert(valid_salt(c.password_salt@));
            assert forall|i: int, j: int|
                0 <= i < j < self.rows@.len() implies #[trigger] self.rows@[i].username@
                != #[trigger] self.rows@[j].username@ by {
                if j < n {
                    assert(pre.rows@[i].username@ != pre.rows@[j].username@);
                } else {
                    assert(self.rows@[j] == c);
                }
            }
            assert forall|i: int|
                0 <= i < self.rows@.len() implies valid_salt(
                #[trigger] self.rows@[i].password_salt@,
            ) by {
                if i < n {
                    assert(valid_salt(pre.rows@[i].password_salt@));
                } else {
                    assert(self.rows@[i] == c);
                }
            }
            assert(self.wf());
            self.lemma_row_lookup(n);
            assert forall|u: Seq<char>| u != c.username@ implies #[trigger] self.has_user(u)
                == pre.has_user(u) && (pre.has_user(u) ==> self.hash_of(u) == pre.hash_of(u)
                && self.salt_of(u) == pre.salt_of(u)) by {
                if pre.has_user(u) {
                    let i = choose|i: int|
                        0 <= i < pre.rows@.len() && #[trigger] pre.rows@[i].username@ == u;
                    assert(self.rows@[i].username@ == u);
                    assert(self.has_user(u));
                    pre.lemma_row_lookup(i);
                    self.lemma_row_lookup(i);
                }
                if self.has_user(u) {
                    let i = choose|i: int|
                        0 <= i < self.rows@.len() && #[trigger] self.rows@[i].username@ == u;
                    assert(i != n);
                    assert(pre.rows@[i].username@ == u);
                    assert(pre.has_user(u));
                }
            }
        }
        Ok(())
    }

    /// Deletes the row of a username, if one exists; reports whether one
    /// did.  The rollback of an unconfirmed registration.
    pub fn delete_by_key(&mut self, username: &str) -> (r: bool)
        requires
            old(self).wf(),
        ensures
            final(self).wf(),
            r == old(self).has_user(username@),
            !final(self).has_user(username@),
            forall|u: Seq<char>|
                u != username@ ==> #[trigger] final(self).has_user(u) == old(self).has_user(u)
                    && (old(self).has_user(u) ==> final(self).hash_of(u) == old(self).hash_of(u)
                    && final(self).salt_of(u) == old(self).salt_of(u)),
    {
        match self.find(username) {
            Some(i) => {
                let ghost pre = *self;
                self.rows.remove(i);
                proof {
                    assert(self.rows@ == pre.rows@.remove(i as int));
                    let n = pre.rows@.len() as int;
                    assert(forall|j: int| 0 <= j < i ==> self.rows@[j] == pre.rows@[j]);
                    assert(forall|j: int|
                        i <= j < n - 1 ==> self.rows@[j] == pre.rows@[j + 1]);
                    assert(self.wf());
                    assert forall|j: int| 0 <= j < self.rows@.len() implies #[trigger] self.rows@[
                        j
                    ].username@ != username@ by {
                        if j < i {
                            assert(pre.rows@[j].username@ != pre.rows@[i as int].username@);
                        } else {
                            assert(pre.rows@[i as int].username@ != pre.rows@[j + 1].username@);
                        }
                    }
                    assert(!self.has_user(username@));
                    assert forall|u: Seq<char>| u != username@ implies #[trigger] self.has_user(u)
                        == pre.has_user(u) && (pre.has_user(u) ==> self.hash_of(u) == pre.hash_of(
                        u,
                    ) && self.salt_of(u) == pre.salt_of(u)) by {
                        if pre.has_user(u) {
                            let k = choose|k: int|
                                0 <= k < pre.rows@.len() && #[trigger] pre.rows@[k].username@ == u;
                            assert(k != i);
                            if k < i {
                                assert(self.rows@[k].username@ == u);
                                pre.lemma_row_lookup(k);
                                self.lemma_row_lookup(k);
                            } else {
                                assert(self.rows@[k - 1].username@ == u);
                                pre.lemma_row_lookup(k);
                                self.lemma_row_lookup(k - 1);
                            }
                            assert(self.has_user(u));
                        }
                        if self.has_user(u) {
                            let k = choose|k: int|
                                0 <= k < self.rows@.len() && #[trigger] self.rows@[k].username@
                                    == u;
                            if k < i {
                                assert(pre.rows@[k].username@ == u);
                            } else {
                                assert(pre.rows@[k + 1].username@ == u);
                            }
                            assert(pre.has_user(u));
                        }
                    }
                }
                true
            },
            None => false,
        }
    }
}

/// A store state accepts a password for a username when the row exists and
/// its stored hash is the authentication tag of that password under the
/// stored salt.  `auth_user` returns exactly this for a known username.
pub open spec fn auth_accepts(s: CredStore, u: Seq<char>, pw: Seq<char>) -> bool {
    s.has_user(u) && s.hash_of(u) == auth_tag(encode_utf8(pw), encode_utf8(s.salt_of(u)))
}

/// Authenticates a user against the store.
///
/// An unknown username starts a registration: when the confirmation equals
/// the password, a row is created whose hash is the tag of the password
/// under a fresh random 16-character alphanumeric salt, and the attempt
/// succeeds; when it differs, both buffers are wiped, the store is left
/// exactly as it was — no partial registration persists — and the attempt
/// fails.  A known username is accepted if and only if the tag of the
/// offered password under the stored salt equals the stored hash; the
/// store is never changed on this path, and the password buffer is wiped
/// on rejection.  On success the caller keeps the password buffer and
/// remains responsible for wiping it.
pub fn auth_user(
    store: &mut CredStore,
    username: &str,
    password: &mut String,
    confirm: &mut String,
) -> (r: bool)
    requires
        old(store).wf(),
        encode_utf8(old(password)@).len() <= 0xFFFFFFFF,
    ensures
        final(store).wf(),
        old(store).has_user(username@) ==> {
            &&& *final(store) == *old(store)
            &&& r == auth_accepts(*old(store), username@, old(password)@)
            &&& final(confirm)@ == old(confirm)@
            &&& (r ==> final(password)@ == old(password)@)
            &&& (!r ==> final(password)@.len() == 0)
        },
        !old(store).has_user(username@) && old(confirm)@ != old(password)@ ==> {
            &&& !r
            &&& *final(store) == *old(store)
            &&& !final(store).has_user(username@)
            &&& final(password)@.len() == 0
            &&& final(confirm)@.len() == 0
        },
        !old(store).has_user(username@) && old(confirm)@ == old(password)@ ==> {
            &&& r
            &&& auth_accepts(*final(store), username@, old(password)@)
            &&& final(store).salt_of(username@).len() == 16
            &&& (forall|i: int|
                0 <= i < 16 ==> is_alnum_char(#[trigger] final(store).salt_of(username@)[i]))
            &&& (forall|u: Seq<char>|
                u != username@ ==> #[trigger] final(store).has_user(u) == old(store).has_user(u)
                    && (old(store).has_user(u) ==> final(store).hash_of(u) == old(
                    store,
                ).hash_of(u) && final(store).salt_of(u) == old(store).salt_of(u)))
            &&& final(password)@ == old(password)@
            &&& final(confirm)@.len() == 0
        },
{
    let is_known = store.contains(username);
    if !is_known {
        if !str_eq(password.as_str(), confirm.as_str()) {
            wipe_string(password);
            wipe_string(confirm);
            return false;
        }
        let salt = sample_alnum(16);
        proof {
            is_ascii_chars_encode_utf8(salt@);
            assert(encode_utf8(salt@).len() == 16);
            assert(valid_salt(salt@));
        }
        let tag = match argon2_hash_encoded(
            password.as_str().as_bytes(),
            salt.as_str().as_bytes(),
        ) {
            Some(t) => t,
            None => {
                proof {
                    assert(false);
                }
                return false;
            },
        };
        let cred = Credential {
            username: username.to_owned(),
            password_hash: tag,
            password_salt: salt,
        };
        let inserted = store.insert_unique(cred);
        proof {
            assert(inserted is Ok);
        }
        wipe_string(confirm);
        true
    } else {
        let (stored_hash, stored_salt) = match store.select_by_key(username) {
            Some(p) => p,
            None => {
                proof {
                    assert(false);
                }
                return false;
            },
        };
        proof {
            let i = store.index_of(username@);
            assert(valid_salt(store.salt_of(username@)));
        }
        let tag = match argon2_hash_encoded(
            password.as_str().as_bytes(),
            stored_salt.as_str().as_bytes(),
        ) {
            Some(t) => t,
            None => {
                proof {
                    assert(false);
                }
                return false;
            },
        };
        if str_eq(tag.as_str(), stored_hash.as_str()) {
            true
        } else {
            wipe_string(password);
            false
        }
    }
}

/// Re-authentication stability: a store that accepts a password for a user
/// keeps accepting it for as long as that user's row is unchanged — and
/// authentication never changes it — while any offered password whose tag
/// under the stored salt differs from the stored hash is refused.
pub proof fn lemma_reauth_stability(
    s1: CredStore,
    s2: CredStore,
    u: Seq<char>,
    pw: Seq<char>,
    other: Seq<char>,
)
    requires
        auth_accepts(s1, u, pw),
        s2.has_user(u),
        s2.hash_of(u) == s1.hash_of(u),
        s2.salt_of(u) == s1.salt_of(u),
        auth_tag(encode_utf8(other), encode_utf8(s1.salt_of(u))) != s1.hash_of(u),
    ensures
        auth_accepts(s2, u, pw),
        !auth_accepts(s2, u, other),
{
}

} // verus!
