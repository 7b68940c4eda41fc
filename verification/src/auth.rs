//! The credential manager: computes and verifies the salted password hash of
//! an account. Hashing goes through the Argon2 algorithm of an outside crate
//! with a salt and configuration that are fixed for the whole store, so the
//! encoded hash of a password is a function of the password bytes alone.

use vstd::prelude::*;

verus! {

/// Longest password the hashing backend accepts, in bytes.
pub const MAX_PASSWORD_LEN: usize = 0xFFFF_FFFF;

/// The encoded hash that the password-hashing scheme assigns to a password.
/// The scheme's salt and parameters are fixed, so the result depends on the
/// password bytes alone.
pub uninterp spec fn hash_of(password: Seq<u8>) -> Seq<char>;

/// Relies on argon2::hash_encoded (crate rust-argon2): Argon2 is a
/// deterministic algorithm, so with this fixed salt and the default
/// configuration the encoded hash is a function of the password bytes alone.
/// With an 8-byte salt and the default configuration the call fails only for
/// a password longer than u32::MAX bytes, which the precondition excludes.
#[verifier::external_body]
fn argon2_hash(password: &Vec<u8>) -> (r: String)
    requires
        password@.len() <= MAX_PASSWORD_LEN,
    ensures
        r@ == hash_of(password@),
{
    argon2::hash_encoded(password.as_slice(), b"tree-tap", &argon2::Config::default()).unwrap()
}

/// Relies on argon2::verify_encoded (crate rust-argon2): it re-derives the
/// hash from the password and the parameters embedded in the encoded string
/// and compares. For an encoded string that this scheme produced, it returns
/// true exactly when the password re-derives that same string. A string that
/// fails to decode as an encoded hash is reported as a mismatch.
#[verifier::external_body]
fn argon2_verify(hash: &String, password: &Vec<u8>) -> (r: bool)
    requires
        password@.len() <= MAX_PASSWORD_LEN,
    ensures
        (exists|p: Seq<u8>| hash@ == hash_of(p)) ==> r == (hash@ == hash_of(password@)),
{
    argon2::verify_encoded(hash.as_str(), password.as_slice()).unwrap_or(false)
}

/// One registered user: the encoded hash of the account's password.
pub struct User {
    pub pwhash: String,
}

impl View for User {
    type V = Seq<char>;

    open spec fn view(&self) -> Seq<char> {
        self.pwhash@
    }
}

impl User {
    /// Register a password: store the hash the scheme assigns to it.
    pub fn new(password: &Vec<u8>) -> (u: User)
        requires
            password@.len() <= MAX_PASSWORD_LEN,
        ensures
            u.pwhash@ == hash_of(password@),
    {
        User { pwhash: argon2_hash(password) }
    }

    /// Check a password attempt against the stored hash. For a hash that the
    /// scheme produced, this succeeds exactly when the attempt hashes to the
    /// stored string.
    pub fn verify_pw(&self, password: &Vec<u8>) -> (r: bool)
        requires
            password@.len() <= MAX_PASSWORD_LEN,
        ensures
            (exists|p: Seq<u8>| self.pwhash@ == hash_of(p)) ==> r == (self.pwhash@ == hash_of(
                password@,
            )),
    {
        argon2_verify(&self.pwhash, password)
    }
}

} // verus!
