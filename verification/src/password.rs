//! Password hashes.

use vstd::prelude::*;
use argon2::password_hash::{PasswordHash, PasswordHasher, PasswordVerifier, Salt, SaltString};
use argon2::Argon2;

verus! {

/// The hash that Argon2, with its default parameters, gives a password
/// under a salt, in the PHC string format; `None` where it gives none (the
/// salt is malformed, or an input is too long).
pub uninterp spec fn argon2_hash(password: Seq<char>, salt: Seq<char>) -> Option<Seq<char>>;

/// The text of an optional string.
pub open spec fn opt_text(s: Option<String>) -> Option<Seq<char>> {
    match s {
        Some(s) => Some(s@),
        None => None,
    }
}

/// `SaltString::generate` on `rand::thread_rng()`: a new random salt, in
/// the alphabet that hashes are written in. Which one it is, is not known.
#[verifier::external_body]
pub(crate) fn random_salt() -> String {
    SaltString::generate(rand::thread_rng()).as_str().to_owned()
}

/// `PasswordHasher::hash_password` on `Argon2::default()`, with the salt
/// read by `Salt::from_b64`: the hash of the password under the salt.
#[verifier::external_body]
pub(crate) fn hash_password(password: &str, salt: &str) -> (r: Option<String>)
    ensures
        opt_text(r) == argon2_hash(password@, salt@),
{
    match Salt::from_b64(salt) {
        Ok(salt) => match Argon2::default().hash_password(password.as_bytes(), salt) {
            Ok(hash) => Some(hash.to_string()),
            Err(_) => None,
        },
        Err(_) => None,
    }
}

/// Whether Argon2 finds that a hash in the PHC string format is one of the
/// password. A text that is no such hash is the hash of no password.
pub uninterp spec fn argon2_accepts(password: Seq<char>, hash: Seq<char>) -> bool;

/// `PasswordVerifier::verify_password` on `Argon2::default()`, with the
/// hash read by `PasswordHash::new`: whether the hash is one of the password.
#[verifier::external_body]
pub(crate) fn verify_password(password: &str, hash: &str) -> (ok: bool)
    ensures
        ok == argon2_accepts(password@, hash@),
{
    match PasswordHash::new(hash) {
        Ok(parsed) => match Argon2::default().verify_password(password.as_bytes(), &parsed) {
            Ok(_) => true,
            Err(_) => false,
        },
        Err(_) => false,
    }
}

} // verus!
