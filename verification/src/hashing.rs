//! One-way password hashing and verification, delegated to the
//! `password_auth` crate. Verification is a pure function of the plaintext
//! and the stored hash, which these wrappers name `password_verifies`;
//! hashing is salted and therefore non-deterministic, so of its result only
//! that it verifies against the password it was generated from is stated.

use vstd::prelude::*;

verus! {

/// Whether `password` verifies against the stored hash `hash`, as decided by
/// `password_auth::verify_password`: the hash is parsed as a PHC string and
/// the password is re-hashed under its parameters and compared. The result
/// depends on the two arguments alone.
pub uninterp spec fn password_verifies(password: Seq<char>, hash: Seq<char>) -> bool;

/// The longest password the hasher is asked to digest, in characters. The
/// hashing algorithm rejects passwords over four gigabytes of encoded
/// bytes; a character encodes to at most four bytes, so this bound keeps
/// every admitted password inside that limit with room to spare.
pub const MAX_PASSWORD_LEN: usize = 0x3FFF_FFFF;

/// Relies on `password_auth::generate_hash`: it returns a PHC hash of the
/// given password under a fresh random salt, and `verify_password` accepts
/// exactly that password against it. The salt is random, so no more than
/// that is stated of the result. The hashing algorithm refuses a password
/// over four gigabytes by panicking, so the precondition keeps the encoded
/// password under that cap; within it the call returns normally unless the
/// operating system's random source fails.
#[verifier::external_body]
pub(crate) fn generate_password_hash(password: &str) -> (r: String)
    requires
        password@.len() <= MAX_PASSWORD_LEN,
    ensures
        password_verifies(password@, r@),
{
    password_auth::generate_hash(password)
}

/// Relies on `password_auth::verify_password`: returns `Ok` exactly when the
/// password verifies against the stored hash, deterministically in the two
/// arguments.
#[verifier::external_body]
pub(crate) fn verify_password_hash(password: &str, hash: &str) -> (r: bool)
    ensures
        r == password_verifies(password@, hash@),
{
    password_auth::verify_password(password, hash).is_ok()
}

} // verus!
