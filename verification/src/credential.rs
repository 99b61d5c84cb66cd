//! Password hashing and verification.
//!
//! A password is never kept or compared in plain text. An account holds the
//! bcrypt hash of its password, and a password is checked against that hash
//! with bcrypt's own verification. Both steps are calls into the `bcrypt`
//! crate; what this module assumes of them is written on the two functions
//! that make the calls.

use vstd::prelude::*;

verus! {

/// `bcrypt::BcryptError`, the error of both bcrypt calls. It is carried from
/// the call to the place that decides what a failure means, and never looked
/// into.
#[verifier::external_type_specification]
#[verifier::external_body]
pub struct ExBcryptError(bcrypt::BcryptError);

/// What `bcrypt::verify` returns for a password and a hash: `Some(b)` where it
/// returns `Ok(b)`, and `None` where it returns an error.
pub uninterp spec fn verify_outcome(password: Seq<char>, hash: Seq<char>) -> Option<bool>;

/// The number of characters of every hash that hashing returns.
pub const HASH_LENGTH: usize = 60;

/// Whether `password` is accepted for `hash`.
pub open spec fn opens(password: Seq<char>, hash: Seq<char>) -> bool {
    verify_outcome(password, hash) == Some(true)
}

/// Calls `bcrypt::verify`, which splits the hash into cost, salt and digest,
/// hashes the password again with that cost and salt, and compares the two
/// digests in constant time. Its result depends on the two texts alone, so it
/// is given the name [`verify_outcome`]; nothing more is assumed of it.
#[verifier::external_body]
fn bcrypt_verify(password: &str, hash: &str) -> (outcome: Result<bool, bcrypt::BcryptError>)
    ensures
        outcome matches Ok(accepted) ==> verify_outcome(password@, hash@) == Some(accepted),
        outcome is Err ==> verify_outcome(password@, hash@) is None,
{
    bcrypt::verify(password, hash)
}

/// Calls `bcrypt::hash` with the crate's default cost. The salt is drawn from
/// the operating system, so two calls on one password differ and the call
/// fails where no randomness can be had. Assumed of every hash it returns:
/// `bcrypt::verify` accepts the password for it, since verification repeats
/// the same computation with the cost and salt that the hash carries; and it
/// is the 60 characters that bcrypt formats every hash into.
#[verifier::external_body]
fn bcrypt_hash(password: &str) -> (outcome: Result<String, bcrypt::BcryptError>)
    ensures
        outcome matches Ok(hash) ==> verify_outcome(password@, hash@) == Some(true),
        outcome matches Ok(hash) ==> hash@.len() == HASH_LENGTH,
{
    bcrypt::hash(password, bcrypt::DEFAULT_COST)
}

/// Checks a password against a stored hash. A hash that bcrypt cannot read
/// accepts no password.
pub fn password_matches(password: &str, hash: &str) -> (accepted: bool)
    ensures
        accepted == opens(password@, hash@),
{
    accepted_by(bcrypt_verify(password, hash))
}

/// What a verification outcome means for the caller: only a successful
/// comparison that found the digests equal accepts the password.
pub fn accepted_by(outcome: Result<bool, bcrypt::BcryptError>) -> (accepted: bool)
    ensures
        accepted == (outcome matches Ok(equal) && equal),
{
    match outcome {
        Ok(equal) => equal,
        Err(_) => false,
    }
}

/// Hashes a password for storage, or gives `None` where the hashing engine
/// failed. Every hash that comes back accepts the password it was made from
/// and has [`HASH_LENGTH`] characters, so that it is not the password itself
/// unless the password has that length too.
pub fn hash_password(password: &str) -> (hashed: Option<String>)
    ensures
        hashed matches Some(hash) ==> opens(password@, hash@),
        hashed matches Some(hash) ==> hash@.len() == HASH_LENGTH,
{
    hashed_by(bcrypt_hash(password))
}

/// What a hashing outcome means for the caller: the hash, or `None` for any
/// failure.
pub fn hashed_by(outcome: Result<String, bcrypt::BcryptError>) -> (hashed: Option<String>)
    ensures
        hashed == (match outcome {
            Ok(hash) => Some(hash),
            Err(_) => None::<String>,
        }),
{
    match outcome {
        Ok(hash) => Some(hash),
        Err(_) => None,
    }
}

} // verus!
