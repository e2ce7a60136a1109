//! Password hashing (argon2) and session id hashing (blake3).

use vstd::prelude::*;
use vstd::string::*;

use argon2::{PasswordHasher, PasswordVerifier};

verus! {

#[verifier::external_type_specification]
#[verifier::external_body]
pub struct ExPasswordHashError(argon2::password_hash::Error);

/// What argon2 verification of `password` against the PHC string `phc`
/// gives: `Some(true)` when it matches, `Some(false)` when it does not,
/// `None` when the string or its parameters cannot be used.
pub uninterp spec fn argon2_verify_outcome(password: Seq<u8>, phc: Seq<char>) -> Option<bool>;

/// The 32-byte BLAKE3 digest of `data`.
pub uninterp spec fn blake3_digest(data: Seq<u8>) -> Seq<u8>;

#[derive(Debug)]
pub enum HashingErrorKind {
    Argon2(argon2::password_hash::Error),
}

#[derive(Debug)]
pub struct HashingError(pub Box<HashingErrorKind>);

/// `argon2::Argon2::default().verify_password`, with its
/// `PasswordInvalid` error told apart from the other errors. The PHC
/// string carries the salt and parameters, so the outcome depends on
/// the two arguments alone.
#[verifier::external_body]
fn argon2_verify(password: &[u8], phc: &str) -> (r: Result<bool, argon2::password_hash::Error>)
    ensures
        match r {
            Ok(b) => argon2_verify_outcome(password@, phc@) == Some(b),
            Err(_) => argon2_verify_outcome(password@, phc@) is None,
        },
{
    match argon2::Argon2::default().verify_password(password, phc) {
        Ok(()) => Ok(true),
        Err(argon2::password_hash::Error::PasswordInvalid) => Ok(false),
        Err(e) => Err(e),
    }
}

/// `argon2::Argon2::default().hash_password` (Argon2id v19, random
/// salt) as a PHC string. The salt is random, so the string is not
/// determined by the password; what holds of every outcome is that the
/// password verifies against it.
#[verifier::external_body]
fn argon2_hash(password: &[u8]) -> (r: Result<String, argon2::password_hash::Error>)
    ensures
        r matches Ok(s) ==> argon2_verify_outcome(password@, s@) == Some(true),
{
    match argon2::Argon2::default().hash_password(password) {
        Ok(h) => Ok(h.to_string()),
        Err(e) => Err(e),
    }
}

/// `blake3::hash`, as bytes.
#[verifier::external_body]
pub(crate) fn blake3_hash(data: &[u8]) -> (r: Vec<u8>)
    ensures
        r@ == blake3_digest(data@),
        r@.len() == 32,
{
    blake3::hash(data).as_bytes().to_vec()
}

/// A PHC string (`$argon2id$v=19$...`) for `password`, with a random
/// salt.
pub fn create_password_hash(password: &str) -> (r: Result<String, HashingError>)
    ensures
        r matches Ok(s) ==> argon2_verify_outcome(password.spec_bytes(), s@) == Some(true),
{
    match argon2_hash(password.as_bytes()) {
        Ok(s) => Ok(s),
        Err(e) => Err(HashingError(Box::new(HashingErrorKind::Argon2(e)))),
    }
}

/// Whether `password` matches the PHC string `existing_hash`; an error
/// when the string cannot be used.
pub fn verify_password(password: &str, existing_hash: &str) -> (r: Result<bool, HashingError>)
    ensures
        match argon2_verify_outcome(password.spec_bytes(), existing_hash@) {
            Some(b) => r matches Ok(v) && v == b,
            None => r is Err,
        },
{
    match argon2_verify(password.as_bytes(), existing_hash) {
        Ok(b) => Ok(b),
        Err(e) => Err(HashingError(Box::new(HashingErrorKind::Argon2(e)))),
    }
}

} // verus!
