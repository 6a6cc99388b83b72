//! Password hashing, taken from the bcrypt crate.
use vstd::prelude::*;

verus! {

#[verifier::external_type_specification]
#[verifier::external_body]
pub struct ExBcryptError(bcrypt::BcryptError);

/// What bcrypt's verification says of `password` against `hash`: whether
/// they match, or `None` where the hash cannot be read.
pub uninterp spec fn bcrypt_verdict(password: Seq<char>, hash: Seq<char>) -> Option<bool>;

/// Relies on `bcrypt::hash` with `bcrypt::DEFAULT_COST`: a salted hash of the
/// password, with a salt drawn at random. `bcrypt::verify` reads the cost and
/// salt back out of that text and recomputes, so the password verifies.
#[verifier::external_body]
pub(crate) fn hash_password(password: &str) -> (r: Result<String, bcrypt::BcryptError>)
    ensures
        r matches Ok(h) ==> bcrypt_verdict(password@, h@) == Some(true),
{
    bcrypt::hash(password, bcrypt::DEFAULT_COST)
}

/// Relies on `bcrypt::verify`: the verdict depends on the password and the
/// hash alone.
#[verifier::external_body]
pub(crate) fn check_password(password: &str, hash: &str) -> (r: Result<bool, bcrypt::BcryptError>)
    ensures
        match r {
            Ok(b) => bcrypt_verdict(password@, hash@) == Some(b),
            Err(_) => bcrypt_verdict(password@, hash@) is None,
        },
{
    bcrypt::verify(password, hash)
}

/// Relies on the `Display` impl of `bcrypt::BcryptError`: a description of
/// the error. Nothing is promised of the text.
#[verifier::external_body]
pub(crate) fn error_text(e: &bcrypt::BcryptError) -> (r: String) {
    e.to_string()
}

} // verus!
