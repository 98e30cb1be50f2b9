use vstd::prelude::*;

use crate::errors::ProdError;

verus! {

/// The encoded hash rust-argon2 computes for this password and salt
/// under the crate's original configuration.
pub uninterp spec fn argon_hash_of(pwd: Seq<u8>, salt: Seq<u8>) -> Seq<char>;

/// What rust-argon2's verifier answers for this encoded hash and
/// password: `None` when the encoded text cannot be parsed, otherwise
/// the outcome of recomputing the hash and comparing.
pub uninterp spec fn argon_verify_of(encoded: Seq<char>, pwd: Seq<u8>) -> Option<bool>;

/// Password hashing through argon2, with the crate's original
/// configuration and a caller-supplied random salt.
pub struct Argon;

impl Argon {
    /// Relies on argon2::hash_encoded (rust-argon2): under the original
    /// configuration the hash is a function of password and salt alone,
    /// hashing succeeds whenever both lengths are within the library's
    /// bounds, and the library's own verifier accepts the pair the hash
    /// was produced from.
    #[verifier::external_body]
    fn hash_encoded_raw(password: &[u8], salt: &[u8]) -> (r: Option<String>)
        requires
            8 <= salt@.len() <= 0xFFFF_FFFF,
            password@.len() <= 0xFFFF_FFFF,
        ensures
            r is Some,
            r matches Some(h) ==> h@ == argon_hash_of(password@, salt@) && argon_verify_of(
                h@,
                password@,
            ) == Some(true),
    {
        argon2::hash_encoded(password, salt, &argon2::Config::original()).ok()
    }

    /// Relies on argon2::verify_encoded (rust-argon2): the outcome is a
    /// function of the encoded text and the password alone.
    #[verifier::external_body]
    fn verify_encoded_raw(hash: &str, password: &[u8]) -> (r: Option<bool>)
        ensures
            r == argon_verify_of(hash@, password@),
    {
        argon2::verify_encoded(hash, password).ok()
    }

    /// Hashes a password with a fresh random 16-byte salt; for a password
    /// within the library's length bound this always succeeds, and the
    /// library's verifier accepts the resulting hash for the same
    /// password.
    pub fn hash_password(password: &[u8]) -> (r: Result<String, ProdError>)
        requires
            password@.len() <= 0xFFFF_FFFF,
        ensures
            r is Ok,
            r matches Ok(h) ==> argon_verify_of(h@, password@) == Some(true) && (exists|
                salt: Seq<u8>,
            | h@ == #[trigger] argon_hash_of(password@, salt)),
    {
        let salt = crate::jwt::generate::generate_bytes(16);
        match Self::hash_encoded_raw(password, salt.as_slice()) {
            Some(h) => Ok(h),
            None => {
                proof {
                    assert(false);
                }
                Err(ProdError::HashingError("hashing error".to_owned()))
            },
        }
    }

    /// Checks a password against an encoded hash; an unparseable hash is
    /// an infrastructure failure, not a mismatch.
    pub fn verify(password: &[u8], hash: &str) -> (r: Result<bool, ProdError>)
        ensures
            argon_verify_of(hash@, password@) matches Some(b) ==> r == Ok::<bool, ProdError>(b),
            argon_verify_of(hash@, password@) is None ==> (r matches Err(e) && e
                matches ProdError::HashingError(m) && m@ == "hashing error"@),
    {
        match Self::verify_encoded_raw(hash, password) {
            Some(b) => Ok(b),
            None => Err(ProdError::HashingError("hashing error".to_owned())),
        }
    }
}

} // verus!
