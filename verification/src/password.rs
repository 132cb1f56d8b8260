//! The credential verifier: salts, password hashes and their comparison.
//!
//! Hashing is Argon2 with the crate's default parameters, in the PHC string
//! form. A stored hash is never compared with a password, only with the hash
//! recomputed from the password and the stored salt.

use crate::errors::InternalError;
use argon2::PasswordHasher;
use vstd::prelude::*;
use vstd::utf8::*;

verus! {

/// The error of the `password-hash` crate.
#[verifier::external_type_specification]
#[verifier::external_body]
pub struct ExPasswordHashError(argon2::password_hash::Error);

/// The PHC string that Argon2 with default parameters gives for a password
/// and a salt, or `None` where it refuses them.
pub uninterp spec fn argon2_hashed(password: Seq<u8>, salt: Seq<char>) -> Option<Seq<char>>;

/// Calls `Argon2::default().hash_password` and renders the hash as a PHC
/// string. The outcome is a function of the password and the salt alone.
#[verifier::external_body]
fn argon2_hash(password: &[u8], salt: &str) -> (hashed: Result<
    String,
    argon2::password_hash::Error,
>)
    ensures
        argon2_hashed(password@, salt@) == (match hashed {
            Ok(hash) => Some(hash@),
            Err(_) => None,
        }),
{
    Ok(argon2::Argon2::default().hash_password(password, salt)?.to_string())
}

/// Calls `SaltString::generate` on the operating system's random source:
/// sixteen random bytes in unpadded base64, which is 22 characters. Nothing
/// is claimed of which characters come out. The call does not return where
/// the operating system gives no random bytes.
#[verifier::external_body]
fn random_salt() -> (salt: String)
    ensures
        salt@.len() == SALT_LENGTH,
{
    argon2::password_hash::SaltString::generate(
        &mut argon2::password_hash::rand_core::OsRng,
    ).to_string()
}

/// The length of a generated salt, in characters.
pub const SALT_LENGTH: usize = 22;

/// A fresh salt for one account.
pub fn generate_salt() -> (salt: String)
    ensures
        salt@.len() == SALT_LENGTH,
{
    random_salt()
}

/// What hashing gives, with a refusal of the primitive as an internal error.
pub open spec fn hash_outcome(password: Seq<u8>, salt: Seq<char>) -> Result<
    Seq<char>,
    InternalError,
> {
    match argon2_hashed(password, salt) {
        Some(hash) => Ok(hash),
        None => Err(InternalError),
    }
}

/// A hashing result with the hash taken by its view.
pub open spec fn hash_view(hashed: Result<String, InternalError>) -> Result<
    Seq<char>,
    InternalError,
> {
    match hashed {
        Ok(hash) => Ok(hash@),
        Err(e) => Err(e),
    }
}

/// The hash of a password under a salt.
pub fn hash(password: &str, salt: &str) -> (hashed: Result<String, InternalError>)
    ensures
        hash_view(hashed) == hash_outcome(encode_utf8(password@), salt@),
{
    match argon2_hash(password.as_bytes(), salt) {
        Ok(hash) => Ok(hash),
        Err(_) => Err(InternalError),
    }
}

/// Whether two byte strings are equal. Strings of one length are compared
/// byte by byte to the end, wherever they first differ.
pub fn constant_time_eq(a: &[u8], b: &[u8]) -> (same: bool)
    ensures
        same == (a@ == b@),
{
    if a.len() != b.len() {
        return false;
    }
    let mut diff: u8 = 0;
    let mut i: usize = 0;
    while i < a.len()
        invariant
            i <= a.len(),
            a.len() == b.len(),
            diff == 0 <==> (forall|j: int| 0 <= j < i ==> a@[j] == b@[j]),
        decreases a.len() - i,
    {
        let x = a[i];
        let y = b[i];
        let ghost before = diff;
        diff = diff | (x ^ y);
        assert(diff == 0 <==> (before == 0 && x == y)) by (bit_vector)
            requires
                diff == before | (x ^ y),
        ;
        proof {
            if before == 0 && x == y {
                assert forall|j: int| 0 <= j < i + 1 implies a@[j] == b@[j] by {}
            }
        }
        i += 1;
    }
    proof {
        if diff == 0 {
            assert(a@ =~= b@);
        }
    }
    diff == 0
}

/// Whether `expected_hash` is the hash of `password` under `salt`: the hash
/// is recomputed and compared in constant time. A refusal of the primitive
/// is an internal error, not a mismatch.
pub fn verify(password: &str, salt: &str, expected_hash: &str) -> (verdict: Result<
    bool,
    InternalError,
>)
    ensures
        verdict == (match hash_outcome(encode_utf8(password@), salt@) {
            Ok(hash) => Ok::<bool, InternalError>(hash == expected_hash@),
            Err(e) => Err(e),
        }),
{
    let computed = match hash(password, salt) {
        Ok(computed) => computed,
        Err(e) => {
            return Err(e);
        },
    };
    proof {
        encode_utf8_decode_utf8(computed@);
        encode_utf8_decode_utf8(expected_hash@);
    }
    Ok(constant_time_eq(computed.as_str().as_bytes(), expected_hash.as_bytes()))
}

} // verus!
