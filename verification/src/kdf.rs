//! Key derivation: PBKDF2-HMAC-SHA256 with the protocol's fixed parameters
//! (100000 iterations, 256-bit output) over a fresh 8-byte salt.

use crate::rng::random_bytes;
use vstd::prelude::*;

verus! {

/// The 32 bytes that PBKDF2-HMAC-SHA256 derives from `secret` and `salt` at
/// 100000 iterations. The result is a mathematical function of the two
/// arguments alone; its value is not axiomatized here.
pub uninterp spec fn derived_key_of(secret: Seq<u8>, salt: Seq<u8>) -> Seq<u8>;

/// Relies on `ring::pbkdf2::derive` with `PBKDF2_HMAC_SHA256`: deterministic
/// in the secret and salt, filling the whole 32-byte output buffer.
#[verifier::external_body]
pub(crate) fn pbkdf2_sha256(secret: &[u8], salt: &[u8]) -> (key: Vec<u8>)
    ensures
        key@ == derived_key_of(secret@, salt@),
        key@.len() == 32,
{
    let mut key = vec![0u8; 32];
    ring::pbkdf2::derive(
        ring::pbkdf2::PBKDF2_HMAC_SHA256,
        core::num::NonZeroU32::new(100_000).unwrap(),
        salt,
        secret,
        &mut key,
    );
    key
}

/// Derive the symmetric key for one paste: draw a fresh 8-byte salt and run
/// the key-derivation function over the passphrase-plus-password secret.
pub fn generate_kdf_key(secret: &[u8]) -> (r: (Vec<u8>, Vec<u8>))
    ensures
        r.0@ == derived_key_of(secret@, r.1@),
        r.0@.len() == 32,
        r.1@.len() == 8,
{
    let salt = random_bytes(8);
    let key = pbkdf2_sha256(secret, salt.as_slice());
    (key, salt)
}

} // verus!
