//! Fresh randomness for the per-paste secrets. Nothing is assumed about the
//! values beyond their length; every caller must work for every outcome.

use rand::Rng;
use vstd::prelude::*;

verus! {

/// Relies on `rand::rng()` and `rand::Rng::fill`: fills a buffer of the
/// requested length from the thread-local cryptographically secure generator.
/// A failure of the operating-system randomness source aborts the process,
/// which is the intended fatal behaviour for secret generation.
#[verifier::external_body]
pub(crate) fn random_bytes(n: usize) -> (r: Vec<u8>)
    ensures
        r@.len() == n,
{
    let mut v = vec![0u8; n];
    rand::rng().fill(&mut v[..]);
    v
}

/// Draw the three per-paste secrets: a 32-byte passphrase, an 8-byte salt
/// for the key derivation, and a 12-byte cipher nonce, each fresh.
pub fn generate_paste_secrets() -> (r: (Vec<u8>, Vec<u8>, Vec<u8>))
    ensures
        r.0@.len() == 32,
        r.1@.len() == 8,
        r.2@.len() == 12,
{
    let passphrase = random_bytes(32);
    let salt = random_bytes(8);
    let nonce = random_bytes(12);
    (passphrase, salt, nonce)
}

} // verus!
