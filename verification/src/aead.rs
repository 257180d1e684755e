//! Authenticated encryption: AES-256-GCM with a 12-byte nonce and a 16-byte
//! tag appended to the ciphertext, exactly as the paste service expects.

use vstd::prelude::*;

verus! {

/// Ciphertext-with-tag that AES-256-GCM produces from a 32-byte key, a
/// 12-byte nonce, associated data and a plaintext. Deterministic in its
/// arguments; its value is not axiomatized here.
pub uninterp spec fn gcm_seal_of(
    key: Seq<u8>,
    nonce: Seq<u8>,
    aad: Seq<u8>,
    plaintext: Seq<u8>,
) -> Seq<u8>;

/// Errors of the sealing step: a key or nonce of the wrong length, or a
/// plaintext beyond the cipher's input bound.
#[derive(Clone, Copy, PartialEq, Eq, Structural, Debug)]
pub enum SealError {
    /// The key was not exactly 32 bytes.
    BadKeyLength,
    /// The nonce was not exactly 12 bytes.
    BadNonceLength,
    /// The plaintext exceeded the cipher's input limit.
    OversizePlaintext,
}

/// Relies on `ring::aead` (`UnboundKey::new` with `AES_256_GCM`,
/// `LessSafeKey::seal_in_place_append_tag`): with a 32-byte key, a 12-byte
/// nonce and an in-range plaintext, sealing succeeds and appends the 16-byte
/// tag to the ciphertext.
#[verifier::external_body]
fn aes_gcm_seal(key: &[u8], nonce: &[u8], aad: &[u8], plaintext: &[u8]) -> (r: Vec<u8>)
    requires
        key@.len() == 32,
        nonce@.len() == 12,
        plaintext@.len() < 0x800000000,
    ensures
        r@ == gcm_seal_of(key@, nonce@, aad@, plaintext@),
        r@.len() == plaintext@.len() + 16,
{
    let unbound = ring::aead::UnboundKey::new(&ring::aead::AES_256_GCM, key).unwrap();
    let sealing = ring::aead::LessSafeKey::new(unbound);
    let n = ring::aead::Nonce::try_assume_unique_for_key(nonce).unwrap();
    let mut data = plaintext.to_vec();
    sealing.seal_in_place_append_tag(n, ring::aead::Aad::from(aad), &mut data).unwrap();
    data
}

/// Relies on `ring::aead::LessSafeKey::open_in_place`: opening returns the
/// unique plaintext whose sealing under the same key, nonce and associated
/// data is the given ciphertext, and fails when there is none.
#[verifier::external_body]
pub(crate) fn aes_gcm_open(key: &[u8], nonce: &[u8], aad: &[u8], ct: &[u8]) -> (r: Option<Vec<u8>>)
    requires
        key@.len() == 32,
        nonce@.len() == 12,
    ensures
        r matches Some(v) ==> ct@ == gcm_seal_of(key@, nonce@, aad@, v@) && (forall|p: Seq<u8>|
            ct@ == gcm_seal_of(key@, nonce@, aad@, p) ==> p == v@),
        r is None ==> forall|p: Seq<u8>| ct@ != gcm_seal_of(key@, nonce@, aad@, p),
{
    let unbound = ring::aead::UnboundKey::new(&ring::aead::AES_256_GCM, key).ok()?;
    let opening = ring::aead::LessSafeKey::new(unbound);
    let n = ring::aead::Nonce::try_assume_unique_for_key(nonce).ok()?;
    let mut data = ct.to_vec();
    let pt = opening.open_in_place(n, ring::aead::Aad::from(aad), &mut data).ok()?;
    Some(pt.to_vec())
}

/// Seal a plaintext under the derived key and fresh nonce, per the protocol:
/// AES-256-GCM, tag appended. Rejects a key that is not 32 bytes or a nonce
/// that is not 12 bytes; otherwise it always succeeds.
pub fn seal(key: &[u8], nonce: &[u8], aad: &[u8], plaintext: &[u8]) -> (r: Result<
    Vec<u8>,
    SealError,
>)
    ensures
        r is Ok <==> key@.len() == 32 && nonce@.len() == 12 && plaintext@.len() < 0x800000000,
        r matches Ok(ct) ==> ct@ == gcm_seal_of(key@, nonce@, aad@, plaintext@) && ct@.len()
            == plaintext@.len() + 16,
        r matches Err(e) ==> (e == SealError::BadKeyLength <==> key@.len() != 32) && (e
            == SealError::BadNonceLength <==> key@.len() == 32 && nonce@.len() != 12),
{
    if key.len() != 32 {
        Err(SealError::BadKeyLength)
    } else if nonce.len() != 12 {
        Err(SealError::BadNonceLength)
    } else if plaintext.len() as u64 >= 0x800000000u64 {
        Err(SealError::OversizePlaintext)
    } else {
        Ok(aes_gcm_seal(key, nonce, aad, plaintext))
    }
}

} // verus!
