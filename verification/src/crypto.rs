//! Digest and signature primitives behind trusted declarations.
//!
//! The attestation scheme hashes a canonical payload with md5 and signs the
//! `step:hash` message with Ed25519. Both outside computations are named
//! rather than restated: `md5_hex_of`, `vk_of`, `sig_of` and `ed_verifies`
//! stand for what the calls return, and the library's own logic is verified
//! over those names.

use ed25519_dalek::Signer;
use ed25519_dalek::Verifier;
use rand::RngCore;
use vstd::prelude::*;

verus! {

/// The lower-case hex rendering of the md5 digest of a payload's bytes.
pub uninterp spec fn md5_hex_of(payload: Seq<char>) -> Seq<char>;

/// Relies on `md5::compute` and the digest's `LowerHex` rendering: the digest
/// depends on the payload bytes alone.
#[verifier::external_body]
pub fn md5_hex(payload: &str) -> (r: String)
    ensures
        r@ == md5_hex_of(payload@),
{
    format!("{:x}", md5::compute(payload.as_bytes()))
}

/// The Ed25519 public key derived from 32 secret bytes.
pub uninterp spec fn vk_of(secret: Seq<u8>) -> Seq<u8>;

/// The Ed25519 signature over a message under 32 secret bytes.
pub uninterp spec fn sig_of(secret: Seq<u8>, message: Seq<char>) -> Seq<u8>;

/// Whether Ed25519 verification accepts `sig` over `message` under the
/// public-key bytes `vk`.
pub uninterp spec fn ed_verifies(vk: Seq<u8>, message: Seq<char>, sig: Seq<u8>) -> bool;

/// Relies on rand's `OsRng::fill_bytes`: 32 fresh bytes from the operating
/// system; nothing is assumed about their values.
#[verifier::external_body]
pub fn fresh_secret_bytes() -> (r: Vec<u8>)
    ensures
        r@.len() == 32,
{
    let mut bytes = [0u8; 32];
    rand::rngs::OsRng.fill_bytes(&mut bytes);
    bytes.to_vec()
}

/// Relies on ed25519-dalek's `SigningKey::verifying_key` and
/// `VerifyingKey::to_bytes`: the 32 public-key bytes are derived from the
/// secret bytes alone.
#[verifier::external_body]
pub fn verifying_key_bytes(secret: &Vec<u8>) -> (r: Vec<u8>)
    requires
        secret@.len() == 32,
    ensures
        r@ == vk_of(secret@),
        r@.len() == 32,
{
    let key = ed25519_dalek::SigningKey::from_bytes(secret.as_slice().try_into().unwrap());
    key.verifying_key().to_bytes().to_vec()
}

/// Relies on ed25519-dalek's `Signer::sign`, which is deterministic
/// (RFC 8032): the 64 signature bytes are a function of the secret bytes and
/// message alone, and the signature verifies under the matching public key.
#[verifier::external_body]
pub fn sign_message(secret: &Vec<u8>, message: &str) -> (r: Vec<u8>)
    requires
        secret@.len() == 32,
    ensures
        r@ == sig_of(secret@, message@),
        r@.len() == 64,
        ed_verifies(vk_of(secret@), message@, r@),
{
    let key = ed25519_dalek::SigningKey::from_bytes(secret.as_slice().try_into().unwrap());
    key.sign(message.as_bytes()).to_bytes().to_vec()
}

/// Relies on ed25519-dalek's `VerifyingKey::verify`: acceptance is a function
/// of the key bytes, message and signature bytes alone; malformed key or
/// signature bytes are rejected.
#[verifier::external_body]
pub fn verify_signature(vk: &Vec<u8>, message: &str, sig: &Vec<u8>) -> (r: bool)
    ensures
        r == ed_verifies(vk@, message@, sig@),
{
    let key_bytes: &[u8; 32] = match vk.as_slice().try_into() {
        Ok(b) => b,
        Err(_) => return false,
    };
    let key = match ed25519_dalek::VerifyingKey::from_bytes(key_bytes) {
        Ok(k) => k,
        Err(_) => return false,
    };
    let sig_bytes: &[u8; 64] = match sig.as_slice().try_into() {
        Ok(b) => b,
        Err(_) => return false,
    };
    let signature = ed25519_dalek::Signature::from_bytes(sig_bytes);
    key.verify(message.as_bytes(), &signature).is_ok()
}

} // verus!
