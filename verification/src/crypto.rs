//! Digests, signatures and randomness.
use vstd::prelude::*;

verus! {

/// Why the system gave no randomness.
#[verifier::external_type_specification]
#[verifier::external_body]
pub struct ExRandomError(getrandom::Error);

/// The SHA-256 digest of `data`.
pub uninterp spec fn sha256(data: Seq<u8>) -> Seq<u8>;

/// Whether 32 bytes are the encoding of a point that Ed25519 takes for a key.
pub uninterp spec fn public_key_valid(key: Seq<u8>) -> bool;

/// Whether the strict Ed25519 check accepts `signature` of `message` under `key`.
pub uninterp spec fn signature_valid(key: Seq<u8>, message: Seq<u8>, signature: Seq<u8>) -> bool;

/// The Ed25519 public key of a secret seed.
pub uninterp spec fn public_key_of(seed: Seq<u8>) -> Seq<u8>;

/// The Ed25519 signature of `message` by a secret seed.
pub uninterp spec fn signature_by(seed: Seq<u8>, message: Seq<u8>) -> Seq<u8>;

/// The encoding of the neutral point of the curve.
pub open spec fn neutral_point() -> Seq<u8> {
    Seq::new(32, |i: int| if i == 0 { 1u8 } else { 0u8 })
}

/// Whether a signature verifies under the key of its seed, unless its first half is
/// the neutral point, which the strict check refuses.
pub open spec fn own_signature_holds(seed: Seq<u8>, message: Seq<u8>, signature: Seq<u8>) -> bool {
    signature.take(32) != neutral_point() ==> signature_valid(
        public_key_of(seed),
        message,
        signature,
    )
}

/// `sha2::Sha256::digest`. What is trusted: the digest depends on the data alone.
#[verifier::external_body]
pub(crate) fn digest(data: &[u8]) -> (hash: [u8; 32])
    ensures
        hash@ == sha256(data@),
{
    <sha2::Sha256 as sha2::Digest>::digest(data).into()
}

/// `ed25519_dalek::VerifyingKey::from_bytes`. What is trusted: whether it takes
/// the key depends on its bytes alone.
#[verifier::external_body]
pub(crate) fn is_public_key(key: &[u8; 32]) -> (valid: bool)
    ensures
        valid == public_key_valid(key@),
{
    ed25519_dalek::VerifyingKey::from_bytes(key).is_ok()
}

/// `ed25519_dalek::VerifyingKey::verify_strict`, under the key that
/// `VerifyingKey::from_bytes` reads. What is trusted: the verdict depends on the
/// three byte strings alone, and nothing verifies under bytes that are no key.
#[verifier::external_body]
pub(crate) fn verify_strict(key: &[u8; 32], message: &[u8], signature: &[u8; 64]) -> (valid: bool)
    ensures
        valid == signature_valid(key@, message@, signature@),
        valid ==> public_key_valid(key@),
{
    match ed25519_dalek::VerifyingKey::from_bytes(key) {
        Ok(key) => key.verify_strict(
            message,
            &ed25519_dalek::Signature::from_bytes(signature),
        ).is_ok(),
        Err(_) => false,
    }
}

/// `ed25519_dalek::SigningKey::verifying_key`, of the key that
/// `SigningKey::from_bytes` makes. What is trusted: the public key depends on the
/// seed alone, and `VerifyingKey::from_bytes` takes it.
#[verifier::external_body]
pub(crate) fn public_key(seed: &[u8; 32]) -> (key: [u8; 32])
    ensures
        key@ == public_key_of(seed@),
        public_key_valid(key@),
{
    ed25519_dalek::SigningKey::from_bytes(seed).verifying_key().to_bytes()
}

/// `ed25519_dalek::SigningKey::sign`. What is trusted: the signature depends on
/// the seed and the message alone, and `VerifyingKey::verify_strict` accepts it under
/// the key of the seed, unless its first half is the neutral point. A clamped secret
/// is no multiple of the order of the base point, so the key itself never has small
/// order.
#[verifier::external_body]
pub(crate) fn sign(seed: &[u8; 32], message: &[u8]) -> (signature: [u8; 64])
    ensures
        signature@ == signature_by(seed@, message@),
        own_signature_holds(seed@, message@, signature@),
{
    ed25519_dalek::Signer::sign(&ed25519_dalek::SigningKey::from_bytes(seed), message).to_bytes()
}

/// `getrandom::fill`. Nothing is promised of the bytes.
#[verifier::external_body]
pub(crate) fn random_bytes<const N: usize>() -> (result: Result<[u8; N], getrandom::Error>)
{
    let mut bytes = [0u8; N];
    match getrandom::fill(&mut bytes) {
        Ok(()) => Ok(bytes),
        Err(error) => Err(error),
    }
}

} // verus!
