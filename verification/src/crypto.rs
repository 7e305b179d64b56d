//! Trusted boundary to the cryptographic primitives of `ring`.
//!
//! The library never restates how a digest or a signature scheme works: the
//! results of the outside calls are given names (`key_hash`,
//! `ed25519_verifies`) and every contract above speaks of those names.

use vstd::prelude::*;
use ring::signature::KeyPair;

verus! {

/// The SHA-256 digest of `data`, as computed by `ring`. Named only: no
/// contract states what the digest is on given bytes.
pub uninterp spec fn key_hash(data: Seq<u8>) -> Seq<u8>;

/// Whether `sig` is a valid Ed25519 signature over `msg` under the public key
/// `key`, as decided by `ring`. Verification is deterministic in its inputs.
pub uninterp spec fn ed25519_verifies(key: Seq<u8>, msg: Seq<u8>, sig: Seq<u8>) -> bool;

/// Relies on `ring::digest::digest` with SHA-256: the digest is a function of
/// the input bytes alone, and SHA-256 output is exactly 32 bytes.
#[verifier::external_body]
pub(crate) fn sha256_hash(data: &[u8]) -> (r: [u8; 32])
    ensures
        r@ == key_hash(data@),
{
    let digest = ring::digest::digest(&ring::digest::SHA256, data);
    let mut out = [0u8; 32];
    out.copy_from_slice(digest.as_ref());
    out
}

/// Relies on `ring::signature::UnparsedPublicKey::verify` for Ed25519:
/// acceptance depends on the key, message and signature bytes alone.
#[verifier::external_body]
pub(crate) fn ed25519_verify(key: &[u8], msg: &[u8], sig: &[u8]) -> (r: bool)
    ensures
        r == ed25519_verifies(key@, msg@, sig@),
{
    ring::signature::UnparsedPublicKey::new(&ring::signature::ED25519, key)
        .verify(msg, sig)
        .is_ok()
}

#[verifier::external_type_specification]
#[verifier::external_body]
pub struct ExEd25519KeyPair(ring::signature::Ed25519KeyPair);

/// Relies on `ring::signature::Ed25519KeyPair::public_key` (through the
/// `KeyPair` trait): an Ed25519 public key is exactly 32 bytes.
#[verifier::external_body]
pub(crate) fn public_key_bytes(keypair: &ring::signature::Ed25519KeyPair) -> (r: Vec<u8>)
    ensures
        r@.len() == 32,
{
    keypair.public_key().as_ref().to_vec()
}

} // verus!
