//! Trusted bindings to the cryptographic primitives the ledger relies on:
//! BLAKE2b-256 for content addressing, SHA3-256 for proof-of-work, and
//! SR25519 signature verification.
//!
//! Each digest is named by an uninterpreted function of the input bytes:
//! the primitives are deterministic, but their values are never written out
//! here.  Everything proved about the ledger holds for every interpretation
//! of these names that the real primitives satisfy.

use vstd::prelude::*;
use blake2::Digest;

verus! {

/// The BLAKE2b-256 digest of a byte string, as a function of the bytes
/// alone.
pub uninterp spec fn blake2b256_of(data: Seq<u8>) -> Seq<u8>;

/// Relies on `blake2::Blake2b` with a 32-byte output size: the digest is a
/// deterministic function of the input bytes and is exactly 32 bytes long.
#[verifier::external_body]
pub fn blake2b_256(data: &Vec<u8>) -> (r: Vec<u8>)
    ensures
        r@ == blake2b256_of(data@),
        r@.len() == 32,
{
    let mut h = blake2::Blake2b::<blake2::digest::consts::U32>::new();
    h.update(data.as_slice());
    h.finalize().to_vec()
}

/// The SHA3-256 digest of a byte string, as a function of the bytes alone.
pub uninterp spec fn sha3_256_of(data: Seq<u8>) -> Seq<u8>;

/// Relies on `sha3::Sha3_256`: the digest is a deterministic function of
/// the input bytes and is exactly 32 bytes long.
#[verifier::external_body]
pub fn sha3_256(data: &Vec<u8>) -> (r: Vec<u8>)
    ensures
        r@ == sha3_256_of(data@),
        r@.len() == 32,
{
    let mut h = sha3::Sha3_256::new();
    h.update(data.as_slice());
    h.finalize().to_vec()
}

/// Whether an SR25519 signature verifies a message under a public key, as a
/// function of the three byte strings alone.
pub uninterp spec fn sr25519_verifies(sig: Seq<u8>, msg: Seq<u8>, pubkey: Seq<u8>) -> bool;

/// Relies on `schnorrkel::PublicKey::verify_simple` under the signing
/// context the surrounding runtime uses for transactions: verification is
/// deterministic in signature, message and key, and fails on malformed key
/// or signature bytes.
#[verifier::external_body]
pub fn sr25519_verify(sig: &Vec<u8>, msg: &Vec<u8>, pubkey: &Vec<u8>) -> (r: bool)
    ensures
        r == sr25519_verifies(sig@, msg@, pubkey@),
{
    let pk = match schnorrkel::PublicKey::from_bytes(pubkey.as_slice()) {
        Ok(pk) => pk,
        Err(_) => return false,
    };
    let s = match schnorrkel::Signature::from_bytes(sig.as_slice()) {
        Ok(s) => s,
        Err(_) => return false,
    };
    pk.verify_simple(b"substrate", msg.as_slice(), &s).is_ok()
}

} // verus!
