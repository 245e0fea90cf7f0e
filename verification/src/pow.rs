//! The proof-of-work seal: its canonical byte shape, the work
//! computation over SHA3-256, the difficulty predicate, and the verifier
//! the consensus layer calls on every imported block.
//!
//! A hash meets a difficulty when the 256-bit number it denotes,
//! multiplied by the difficulty, still fits 256 bits: the higher the
//! difficulty, the smaller the admissible hashes.

use vstd::prelude::*;
use vstd::arithmetic::div_mod::{lemma_div_is_ordered, lemma_div_multiples_vanish};
use vstd::arithmetic::mul::{lemma_mul_inequality, lemma_mul_is_commutative};
use std::sync::Arc;
use crate::bytes::{be_val, bytes_clone, bytes_eq, le_val, lemma_le_bytes_len, lemma_le_val_of_le_bytes, sub_bytes};
use crate::codec::enc_u256;
use crate::crypto::{sha3_256, sha3_256_of};
use crate::u256::{lemma_pow2_256, p256, U256};

verus! {

/// Ghost model of a seal.
pub struct SealM {
    pub difficulty: nat,
    pub work: Seq<u8>,
    pub nonce: Seq<u8>,
}

/// A solved seal, as it travels with a block: the difficulty it claims,
/// the work hash, and the nonce that produced it.
pub struct Seal {
    pub difficulty: U256,
    pub work: Vec<u8>,
    pub nonce: Vec<u8>,
}

impl View for Seal {
    type V = SealM;

    open spec fn view(&self) -> SealM {
        SealM { difficulty: self.difficulty.as_nat(), work: self.work@, nonce: self.nonce@ }
    }
}

impl Seal {
    pub open spec fn wf(self) -> bool {
        self.work@.len() == 32 && self.nonce@.len() == 32
    }
}

/// A not-yet-computed attempt to solve the proof of work; `compute`
/// derives the work hash and returns the seal.
pub struct Compute {
    pub difficulty: U256,
    pub pre_hash: Vec<u8>,
    pub nonce: Vec<u8>,
}

/// The canonical bytes of a `Compute`: difficulty, pre-hash, nonce, in
/// declaration order.
pub open spec fn enc_compute(difficulty: nat, pre_hash: Seq<u8>, nonce: Seq<u8>) -> Seq<u8> {
    enc_u256(difficulty) + pre_hash + nonce
}

/// The canonical bytes of a `Seal`: difficulty, work, nonce, in
/// declaration order.
pub open spec fn enc_seal(difficulty: nat, work: Seq<u8>, nonce: Seq<u8>) -> Seq<u8> {
    enc_u256(difficulty) + work + nonce
}

impl Compute {
    /// Solve the attempt: the work is the SHA3-256 digest of the
    /// attempt's canonical bytes.
    pub fn compute(self) -> (r: Seal)
        ensures
            r.difficulty == self.difficulty,
            r.nonce@ == self.nonce@,
            r.work@ == sha3_256_of(
                enc_compute(self.difficulty.as_nat(), self.pre_hash@, self.nonce@),
            ),
            r.work@.len() == 32,
    {
        let mut buf = self.difficulty.to_le_bytes();
        crate::codec::append_bytes(&mut buf, &self.pre_hash);
        crate::codec::append_bytes(&mut buf, &self.nonce);
        let work = sha3_256(&buf);
        Seal { difficulty: self.difficulty, work, nonce: self.nonce }
    }
}

/// Whether a work hash satisfies a difficulty: the product of the two
/// must not overflow 256 bits.
pub fn hash_meets_difficulty(work: &Vec<u8>, difficulty: &U256) -> (r: bool)
    requires
        work@.len() == 32,
    ensures
        r == (be_val(work@) * difficulty.as_nat() < p256()),
{
    let num = U256::from_be_bytes(work);
    if difficulty.is_zero() {
        return true;
    }
    if num.is_zero() {
        return true;
    }
    let limit = U256::max_value();
    let (q, rem) = limit.div_rem(difficulty);
    let fits = num.le(&q);
    proof {
        let n = num.as_nat() as int;
        let d = difficulty.as_nat() as int;
        let qi = q.as_nat() as int;
        if fits {
            // n <= q, so n * d <= q * d <= q * d + rem < 2^256
            lemma_mul_inequality(n, qi, d);
        } else {
            // n > q; if n * d fit, dividing by d would put n at or below q
            if n * d < p256() {
                lemma_div_is_ordered(n * d, p256() as int - 1, d);
                lemma_div_multiples_vanish(n, d);
                lemma_mul_is_commutative(n, d);
                assert((d * n) / d == n);
                assert(qi == (p256() as int - 1) / d) by {
                    vstd::arithmetic::div_mod::lemma_fundamental_div_mod_converse(
                        p256() as int - 1,
                        d,
                        qi,
                        rem.as_nat() as int,
                    );
                }
                assert(false);
            }
        }
    }
    fits
}

/// Serialize a seal to its canonical 96 bytes.
pub fn encode_seal(s: &Seal) -> (r: Vec<u8>)
    ensures
        r@ == enc_seal(s.difficulty.as_nat(), s.work@, s.nonce@),
{
    let mut buf = s.difficulty.to_le_bytes();
    crate::codec::append_bytes(&mut buf, &s.work);
    crate::codec::append_bytes(&mut buf, &s.nonce);
    buf
}

/// Parse a seal from raw bytes; anything shorter than the 96 canonical
/// bytes is refused, and trailing bytes are ignored.
pub fn decode_seal(bytes: &Vec<u8>) -> (r: Option<Seal>)
    ensures
        match r {
            Some(s) => {
                &&& bytes@.len() >= 96
                &&& s.difficulty.as_nat() == le_val(bytes@.subrange(0, 32))
                &&& s.work@ == bytes@.subrange(32, 64)
                &&& s.nonce@ == bytes@.subrange(64, 96)
                &&& s.wf()
            },
            None => bytes@.len() < 96,
        },
{
    if bytes.len() < 96 {
        return None;
    }
    let difficulty_bytes = sub_bytes(bytes, 0, 32);
    let difficulty = U256::from_le_bytes(&difficulty_bytes);
    let work = sub_bytes(bytes, 32, 64);
    let nonce = sub_bytes(bytes, 64, 96);
    Some(Seal { difficulty, work, nonce })
}

/// What the verifier accepts: the seal bytes decode, the decoded
/// difficulty is the one the chain demands, the work hash meets it, and
/// the work is really the SHA3-256 digest of the canonical attempt built
/// from the pre-hash and the seal's nonce.
pub open spec fn spec_pow_verify(pre_hash: Seq<u8>, seal: Seq<u8>, difficulty: nat) -> bool {
    &&& seal.len() >= 96
    &&& le_val(seal.subrange(0, 32)) == difficulty
    &&& be_val(seal.subrange(32, 64)) * difficulty < p256()
    &&& seal.subrange(32, 64) == sha3_256_of(
        enc_compute(difficulty, pre_hash, seal.subrange(64, 96)),
    )
}

/// Verify a proof-of-work seal against a block's pre-hash and the
/// difficulty the chain demands.
pub fn pow_verify(pre_hash: &Vec<u8>, seal_bytes: &Vec<u8>, difficulty: &U256) -> (r: bool)
    ensures
        r == spec_pow_verify(pre_hash@, seal_bytes@, difficulty.as_nat()),
{
    let seal = match decode_seal(seal_bytes) {
        Some(s) => s,
        None => {
            return false;
        },
    };
    if !hash_meets_difficulty(&seal.work, difficulty) {
        return false;
    }
    // the seal must claim exactly the difficulty the chain demands
    if !(seal.difficulty.lo == difficulty.lo && seal.difficulty.hi == difficulty.hi) {
        return false;
    }
    let attempt = Compute {
        difficulty: seal.difficulty,
        pre_hash: bytes_clone(pre_hash),
        nonce: seal.nonce,
    };
    let expected = attempt.compute();
    bytes_eq(&expected.work, &seal.work)
}

/// A complete proof-of-work algorithm over SHA3-256, holding the client
/// handle the surrounding consensus layer fetches difficulties through.
pub struct Sha3Algorithm<C> {
    pub client: Arc<C>,
}

impl<C> Sha3Algorithm<C> {
    pub fn new(client: Arc<C>) -> (r: Self)
        ensures
            r.client == client,
    {
        Sha3Algorithm { client }
    }

    /// Seal verification as the consensus layer calls it.
    pub fn verify(&self, pre_hash: &Vec<u8>, seal_bytes: &Vec<u8>, difficulty: &U256) -> (r: bool)
        ensures
            r == spec_pow_verify(pre_hash@, seal_bytes@, difficulty.as_nat()),
    {
        pow_verify(pre_hash, seal_bytes, difficulty)
    }
}

/// A seal built from a genuine work hash round-trips through the
/// verifier: the canonical bytes of `Seal { difficulty, work, nonce }`
/// are accepted for `(pre_hash, difficulty)` exactly when the work is the
/// digest of the canonical attempt and meets the difficulty.  In
/// particular, flipping any bit of the stored work makes the verifier
/// reject.
pub proof fn lemma_pow_roundtrip(pre_hash: Seq<u8>, difficulty: nat, work: Seq<u8>, nonce: Seq<u8>)
    requires
        difficulty < p256(),
        work.len() == 32,
        nonce.len() == 32,
    ensures
        spec_pow_verify(pre_hash, enc_seal(difficulty, work, nonce), difficulty) <==> (be_val(work)
            * difficulty < p256() && work == sha3_256_of(enc_compute(difficulty, pre_hash, nonce))),
{
    let enc = enc_seal(difficulty, work, nonce);
    lemma_le_bytes_len(difficulty, 32);
    assert(enc.len() == 96);
    assert(enc.subrange(0, 32) =~= crate::bytes::le_bytes(difficulty, 32));
    assert(enc.subrange(32, 64) =~= work);
    assert(enc.subrange(64, 96) =~= nonce);
    lemma_le_val_of_le_bytes(difficulty, 32);
    lemma_pow2_256();
    assert(le_val(enc.subrange(0, 32)) == difficulty % p256());
    assert(difficulty % p256() == difficulty) by {
        vstd::arithmetic::div_mod::lemma_small_mod(difficulty, p256());
    }
}

} // verus!
