//! Canonical byte encoding of the data model.
//!
//! Integers are little-endian and fixed-width, sequences carry a fixed-width
//! length prefix, and structs are encoded field by field in declaration
//! order.  The encoding feeds content addressing, signing preimages and the
//! proof-of-work computation, so it is consensus-critical and must never
//! change.

use vstd::prelude::*;
use crate::bytes::le_bytes;
use crate::tx::{Input, InputM, Output, OutputM, Transaction, TxM, SIG_LEN};

verus! {

pub open spec fn enc_u64(x: u64) -> Seq<u8> {
    le_bytes(x as nat, 8)
}

pub open spec fn enc_u128(x: u128) -> Seq<u8> {
    le_bytes(x as nat, 16)
}

/// Encoding of a 256-bit value given as a mathematical number.
pub open spec fn enc_u256(x: nat) -> Seq<u8> {
    le_bytes(x, 32)
}

pub open spec fn enc_output(o: OutputM) -> Seq<u8> {
    enc_u128(o.value) + o.pubkey
}

pub open spec fn enc_input(i: InputM) -> Seq<u8> {
    i.outpoint + i.sigscript
}

pub open spec fn cat_inputs(s: Seq<InputM>) -> Seq<u8>
    decreases s.len(),
{
    if s.len() == 0 {
        Seq::empty()
    } else {
        cat_inputs(s.drop_last()) + enc_input(s.last())
    }
}

pub open spec fn cat_outputs(s: Seq<OutputM>) -> Seq<u8>
    decreases s.len(),
{
    if s.len() == 0 {
        Seq::empty()
    } else {
        cat_outputs(s.drop_last()) + enc_output(s.last())
    }
}

/// The canonical encoding of a whole transaction.
pub open spec fn enc_tx(t: TxM) -> Seq<u8> {
    enc_u64(t.inputs.len() as u64) + cat_inputs(t.inputs) + enc_u64(t.outputs.len() as u64)
        + cat_outputs(t.outputs)
}

/// The all-zero sigscript that takes every signature's place in the signing
/// preimage.
pub open spec fn zero_sig() -> Seq<u8> {
    Seq::new(SIG_LEN as nat, |i: int| 0u8)
}

/// The transaction with every sigscript replaced by the all-zero value.
pub open spec fn clear_sigs(t: TxM) -> TxM {
    TxM {
        inputs: t.inputs.map_values(
            |i: InputM| InputM { outpoint: i.outpoint, sigscript: zero_sig() },
        ),
        outputs: t.outputs,
    }
}

/// The message that every input of a transaction signs.
pub open spec fn signing_preimage(t: TxM) -> Seq<u8> {
    enc_tx(clear_sigs(t))
}

/// Append a byte string.
pub fn append_bytes(out: &mut Vec<u8>, src: &Vec<u8>)
    ensures
        final(out)@ == old(out)@ + src@,
{
    let n = src.len();
    let mut i: usize = 0;
    proof {
        assert(out@ =~= old(out)@ + src@.subrange(0, 0));
    }
    while i < n
        invariant
            i <= n,
            n == src@.len(),
            out@ == old(out)@ + src@.subrange(0, i as int),
        decreases n - i,
    {
        out.push(src[i]);
        proof {
            assert(out@ =~= old(out)@ + src@.subrange(0, i + 1));
        }
        i = i + 1;
    }
    proof {
        assert(out@ =~= old(out)@ + src@);
    }
}

/// Append a 64-bit integer, little-endian, 8 bytes.
pub fn append_u64_le(out: &mut Vec<u8>, x: u64)
    ensures
        final(out)@ == old(out)@ + enc_u64(x),
{
    let mut cur: u64 = x;
    let mut i: usize = 0;
    proof {
        assert(out@ + le_bytes(x as nat, 8) =~= old(out)@ + enc_u64(x));
    }
    while i < 8
        invariant
            i <= 8,
            out@ + le_bytes(cur as nat, (8 - i) as nat) == old(out)@ + enc_u64(x),
        decreases 8 - i,
    {
        let b: u8 = (cur % 256) as u8;
        let cur_new = cur / 256;
        proof {
            assert(le_bytes(cur as nat, (8 - i) as nat) == seq![b] + le_bytes(
                cur_new as nat,
                (8 - i - 1) as nat,
            ));
            assert(out@.push(b) + le_bytes(cur_new as nat, (8 - i - 1) as nat) =~= out@
                + le_bytes(cur as nat, (8 - i) as nat));
        }
        out.push(b);
        cur = cur_new;
        i = i + 1;
    }
    proof {
        assert(out@ + le_bytes(cur as nat, 0) =~= out@);
    }
}

/// Append a 128-bit integer, little-endian, 16 bytes.
pub fn append_u128_le(out: &mut Vec<u8>, x: u128)
    ensures
        final(out)@ == old(out)@ + enc_u128(x),
{
    let mut cur: u128 = x;
    let mut i: usize = 0;
    proof {
        assert(out@ + le_bytes(x as nat, 16) =~= old(out)@ + enc_u128(x));
    }
    while i < 16
        invariant
            i <= 16,
            out@ + le_bytes(cur as nat, (16 - i) as nat) == old(out)@ + enc_u128(x),
        decreases 16 - i,
    {
        let b: u8 = (cur % 256) as u8;
        let cur_new = cur / 256;
        proof {
            assert(le_bytes(cur as nat, (16 - i) as nat) == seq![b] + le_bytes(
                cur_new as nat,
                (16 - i - 1) as nat,
            ));
            assert(out@.push(b) + le_bytes(cur_new as nat, (16 - i - 1) as nat) =~= out@
                + le_bytes(cur as nat, (16 - i) as nat));
        }
        out.push(b);
        cur = cur_new;
        i = i + 1;
    }
    proof {
        assert(out@ + le_bytes(cur as nat, 0) =~= out@);
    }
}

/// Append the all-zero sigscript.
fn append_zero_sig(out: &mut Vec<u8>)
    ensures
        final(out)@ == old(out)@ + zero_sig(),
{
    let mut i: usize = 0;
    proof {
        assert(out@ =~= old(out)@ + zero_sig().subrange(0, 0));
    }
    while i < SIG_LEN
        invariant
            i <= SIG_LEN,
            out@ == old(out)@ + zero_sig().subrange(0, i as int),
        decreases SIG_LEN - i,
    {
        out.push(0u8);
        proof {
            assert(out@ =~= old(out)@ + zero_sig().subrange(0, i + 1));
        }
        i = i + 1;
    }
    proof {
        assert(out@ =~= old(out)@ + zero_sig());
    }
}

/// Shared body of the two transaction encoders: with the real sigscripts it
/// produces the canonical encoding, with zeroed sigscripts the signing
/// preimage.
fn encode_tx_inner(t: &Transaction, zero_sigs: bool) -> (r: Vec<u8>)
    ensures
        r@ == if zero_sigs {
            signing_preimage(t@)
        } else {
            enc_tx(t@)
        },
{
    let ghost tm: TxM = if zero_sigs {
        clear_sigs(t@)
    } else {
        t@
    };
    proof {
        assert(tm.inputs.len() == t.inputs@.len());
        assert(tm.outputs.len() == t.outputs@.len());
    }
    let mut out: Vec<u8> = Vec::new();
    append_u64_le(&mut out, t.inputs.len() as u64);
    let n_in = t.inputs.len();
    let mut i: usize = 0;
    proof {
        assert(cat_inputs(tm.inputs.subrange(0, 0)) =~= Seq::<u8>::empty());
        assert(out@ =~= enc_u64(t.inputs.len() as u64) + cat_inputs(tm.inputs.subrange(0, 0)));
    }
    while i < n_in
        invariant
            i <= n_in,
            n_in == t.inputs@.len(),
            tm == if zero_sigs {
                clear_sigs(t@)
            } else {
                t@
            },
            tm.inputs.len() == n_in,
            out@ == enc_u64(n_in as u64) + cat_inputs(tm.inputs.subrange(0, i as int)),
        decreases n_in - i,
    {
        let input = &t.inputs[i];
        append_bytes(&mut out, &input.outpoint);
        if zero_sigs {
            append_zero_sig(&mut out);
        } else {
            append_bytes(&mut out, &input.sigscript);
        }
        proof {
            let pre = tm.inputs.subrange(0, i as int);
            let post = tm.inputs.subrange(0, i + 1);
            assert(post.drop_last() =~= pre);
            assert(post.last() == tm.inputs[i as int]);
            assert(tm.inputs[i as int].outpoint == input.outpoint@);
            if zero_sigs {
                assert(tm.inputs[i as int].sigscript == zero_sig());
            } else {
                assert(tm.inputs[i as int].sigscript == input.sigscript@);
            }
            assert(out@ =~= enc_u64(n_in as u64) + cat_inputs(post));
        }
        i = i + 1;
    }
    proof {
        assert(tm.inputs.subrange(0, n_in as int) =~= tm.inputs);
    }
    append_u64_le(&mut out, t.outputs.len() as u64);
    let n_out = t.outputs.len();
    let ghost mid: Seq<u8> = out@;
    let mut j: usize = 0;
    proof {
        assert(cat_outputs(tm.outputs.subrange(0, 0)) =~= Seq::<u8>::empty());
        assert(out@ =~= mid + cat_outputs(tm.outputs.subrange(0, 0)));
    }
    while j < n_out
        invariant
            j <= n_out,
            n_out == t.outputs@.len(),
            tm == if zero_sigs {
                clear_sigs(t@)
            } else {
                t@
            },
            tm.outputs.len() == n_out,
            out@ == mid + cat_outputs(tm.outputs.subrange(0, j as int)),
        decreases n_out - j,
    {
        let output = &t.outputs[j];
        append_u128_le(&mut out, output.value);
        append_bytes(&mut out, &output.pubkey);
        proof {
            let pre = tm.outputs.subrange(0, j as int);
            let post = tm.outputs.subrange(0, j + 1);
            assert(post.drop_last() =~= pre);
            assert(post.last() == tm.outputs[j as int]);
            assert(tm.outputs[j as int] == output@);
            assert(out@ =~= mid + cat_outputs(post));
        }
        j = j + 1;
    }
    proof {
        assert(tm.outputs.subrange(0, n_out as int) =~= tm.outputs);
        assert(out@ =~= enc_u64(n_in as u64) + cat_inputs(tm.inputs) + enc_u64(n_out as u64)
            + cat_outputs(tm.outputs));
    }
    out
}

/// The canonical encoding of a transaction.
pub fn encode_transaction(t: &Transaction) -> (r: Vec<u8>)
    ensures
        r@ == enc_tx(t@),
{
    encode_tx_inner(t, false)
}

/// The signing preimage: the canonical encoding with every sigscript
/// zeroed, so that all inputs sign the same message.
pub fn encode_signing_preimage(t: &Transaction) -> (r: Vec<u8>)
    ensures
        r@ == signing_preimage(t@),
{
    encode_tx_inner(t, true)
}

/// The encoding of a single output, used for the block-author reward id.
pub fn encode_output(o: &Output) -> (r: Vec<u8>)
    ensures
        r@ == enc_output(o@),
{
    let mut out: Vec<u8> = Vec::new();
    append_u128_le(&mut out, o.value);
    append_bytes(&mut out, &o.pubkey);
    out
}

/// The signing preimage does not depend on the sigscripts: two transactions
/// that differ only there sign the same message, so re-signing an input
/// never changes what is signed.
pub proof fn lemma_preimage_ignores_sigscripts(t1: TxM, t2: TxM)
    requires
        t1.inputs.len() == t2.inputs.len(),
        forall|i: int|
            0 <= i < t1.inputs.len() ==> (#[trigger] t1.inputs[i]).outpoint
                == t2.inputs[i].outpoint,
        t1.outputs == t2.outputs,
    ensures
        signing_preimage(t1) == signing_preimage(t2),
{
    assert(clear_sigs(t1).inputs =~= clear_sigs(t2).inputs);
    assert(clear_sigs(t1) == clear_sigs(t2));
}

} // verus!
