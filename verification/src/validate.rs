//! The transaction validator: a pure function over a transaction and the
//! current unspent-output set, returning either a verdict (the mempool
//! tags and the fee-derived priority) or the first rejection reason, in
//! the fixed order the consensus rules prescribe.

use vstd::prelude::*;
use crate::bytes::{bytes_clone, bytes_eq};
use crate::codec::{
    append_u64_le, enc_tx, enc_u64, encode_signing_preimage, encode_transaction, signing_preimage,
};
use crate::crypto::{blake2b256_of, blake2b_256, sr25519_verifies, sr25519_verify};
use crate::tx::{InputM, OutputM, RejectReason, Transaction, TxM, Verdict, VerdictM};
use crate::utxo_set::UtxoSet;

verus! {

/// The deterministic id of output `i` of transaction `t`: the BLAKE2b-256
/// hash of the whole transaction encoding followed by the output's
/// position.
pub open spec fn output_id_of(t: TxM, i: int) -> Seq<u8> {
    blake2b256_of(enc_tx(t) + enc_u64(i as u64))
}

/// Two inputs reference the same outpoint.
pub open spec fn has_dup_input(t: TxM) -> bool {
    exists|i: int, j: int|
        #![trigger t.inputs[i], t.inputs[j]]
        0 <= i < j < t.inputs.len() && t.inputs[i].outpoint == t.inputs[j].outpoint
}

/// Two outputs are byte-identical.
pub open spec fn has_dup_output(t: TxM) -> bool {
    exists|i: int, j: int|
        #![trigger t.outputs[i], t.outputs[j]]
        0 <= i < j < t.outputs.len() && t.outputs[i] == t.outputs[j]
}

/// The fee saturated to the 64-bit priority the mempool understands.
pub open spec fn saturate_to_u64(fee: int) -> u64 {
    if fee > u64::MAX {
        u64::MAX
    } else {
        fee as u64
    }
}

/// Scan of the first inputs of a transaction, in order: collects the
/// outpoints absent from the set, verifies the signature of each present
/// one against the signing preimage, and accumulates the referenced values
/// with a 128-bit overflow check.  The first violated check decides.
pub open spec fn scan_inputs(
    inputs: Seq<InputM>,
    m: Map<Seq<u8>, OutputM>,
    pre: Seq<u8>,
) -> Result<(Seq<Seq<u8>>, nat), RejectReason>
    decreases inputs.len(),
{
    if inputs.len() == 0 {
        Ok((Seq::empty(), 0nat))
    } else {
        match scan_inputs(inputs.drop_last(), m, pre) {
            Err(e) => Err(e),
            Ok(acc) => {
                let inp = inputs.last();
                if m.contains_key(inp.outpoint) {
                    if !sr25519_verifies(inp.sigscript, pre, m[inp.outpoint].pubkey) {
                        Err(RejectReason::BadSignature)
                    } else if acc.1 + m[inp.outpoint].value > u128::MAX {
                        Err(RejectReason::InputOverflow)
                    } else {
                        Ok((acc.0, (acc.1 + m[inp.outpoint].value) as nat))
                    }
                } else {
                    Ok((acc.0.push(inp.outpoint), acc.1))
                }
            },
        }
    }
}

/// Scan of the first `k` outputs of a transaction, in order: rejects zero
/// values and ids already present in the set, accumulates the created
/// values with a 128-bit overflow check, and collects the created ids.
pub open spec fn scan_outputs(t: TxM, m: Map<Seq<u8>, OutputM>, k: int) -> Result<
    (Seq<Seq<u8>>, nat),
    RejectReason,
>
    decreases k,
{
    if k <= 0 {
        Ok((Seq::empty(), 0nat))
    } else {
        match scan_outputs(t, m, k - 1) {
            Err(e) => Err(e),
            Ok(acc) => {
                let o = t.outputs[k - 1];
                if o.value == 0 {
                    Err(RejectReason::ZeroOutput)
                } else if m.contains_key(output_id_of(t, k - 1)) {
                    Err(RejectReason::OutputCollision)
                } else if acc.1 + o.value > u128::MAX {
                    Err(RejectReason::OutputOverflow)
                } else {
                    Ok((acc.0.push(output_id_of(t, k - 1)), (acc.1 + o.value) as nat))
                }
            },
        }
    }
}

/// What the validator returns, as a mathematical function of the
/// transaction and the unspent-output map.
pub open spec fn spec_validate(t: TxM, m: Map<Seq<u8>, OutputM>) -> Result<
    VerdictM,
    RejectReason,
> {
    if t.inputs.len() == 0 {
        Err(RejectReason::NoInputs)
    } else if t.outputs.len() == 0 {
        Err(RejectReason::NoOutputs)
    } else if has_dup_input(t) {
        Err(RejectReason::DuplicateInput)
    } else if has_dup_output(t) {
        Err(RejectReason::DuplicateOutput)
    } else {
        match scan_inputs(t.inputs, m, signing_preimage(t)) {
            Err(e) => Err(e),
            Ok(ins) => match scan_outputs(t, m, t.outputs.len() as int) {
                Err(e) => Err(e),
                Ok(outs) => if ins.0.len() > 0 {
                    Ok(
                        VerdictM {
                            missing: ins.0,
                            provides: outs.0,
                            priority: 0,
                            longevity: u64::MAX,
                        },
                    )
                } else if outs.1 > ins.1 {
                    Err(RejectReason::OverSpend)
                } else {
                    Ok(
                        VerdictM {
                            missing: ins.0,
                            provides: outs.0,
                            priority: saturate_to_u64(ins.1 - outs.1),
                            longevity: u64::MAX,
                        },
                    )
                },
            },
        }
    }
}

/// The strict form used at block execution: a transaction whose inputs are
/// not all present is rejected outright.
pub open spec fn spec_validate_strict(t: TxM, m: Map<Seq<u8>, OutputM>) -> Result<
    VerdictM,
    RejectReason,
> {
    match spec_validate(t, m) {
        Err(e) => Err(e),
        Ok(v) => if v.missing.len() > 0 {
            Err(RejectReason::MissingInput)
        } else {
            Ok(v)
        },
    }
}

/// An input scan that has already failed stays failed however much
/// further it runs.
proof fn lemma_scan_inputs_err_extends(
    inputs: Seq<InputM>,
    m: Map<Seq<u8>, OutputM>,
    pre: Seq<u8>,
    k: int,
)
    requires
        0 <= k <= inputs.len(),
        scan_inputs(inputs.subrange(0, k), m, pre) is Err,
    ensures
        scan_inputs(inputs, m, pre) == scan_inputs(inputs.subrange(0, k), m, pre),
    decreases inputs.len() - k,
{
    if k == inputs.len() {
        assert(inputs.subrange(0, k) =~= inputs);
    } else {
        assert(inputs.subrange(0, k + 1).drop_last() =~= inputs.subrange(0, k));
        lemma_scan_inputs_err_extends(inputs, m, pre, k + 1);
    }
}

/// An output scan that has already failed stays failed too.
proof fn lemma_scan_outputs_err_extends(t: TxM, m: Map<Seq<u8>, OutputM>, k: int, n: int)
    requires
        0 <= k <= n,
        scan_outputs(t, m, k) is Err,
    ensures
        scan_outputs(t, m, n) == scan_outputs(t, m, k),
    decreases n - k,
{
    if k < n {
        lemma_scan_outputs_err_extends(t, m, k + 1, n);
    }
}

/// Whether two inputs of the transaction share an outpoint.
fn has_duplicate_input(t: &Transaction) -> (r: bool)
    ensures
        r == has_dup_input(t@),
{
    let n = t.inputs.len();
    let mut i: usize = 0;
    while i < n
        invariant
            i <= n,
            n == t.inputs@.len(),
            forall|p: int, q: int|
                #![trigger t@.inputs[p], t@.inputs[q]]
                0 <= p < q < i ==> t@.inputs[p].outpoint != t@.inputs[q].outpoint,
        decreases n - i,
    {
        let mut j: usize = 0;
        while j < i
            invariant
                j <= i,
                i < n,
                n == t.inputs@.len(),
                forall|q: int|
                    0 <= q < j ==> (#[trigger] t@.inputs[q]).outpoint != t@.inputs[i as int].outpoint,
            decreases i - j,
        {
            if bytes_eq(&t.inputs[j].outpoint, &t.inputs[i].outpoint) {
                assert(t@.inputs[j as int].outpoint == t@.inputs[i as int].outpoint);
                return true;
            }
            j = j + 1;
        }
        i = i + 1;
    }
    false
}

/// Whether two outputs of the transaction are byte-identical.
fn has_duplicate_output(t: &Transaction) -> (r: bool)
    ensures
        r == has_dup_output(t@),
{
    let n = t.outputs.len();
    let mut i: usize = 0;
    while i < n
        invariant
            i <= n,
            n == t.outputs@.len(),
            forall|p: int, q: int|
                #![trigger t@.outputs[p], t@.outputs[q]]
                0 <= p < q < i ==> t@.outputs[p] != t@.outputs[q],
        decreases n - i,
    {
        let mut j: usize = 0;
        while j < i
            invariant
                j <= i,
                i < n,
                n == t.outputs@.len(),
                forall|q: int| 0 <= q < j ==> (#[trigger] t@.outputs[q]) != t@.outputs[i as int],
            decreases i - j,
        {
            let same_value = t.outputs[j].value == t.outputs[i].value;
            if same_value && bytes_eq(&t.outputs[j].pubkey, &t.outputs[i].pubkey) {
                assert(t@.outputs[j as int] == t@.outputs[i as int]);
                return true;
            }
            j = j + 1;
        }
        i = i + 1;
    }
    false
}

/// The id of output `i` of the transaction whose canonical encoding is
/// `tx_enc`.
pub fn compute_output_id(tx_enc: &Vec<u8>, i: u64) -> (r: Vec<u8>)
    ensures
        r@ == blake2b256_of(tx_enc@ + enc_u64(i)),
        r@.len() == 32,
{
    let mut buf = bytes_clone(tx_enc);
    append_u64_le(&mut buf, i);
    blake2b_256(&buf)
}

/// Validate a transaction against the unspent-output set.  The result is
/// exactly `spec_validate` of the transaction and the set's map.
#[verifier::loop_isolation(false)]
pub fn validate(t: &Transaction, utxo: &UtxoSet) -> (r: Result<Verdict, RejectReason>)
    requires
        utxo.wf(),
    ensures
        match r {
            Ok(v) => spec_validate(t@, utxo@) == Ok::<VerdictM, RejectReason>(v@),
            Err(e) => spec_validate(t@, utxo@) == Err::<VerdictM, RejectReason>(e),
        },
{
    let n_in = t.inputs.len();
    let n_out = t.outputs.len();
    if n_in == 0 {
        return Err(RejectReason::NoInputs);
    }
    if n_out == 0 {
        return Err(RejectReason::NoOutputs);
    }
    if has_duplicate_input(t) {
        return Err(RejectReason::DuplicateInput);
    }
    if has_duplicate_output(t) {
        return Err(RejectReason::DuplicateOutput);
    }
    let preimage = encode_signing_preimage(t);

    let mut missing: Vec<Vec<u8>> = Vec::new();
    let mut total_in: u128 = 0;
    let mut i: usize = 0;
    proof {
        assert(t@.inputs.subrange(0, 0) =~= Seq::<InputM>::empty());
        assert(missing@.map_values(|v: Vec<u8>| v@) =~= Seq::<Seq<u8>>::empty());
    }
    while i < n_in
        invariant
            i <= n_in,
            n_in == t.inputs@.len(),
            utxo.wf(),
            preimage@ == signing_preimage(t@),
            scan_inputs(t@.inputs.subrange(0, i as int), utxo@, preimage@) == Ok::<
                (Seq<Seq<u8>>, nat),
                RejectReason,
            >((missing@.map_values(|v: Vec<u8>| v@), total_in as nat)),
        decreases n_in - i,
    {
        let ghost prefix = t@.inputs.subrange(0, i as int);
        let ghost prefix1 = t@.inputs.subrange(0, i + 1);
        proof {
            assert(prefix1.drop_last() =~= prefix);
            assert(prefix1.last() == t@.inputs[i as int]);
        }
        let input = &t.inputs[i];
        match utxo.get(&input.outpoint) {
            Some(referenced) => {
                if !sr25519_verify(&input.sigscript, &preimage, &referenced.pubkey) {
                    proof {
                        lemma_scan_inputs_err_extends(t@.inputs, utxo@, preimage@, i + 1);
                    }
                    return Err(RejectReason::BadSignature);
                }
                match total_in.checked_add(referenced.value) {
                    Some(new_total) => {
                        total_in = new_total;
                    },
                    None => {
                        proof {
                            lemma_scan_inputs_err_extends(t@.inputs, utxo@, preimage@, i + 1);
                        }
                        return Err(RejectReason::InputOverflow);
                    },
                }
            },
            None => {
                let outpoint = bytes_clone(&input.outpoint);
                proof {
                    assert(missing@.push(outpoint).map_values(|v: Vec<u8>| v@) =~= missing@
                        .map_values(|v: Vec<u8>| v@).push(outpoint@));
                }
                missing.push(outpoint);
            },
        }
        i = i + 1;
    }
    proof {
        assert(t@.inputs.subrange(0, n_in as int) =~= t@.inputs);
    }

    let tx_enc = encode_transaction(t);
    let mut provides: Vec<Vec<u8>> = Vec::new();
    let mut total_out: u128 = 0;
    let mut j: usize = 0;
    proof {
        assert(provides@.map_values(|v: Vec<u8>| v@) =~= Seq::<Seq<u8>>::empty());
    }
    while j < n_out
        invariant
            j <= n_out,
            n_out == t.outputs@.len(),
            utxo.wf(),
            tx_enc@ == enc_tx(t@),
            scan_outputs(t@, utxo@, j as int) == Ok::<(Seq<Seq<u8>>, nat), RejectReason>(
                (provides@.map_values(|v: Vec<u8>| v@), total_out as nat),
            ),
        decreases n_out - j,
    {
        let output = &t.outputs[j];
        if output.value == 0 {
            proof {
                lemma_scan_outputs_err_extends(t@, utxo@, j + 1, n_out as int);
            }
            return Err(RejectReason::ZeroOutput);
        }
        let id = compute_output_id(&tx_enc, j as u64);
        proof {
            assert(id@ == output_id_of(t@, j as int));
        }
        if utxo.contains(&id) {
            proof {
                lemma_scan_outputs_err_extends(t@, utxo@, j + 1, n_out as int);
            }
            return Err(RejectReason::OutputCollision);
        }
        match total_out.checked_add(output.value) {
            Some(new_total) => {
                total_out = new_total;
            },
            None => {
                proof {
                    lemma_scan_outputs_err_extends(t@, utxo@, j + 1, n_out as int);
                }
                return Err(RejectReason::OutputOverflow);
            },
        }
        proof {
            assert(provides@.push(id).map_values(|v: Vec<u8>| v@) =~= provides@.map_values(
                |v: Vec<u8>| v@,
            ).push(id@));
        }
        provides.push(id);
        j = j + 1;
    }

    if missing.len() > 0 {
        let verdict = Verdict { missing, provides, priority: 0, longevity: u64::MAX };
        return Ok(verdict);
    }
    if total_out > total_in {
        return Err(RejectReason::OverSpend);
    }
    let fee = total_in - total_out;
    let priority: u64 = if fee > u64::MAX as u128 {
        u64::MAX
    } else {
        fee as u64
    };
    let verdict = Verdict { missing, provides, priority, longevity: u64::MAX };
    Ok(verdict)
}

} // verus!
