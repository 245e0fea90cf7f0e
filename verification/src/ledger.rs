//! The ledger: the unspent-output set together with the per-block fee
//! accumulator, and the operations a block runs against them — validate
//! for the mempool, spend (validate strictly, then apply atomically), and
//! the block-author reward dispenser.

use vstd::prelude::*;
use crate::bytes::bytes_clone;
use crate::codec::{enc_output, enc_tx, enc_u64, encode_output, encode_transaction, signing_preimage};
use crate::crypto::{blake2b256_of, blake2b_256};
use crate::issuance::Issuance;
use crate::tx::{
    FatalError, InputM, Output, OutputM, RejectReason, Transaction, TxM, Verdict, VerdictM,
};
use crate::utxo_set::UtxoSet;
use crate::validate::{
    compute_output_id, has_dup_input, output_id_of, scan_inputs, scan_outputs, spec_validate,
    spec_validate_strict, validate,
};

verus! {

/// The map after the transaction's outpoints are deleted.
pub open spec fn remove_inputs(m: Map<Seq<u8>, OutputM>, inputs: Seq<InputM>) -> Map<
    Seq<u8>,
    OutputM,
>
    decreases inputs.len(),
{
    if inputs.len() == 0 {
        m
    } else {
        remove_inputs(m, inputs.drop_last()).remove(inputs.last().outpoint)
    }
}

/// The map after the first `k` outputs of the transaction are stored under
/// their ids.
pub open spec fn insert_outputs(m: Map<Seq<u8>, OutputM>, t: TxM, k: int) -> Map<Seq<u8>, OutputM>
    decreases k,
{
    if k <= 0 {
        m
    } else {
        insert_outputs(m, t, k - 1).insert(output_id_of(t, k - 1), t.outputs[k - 1])
    }
}

/// What applying a validated transaction does to the unspent-output map.
pub open spec fn spec_apply_map(m: Map<Seq<u8>, OutputM>, t: TxM) -> Map<Seq<u8>, OutputM> {
    insert_outputs(remove_inputs(m, t.inputs), t, t.outputs.len() as int)
}

/// The fee of a transaction that validated with no missing inputs: input
/// value minus output value.
pub open spec fn spec_fee(t: TxM, m: Map<Seq<u8>, OutputM>) -> nat {
    (scan_inputs(t.inputs, m, signing_preimage(t))->Ok_0.1 - scan_outputs(
        t,
        m,
        t.outputs.len() as int,
    )->Ok_0.1) as nat
}

/// The ids a transaction's outputs would take are pairwise distinct.  This
/// holds whenever the content-addressing hash does not collide on the
/// transaction's own outputs, which differ pairwise in their encoded
/// position.
pub open spec fn provides_distinct(t: TxM) -> bool {
    forall|p: int, q: int|
        0 <= p < q < t.outputs.len() ==> #[trigger] output_id_of(t, p) != #[trigger] output_id_of(
            t,
            q,
        )
}

/// The id under which the reward output of a block is stored: unique per
/// block because the block number is part of the hashed bytes.
pub open spec fn reward_id_of(o: OutputM, block_number: u32) -> Seq<u8> {
    blake2b256_of(enc_output(o) + enc_u64(block_number as u64))
}

/// What the reward dispenser did, for observers.
pub enum RewardEvent {
    /// A reward output of this value was stored under this id.
    Issued { value: u128, id: Vec<u8> },
    /// No reward output was created; the accumulated fees are gone.
    Wasted,
}

/// How one reward dispensation relates the ledger after it to the ledger
/// before it: `Issued` stores the whole reward (accumulated fees plus
/// issuance) as a fresh output locked to the author, `Wasted` leaves the
/// set untouched; either way the accumulator is drained.
pub open spec fn dispense_post(
    pre: Ledger,
    post: Ledger,
    block_number: u32,
    issuance: u128,
    author: Option<Seq<u8>>,
    ev: RewardEvent,
) -> bool {
    &&& post.reward_total == 0
    &&& match ev {
        RewardEvent::Issued { value, id } => {
            &&& author is Some
            &&& value == pre.reward_total + issuance
            &&& value > 0
            &&& id@ == reward_id_of(OutputM { value, pubkey: author->0 }, block_number)
            &&& !pre.utxo@.contains_key(id@)
            &&& post.utxo@ == pre.utxo@.insert(id@, OutputM { value, pubkey: author->0 })
            &&& post.utxo.spec_total() == pre.utxo.spec_total() + value
        },
        RewardEvent::Wasted => {
            &&& post.utxo@ == pre.utxo@
            &&& post.utxo.spec_total() == pre.utxo.spec_total()
            &&& (author is None || pre.reward_total + issuance == 0 || pre.utxo@.contains_key(
                reward_id_of(
                    OutputM { value: (pre.reward_total + issuance) as u128, pubkey: author->0 },
                    block_number,
                ),
            ))
        },
    }
}

/// Everything `spend` can report: a validation failure, or one of the
/// fatal conditions that must abort the block.
#[derive(Clone, Copy, PartialEq, Eq, Structural, Debug)]
pub enum SpendError {
    Reject(RejectReason),
    Fatal(FatalError),
}

proof fn lemma_scan_inputs_prefix_ok(
    inputs: Seq<InputM>,
    m: Map<Seq<u8>, OutputM>,
    pre: Seq<u8>,
    k: int,
)
    requires
        0 <= k <= inputs.len(),
        scan_inputs(inputs, m, pre) is Ok,
    ensures
        scan_inputs(inputs.subrange(0, k), m, pre) is Ok,
        scan_inputs(inputs.subrange(0, k), m, pre)->Ok_0.0.len() <= scan_inputs(
            inputs,
            m,
            pre,
        )->Ok_0.0.len(),
    decreases inputs.len() - k,
{
    if k == inputs.len() {
        assert(inputs.subrange(0, k) =~= inputs);
    } else {
        lemma_scan_inputs_prefix_ok(inputs, m, pre, k + 1);
        assert(inputs.subrange(0, k + 1).drop_last() =~= inputs.subrange(0, k));
    }
}

proof fn lemma_scan_outputs_prefix_ok(t: TxM, m: Map<Seq<u8>, OutputM>, k: int, n: int)
    requires
        0 <= k <= n,
        scan_outputs(t, m, n) is Ok,
    ensures
        scan_outputs(t, m, k) is Ok,
    decreases n - k,
{
    if k < n {
        lemma_scan_outputs_prefix_ok(t, m, k + 1, n);
    }
}

pub proof fn lemma_remove_inputs_facts(m: Map<Seq<u8>, OutputM>, inputs: Seq<InputM>, key: Seq<u8>)
    ensures
        remove_inputs(m, inputs).contains_key(key) <==> (m.contains_key(key) && forall|j: int|
            0 <= j < inputs.len() ==> (#[trigger] inputs[j]).outpoint != key),
        remove_inputs(m, inputs).contains_key(key) ==> remove_inputs(m, inputs)[key] == m[key],
    decreases inputs.len(),
{
    if inputs.len() > 0 {
        lemma_remove_inputs_facts(m, inputs.drop_last(), key);
        if remove_inputs(m, inputs).contains_key(key) {
            assert(forall|j: int|
                0 <= j < inputs.len() - 1 ==> (#[trigger] inputs[j]).outpoint
                    == inputs.drop_last()[j].outpoint);
        }
    }
}

pub proof fn lemma_insert_outputs_contains(m: Map<Seq<u8>, OutputM>, t: TxM, k: int, key: Seq<u8>)
    requires
        k >= 0,
    ensures
        insert_outputs(m, t, k).contains_key(key) <==> (m.contains_key(key) || exists|p: int|
            0 <= p < k && #[trigger] output_id_of(t, p) == key),
    decreases k,
{
    if k > 0 {
        lemma_insert_outputs_contains(m, t, k - 1, key);
        if insert_outputs(m, t, k).contains_key(key) {
            if output_id_of(t, k - 1) == key {
                assert(exists|p: int| 0 <= p < k && #[trigger] output_id_of(t, p) == key);
            }
        }
    }
}

/// The module-owned persistent state: the unspent outputs and the fees
/// accumulated so far in the current block.
pub struct Ledger {
    pub utxo: UtxoSet,
    pub reward_total: u128,
}

impl Ledger {
    pub open spec fn wf(self) -> bool {
        self.utxo.wf()
    }

    pub fn new() -> (r: Ledger)
        ensures
            r.wf(),
            r.utxo@ == Map::<Seq<u8>, OutputM>::empty(),
            r.reward_total == 0,
    {
        Ledger { utxo: UtxoSet::new(), reward_total: 0 }
    }

    /// Validation as the mempool calls it: tolerant of missing inputs,
    /// which it reports as `requires` tags in the verdict.
    pub fn validate_for_pool(&self, t: &Transaction) -> (r: Result<Verdict, RejectReason>)
        requires
            self.wf(),
        ensures
            match r {
                Ok(v) => spec_validate(t@, self.utxo@) == Ok::<VerdictM, RejectReason>(v@),
                Err(e) => spec_validate(t@, self.utxo@) == Err::<VerdictM, RejectReason>(e),
            },
    {
        validate(t, &self.utxo)
    }

    /// Apply a strictly-validated transaction: move the fee into the
    /// reward accumulator, delete every spent outpoint, store every new
    /// output under its id.  All-or-nothing: the only failure leaves the
    /// ledger untouched.
    #[verifier::loop_isolation(false)]
    pub fn apply(&mut self, t: &Transaction) -> (r: Result<(), FatalError>)
        requires
            old(self).wf(),
            t@.wf(),
            spec_validate_strict(t@, old(self).utxo@) is Ok,
        ensures
            final(self).wf(),
            match r {
                Ok(()) => {
                    &&& final(self).utxo@ == spec_apply_map(old(self).utxo@, t@)
                    &&& final(self).reward_total == old(self).reward_total + spec_fee(
                        t@,
                        old(self).utxo@,
                    )
                    &&& final(self).utxo.spec_total() + final(self).reward_total
                        <= old(self).utxo.spec_total() + old(self).reward_total
                    &&& provides_distinct(t@) ==> final(self).utxo.spec_total()
                        + final(self).reward_total == old(self).utxo.spec_total()
                        + old(self).reward_total
                },
                Err(e) => {
                    &&& e == FatalError::RewardOverflow
                    &&& old(self).reward_total + spec_fee(t@, old(self).utxo@) > u128::MAX
                    &&& *final(self) == *old(self)
                },
            },
    {
        let ghost m0 = self.utxo@;
        let ghost pre_spec = signing_preimage(t@);
        let ghost n_out_spec = t@.outputs.len() as int;
        proof {
            assert(spec_validate(t@, m0) is Ok);
            assert(scan_inputs(t@.inputs, m0, pre_spec) is Ok);
            assert(scan_outputs(t@, m0, n_out_spec) is Ok);
            assert(spec_validate(t@, m0)->Ok_0.missing.len() == 0);
            assert(scan_inputs(t@.inputs, m0, pre_spec)->Ok_0.0.len() == 0);
        }
        let ghost total_in_spec = scan_inputs(t@.inputs, m0, pre_spec)->Ok_0.1;
        let ghost total_out_spec = scan_outputs(t@, m0, n_out_spec)->Ok_0.1;
        proof {
            // the OverSpend check passed, so the fee is well defined
            assert(total_out_spec <= total_in_spec);
        }

        // first pass: recompute the input and output value totals
        let n_in = t.inputs.len();
        let mut total_in: u128 = 0;
        let mut i: usize = 0;
        proof {
            assert(t@.inputs.subrange(0, 0) =~= Seq::<InputM>::empty());
        }
        while i < n_in
            invariant
                i <= n_in,
                scan_inputs(t@.inputs.subrange(0, i as int), m0, pre_spec) == Ok::<
                    (Seq<Seq<u8>>, nat),
                    RejectReason,
                >((Seq::empty(), total_in as nat)),
            decreases n_in - i,
        {
            let ghost prefix = t@.inputs.subrange(0, i as int);
            let ghost prefix1 = t@.inputs.subrange(0, i + 1);
            proof {
                lemma_scan_inputs_prefix_ok(t@.inputs, m0, pre_spec, i + 1);
                assert(prefix1.drop_last() =~= prefix);
                assert(prefix1.last() == t@.inputs[i as int]);
                // a missing outpoint here would make the prefix's missing
                // list non-empty, yet the whole scan has none
                assert(m0.contains_key(t@.inputs[i as int].outpoint));
            }
            let input = &t.inputs[i];
            match self.utxo.get(&input.outpoint) {
                Some(referenced) => {
                    proof {
                        assert(referenced@ == m0[t@.inputs[i as int].outpoint]);
                        assert(total_in + referenced.value <= u128::MAX);
                    }
                    total_in = total_in + referenced.value;
                },
                None => {
                    // the validator saw this input; it cannot have vanished
                    proof {
                        assert(false);
                    }
                    return Err(FatalError::StorageInconsistency);
                },
            }
            i = i + 1;
        }
        proof {
            assert(t@.inputs.subrange(0, n_in as int) =~= t@.inputs);
            assert(total_in as nat == total_in_spec);
        }

        let n_out = t.outputs.len();
        let mut total_out: u128 = 0;
        let mut j: usize = 0;
        while j < n_out
            invariant
                j <= n_out,
                scan_outputs(t@, m0, j as int) == Ok::<(Seq<Seq<u8>>, nat), RejectReason>(
                    (scan_outputs(t@, m0, j as int)->Ok_0.0, total_out as nat),
                ),
            decreases n_out - j,
        {
            proof {
                lemma_scan_outputs_prefix_ok(t@, m0, j + 1, n_out_spec);
                assert(total_out + t@.outputs[j as int].value <= u128::MAX);
            }
            total_out = total_out + t.outputs[j].value;
            j = j + 1;
        }
        proof {
            assert(total_out as nat == total_out_spec);
        }

        // move the fee into the reward accumulator before touching the set
        let fee = total_in - total_out;
        proof {
            assert(fee as nat == spec_fee(t@, m0));
        }
        let new_reward = match self.reward_total.checked_add(fee) {
            Some(nr) => nr,
            None => {
                return Err(FatalError::RewardOverflow);
            },
        };
        self.reward_total = new_reward;

        // delete every spent outpoint
        let ghost total0 = self.utxo.spec_total();
        let mut i: usize = 0;
        proof {
            assert(remove_inputs(m0, t@.inputs.subrange(0, 0)) =~= m0);
        }
        while i < n_in
            invariant
                i <= n_in,
                self.utxo.wf(),
                self.utxo@ == remove_inputs(m0, t@.inputs.subrange(0, i as int)),
                scan_inputs(t@.inputs.subrange(0, i as int), m0, pre_spec) is Ok,
                self.utxo.spec_total() == total0 - scan_inputs(
                    t@.inputs.subrange(0, i as int),
                    m0,
                    pre_spec,
                )->Ok_0.1,
                self.reward_total == new_reward,
            decreases n_in - i,
        {
            let ghost prefix = t@.inputs.subrange(0, i as int);
            let ghost prefix1 = t@.inputs.subrange(0, i + 1);
            let ghost op = t@.inputs[i as int].outpoint;
            proof {
                lemma_scan_inputs_prefix_ok(t@.inputs, m0, pre_spec, i + 1);
                assert(prefix1.drop_last() =~= prefix);
                assert(prefix1.last() == t@.inputs[i as int]);
                assert(m0.contains_key(op));
                // no earlier input shares this outpoint: duplicates were
                // rejected
                assert(!has_dup_input(t@));
                assert(forall|j: int|
                    0 <= j < i ==> (#[trigger] prefix[j]).outpoint == t@.inputs[j].outpoint);
                assert(forall|j: int| 0 <= j < i ==> t@.inputs[j].outpoint != op);
                lemma_remove_inputs_facts(m0, prefix, op);
                assert(self.utxo@.contains_key(op));
            }
            let removed = self.utxo.remove(&t.inputs[i].outpoint);
            proof {
                assert(removed@ == m0[op]);
                assert(self.utxo@ =~= remove_inputs(m0, prefix1));
            }
            i = i + 1;
        }
        proof {
            assert(t@.inputs.subrange(0, n_in as int) =~= t@.inputs);
        }
        let ghost m_removed = self.utxo@;
        let ghost rm_total = self.utxo.spec_total();
        proof {
            assert(rm_total == total0 - total_in_spec);
        }

        // store every new output under its deterministic id
        let tx_enc = encode_transaction(t);
        let mut j: usize = 0;
        proof {
            assert(insert_outputs(m_removed, t@, 0) =~= m_removed);
        }
        while j < n_out
            invariant
                j <= n_out,
                self.utxo.wf(),
                tx_enc@ == enc_tx(t@),
                self.utxo@ == insert_outputs(m_removed, t@, j as int),
                scan_outputs(t@, m0, j as int) is Ok,
                self.utxo.spec_total() <= rm_total + scan_outputs(t@, m0, j as int)->Ok_0.1,
                provides_distinct(t@) ==> self.utxo.spec_total() == rm_total + scan_outputs(
                    t@,
                    m0,
                    j as int,
                )->Ok_0.1,
                self.reward_total == new_reward,
            decreases n_out - j,
        {
            proof {
                lemma_scan_outputs_prefix_ok(t@, m0, j + 1, n_out_spec);
                // the validator rejected zero values and collisions with
                // the stored set
                assert(t@.outputs[j as int].value > 0);
                assert(!m0.contains_key(output_id_of(t@, j as int)));
            }
            let out_ref = &t.outputs[j];
            let id = compute_output_id(&tx_enc, j as u64);
            let stored = Output { value: out_ref.value, pubkey: bytes_clone(&out_ref.pubkey) };
            proof {
                assert(id@ == output_id_of(t@, j as int));
                assert(stored@ == t@.outputs[j as int]);
                assert(stored@.wf());
                lemma_remove_inputs_facts(m0, t@.inputs, id@);
                assert(!m_removed.contains_key(id@));
                lemma_insert_outputs_contains(m_removed, t@, j as int, id@);
                if provides_distinct(t@) {
                    assert(!self.utxo@.contains_key(id@));
                }
            }
            self.utxo.put(id, stored);
            proof {
                assert(self.utxo@ =~= insert_outputs(m_removed, t@, j + 1));
            }
            j = j + 1;
        }
        proof {
            assert(self.utxo@ == spec_apply_map(m0, t@));
        }
        Ok(())
    }

    /// Full validate-and-apply, the operation block execution runs for
    /// each presented transaction.  A transaction with any missing input
    /// is rejected outright here.
    pub fn spend(&mut self, t: &Transaction) -> (r: Result<(), SpendError>)
        requires
            old(self).wf(),
            t@.wf(),
        ensures
            final(self).wf(),
            match r {
                Ok(()) => {
                    &&& spec_validate_strict(t@, old(self).utxo@) is Ok
                    &&& final(self).utxo@ == spec_apply_map(old(self).utxo@, t@)
                    &&& final(self).reward_total == old(self).reward_total + spec_fee(
                        t@,
                        old(self).utxo@,
                    )
                    &&& final(self).utxo.spec_total() + final(self).reward_total
                        <= old(self).utxo.spec_total() + old(self).reward_total
                    &&& provides_distinct(t@) ==> final(self).utxo.spec_total()
                        + final(self).reward_total == old(self).utxo.spec_total()
                        + old(self).reward_total
                },
                Err(SpendError::Reject(e)) => {
                    &&& spec_validate_strict(t@, old(self).utxo@)
                        == Err::<VerdictM, RejectReason>(e)
                    &&& *final(self) == *old(self)
                },
                Err(SpendError::Fatal(f)) => {
                    &&& f == FatalError::RewardOverflow
                    &&& spec_validate_strict(t@, old(self).utxo@) is Ok
                    &&& old(self).reward_total + spec_fee(t@, old(self).utxo@) > u128::MAX
                    &&& *final(self) == *old(self)
                },
            },
    {
        let verdict = match validate(t, &self.utxo) {
            Ok(v) => v,
            Err(e) => {
                return Err(SpendError::Reject(e));
            },
        };
        if verdict.missing.len() > 0 {
            return Err(SpendError::Reject(RejectReason::MissingInput));
        }
        match self.apply(t) {
            Ok(()) => Ok(()),
            Err(f) => Err(SpendError::Fatal(f)),
        }
    }

    /// Dispense the block-author reward at finalization: the fees the
    /// block accumulated plus the issuance for this block number, stored
    /// as a fresh output locked to the author's key.  Without an author,
    /// with nothing to pay, or on the vanishing chance that the reward id
    /// is already taken, the reward is wasted.  Either way the
    /// accumulator is drained to zero.
    pub fn dispense_reward<I: Issuance>(
        &mut self,
        block_number: u32,
        author: Option<&Vec<u8>>,
    ) -> (r: RewardEvent)
        requires
            old(self).wf(),
            match author {
                Some(a) => a@.len() == crate::tx::PUBKEY_LEN,
                None => true,
            },
            old(self).reward_total + I::spec_issuance(block_number) <= u128::MAX,
        ensures
            final(self).wf(),
            final(self).reward_total == 0,
            dispense_post(
                *old(self),
                *final(self),
                block_number,
                I::spec_issuance(block_number),
                match author {
                    Some(a) => Some(a@),
                    None => None,
                },
                r,
            ),
    {
        let author_key = match author {
            Some(a) => a,
            None => {
                self.reward_total = 0;
                return RewardEvent::Wasted;
            },
        };
        let issuance_value = I::issuance(block_number);
        let reward = self.reward_total + issuance_value;
        self.reward_total = 0;
        if reward == 0 {
            return RewardEvent::Wasted;
        }
        let output = Output { value: reward, pubkey: bytes_clone(author_key) };
        let mut buf = encode_output(&output);
        crate::codec::append_u64_le(&mut buf, block_number as u64);
        let id = blake2b_256(&buf);
        if self.utxo.contains(&id) {
            return RewardEvent::Wasted;
        }
        let id_copy = bytes_clone(&id);
        self.utxo.insert(id, output);
        RewardEvent::Issued { value: reward, id: id_copy }
    }
}

} // verus!
