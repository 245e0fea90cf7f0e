//! The ledger's global laws, stated once over the specification
//! functions that the executable operations are contracted against.

use vstd::prelude::*;
use crate::ledger::{
    dispense_post, insert_outputs, provides_distinct, remove_inputs, spec_apply_map, spec_fee,
    Ledger, RewardEvent,
};
use crate::tx::{OutputM, RejectReason, TxM, VerdictM};
use crate::validate::{output_id_of, scan_outputs, spec_validate, spec_validate_strict};

verus! {

/// One successful `spend`, as its contract pins it down: the transaction
/// validated strictly, the map moved as `spec_apply_map` says, the fee
/// moved into the accumulator, and no value appeared out of nothing.
pub open spec fn spend_step(pre: Ledger, post: Ledger, t: TxM) -> bool {
    &&& spec_validate_strict(t, pre.utxo@) is Ok
    &&& post.utxo@ == spec_apply_map(pre.utxo@, t)
    &&& post.reward_total == pre.reward_total + spec_fee(t, pre.utxo@)
    &&& post.utxo.spec_total() + post.reward_total <= pre.utxo.spec_total() + pre.reward_total
}

/// Value never grows along a chain of applied transactions: fees only
/// move from the set into the accumulator.
pub proof fn lemma_spend_chain(states: Seq<Ledger>, txs: Seq<TxM>)
    requires
        states.len() == txs.len() + 1,
        forall|i: int|
            0 <= i < txs.len() ==> spend_step(states[i], states[i + 1], #[trigger] txs[i]),
    ensures
        states.last().utxo.spec_total() + states.last().reward_total <= states[0].utxo.spec_total()
            + states[0].reward_total,
    decreases txs.len(),
{
    if txs.len() > 0 {
        let n = txs.len() as int;
        assert(spend_step(states[n - 1], states[n], txs[n - 1]));
        lemma_spend_chain(states.drop_last(), txs.drop_last());
        assert(states.drop_last().last() == states[n - 1]);
        assert(states.drop_last()[0] == states[0]);
        assert(forall|i: int|
            0 <= i < txs.len() - 1 ==> states.drop_last()[i] == states[i] && #[trigger] txs.drop_last()[i]
                == txs[i]);
    }
}

/// No silent money creation.  Over any block — a chain of applied
/// transactions followed by one reward dispensation — the value held by
/// the unspent set plus the reward accumulator grows by at most the
/// block's issuance.  Summed over all finalized blocks this is exactly
/// the bound that value added never exceeds value removed plus issuance.
pub proof fn lemma_no_silent_money_creation(
    states: Seq<Ledger>,
    txs: Seq<TxM>,
    end: Ledger,
    block_number: u32,
    issuance: u128,
    author: Option<Seq<u8>>,
    ev: RewardEvent,
)
    requires
        states.len() == txs.len() + 1,
        forall|i: int|
            0 <= i < txs.len() ==> spend_step(states[i], states[i + 1], #[trigger] txs[i]),
        dispense_post(states.last(), end, block_number, issuance, author, ev),
    ensures
        end.utxo.spec_total() + end.reward_total <= states[0].utxo.spec_total()
            + states[0].reward_total + issuance,
{
    lemma_spend_chain(states, txs);
}

proof fn lemma_scan_outputs_ids_fresh(t: TxM, m: Map<Seq<u8>, OutputM>, k: int)
    requires
        scan_outputs(t, m, k) is Ok,
        k >= 0,
    ensures
        forall|p: int| 0 <= p < k ==> !m.contains_key(#[trigger] output_id_of(t, p)),
    decreases k,
{
    if k > 0 {
        lemma_scan_outputs_ids_fresh(t, m, k - 1);
    }
}

/// No duplicate outputs.  Every id a validated transaction stores is
/// absent from the unspent set it is applied to, and — as long as the
/// transaction's own output ids are pairwise distinct, which only a
/// BLAKE2b-256 collision could break — each insertion of the applier
/// lands on a key that the map does not yet hold.
pub proof fn lemma_no_duplicate_insertions(t: TxM, m: Map<Seq<u8>, OutputM>)
    requires
        spec_validate_strict(t, m) is Ok,
    ensures
        forall|p: int|
            0 <= p < t.outputs.len() ==> !m.contains_key(#[trigger] output_id_of(t, p)),
        provides_distinct(t) ==> forall|p: int|
            0 <= p < t.outputs.len() ==> !insert_outputs(
                remove_inputs(m, t.inputs),
                t,
                p,
            ).contains_key(#[trigger] output_id_of(t, p)),
{
    lemma_scan_outputs_ids_fresh(t, m, t.outputs.len() as int);
    if provides_distinct(t) {
        assert forall|p: int| 0 <= p < t.outputs.len() implies !insert_outputs(
            remove_inputs(m, t.inputs),
            t,
            p,
        ).contains_key(#[trigger] output_id_of(t, p)) by {
            crate::ledger::lemma_remove_inputs_facts(m, t.inputs, output_id_of(t, p));
            crate::ledger::lemma_insert_outputs_contains(
                remove_inputs(m, t.inputs),
                t,
                p,
                output_id_of(t, p),
            );
        }
    }
}

/// Determinism.  Validation and application are mathematical functions
/// of the transaction and the unspent-output map: every executable
/// operation's contract pins its result to these, so identical initial
/// state and an identical transaction gives byte-identical outcomes on
/// every run and every machine.
pub proof fn lemma_determinism(t1: TxM, t2: TxM, m1: Map<Seq<u8>, OutputM>, m2: Map<Seq<u8>, OutputM>)
    requires
        t1 == t2,
        m1 == m2,
    ensures
        spec_validate(t1, m1) == spec_validate(t2, m2),
        spec_validate_strict(t1, m1) == spec_validate_strict(t2, m2),
        spec_apply_map(m1, t1) == spec_apply_map(m2, t2),
        spec_fee(t1, m1) == spec_fee(t2, m2),
{
}

/// Mempool monotonicity.  A transaction the mempool validator finds
/// fully ready — no missing inputs — passes the strict validation that
/// `spend` runs against the same unspent set, so `spend` accepts and
/// applies it.
pub proof fn lemma_ready_transaction_spends(t: TxM, m: Map<Seq<u8>, OutputM>, v: VerdictM)
    requires
        spec_validate(t, m) == Ok::<VerdictM, RejectReason>(v),
        v.missing.len() == 0,
    ensures
        spec_validate_strict(t, m) == Ok::<VerdictM, RejectReason>(v),
{
}

} // verus!
