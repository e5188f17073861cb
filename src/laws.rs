use vstd::prelude::*;
use crate::crypto::genesis_id;
use crate::encoding::transaction_bytes;
use crate::ledger::genesis_store;
use crate::state::{applied, created_outputs, spent_ids};
use crate::types::{TransactionInput, TransactionOutput, TransactionView, UtxoError};
use crate::validate::{
    first_input_error, first_output_error, input_error, input_signed, inputs_distinct,
    missing_inputs, output_error, output_id, output_sum, outputs_distinct, resolved_sum,
    validation, Verdict,
};

verus! {

/// No input is missing exactly when the ledger holds every input's out_point.
pub proof fn lemma_no_missing_inputs(
    store: Map<Seq<u8>, TransactionOutput>,
    inputs: Seq<TransactionInput>,
    n: nat,
)
    requires
        n <= inputs.len(),
    ensures
        (missing_inputs(store, inputs, n).len() == 0) == (forall|i: int|
            0 <= i < n ==> store.contains_key(#[trigger] inputs[i].out_point@)),
    decreases n,
{
    if n > 0 {
        lemma_no_missing_inputs(store, inputs, (n - 1) as nat);
        if !store.contains_key(inputs[n - 1].out_point@) {
            assert(!(forall|i: int| 0 <= i < n ==> store.contains_key(#[trigger] inputs[i].out_point@)));
        }
    }
}

/// With no error among the first `n` outputs, none of them raised one.
pub proof fn lemma_no_output_error(store: Map<Seq<u8>, TransactionOutput>, tx: TransactionView, n: nat)
    requires
        first_output_error(store, tx, n) is None,
    ensures
        forall|j: int| 0 <= j < n ==> #[trigger] output_error(store, tx, j) is None,
    decreases n,
{
    if n > 0 {
        lemma_no_output_error(store, tx, (n - 1) as nat);
    }
}

/// Every id among the first `n` created outputs is the id of one of them.
pub proof fn lemma_created_ids(tx: TransactionView, n: nat, k: Seq<u8>)
    requires
        created_outputs(tx, n).contains_key(k),
    ensures
        exists|j: int| 0 <= j < n && #[trigger] output_id(tx, j as nat) == k,
    decreases n,
{
    if n > 0 && k != output_id(tx, (n - 1) as nat) {
        lemma_created_ids(tx, (n - 1) as nat, k);
        let j = choose|j: int| 0 <= j < n - 1 && #[trigger] output_id(tx, j as nat) == k;
        assert(0 <= j < n && output_id(tx, j as nat) == k);
    }
}

/// Conservation: a fully valid transaction spends only outputs the ledger
/// holds, its outputs total no more than those inputs, and its reward is the
/// difference.
pub proof fn lemma_conservation(store: Map<Seq<u8>, TransactionOutput>, tx: TransactionView)
    requires
        validation(store, tx) is FullyValid,
    ensures
        forall|i: int| 0 <= i < tx.inputs.len() ==> store.contains_key(#[trigger] tx.inputs[i].out_point@),
        output_sum(tx.outputs, tx.outputs.len()) <= resolved_sum(store, tx.inputs, tx.inputs.len()),
        validation(store, tx)->FullyValid_reward == resolved_sum(store, tx.inputs, tx.inputs.len())
            - output_sum(tx.outputs, tx.outputs.len()),
{
    lemma_no_missing_inputs(store, tx.inputs, tx.inputs.len());
}

/// Uniqueness: a transaction that passes validation, fully or pending, has no
/// output whose id the ledger already holds, so committing it never puts a
/// second entry under an id.
pub proof fn lemma_outputs_fresh(store: Map<Seq<u8>, TransactionOutput>, tx: TransactionView)
    requires
        !(validation(store, tx) is Rejected),
    ensures
        forall|j: int| 0 <= j < tx.outputs.len() ==> !store.contains_key(#[trigger] output_id(tx, j as nat)),
{
    lemma_no_output_error(store, tx, tx.outputs.len());
    assert forall|j: int| 0 <= j < tx.outputs.len() implies !store.contains_key(#[trigger] output_id(tx, j as nat)) by {
        assert(output_error(store, tx, j) is None);
    }
}

/// No double spend: once a fully valid transaction is committed, none of the
/// outputs it spent is in the ledger, and a later transaction that claims one
/// of them cannot be fully valid.
pub proof fn lemma_no_double_spend(
    store: Map<Seq<u8>, TransactionOutput>,
    tx: TransactionView,
    i: int,
    later: TransactionView,
    k: int,
)
    requires
        validation(store, tx) is FullyValid,
        0 <= i < tx.inputs.len(),
        0 <= k < later.inputs.len(),
        later.inputs[k].out_point@ == tx.inputs[i].out_point@,
    ensures
        !applied(store, tx).contains_key(tx.inputs[i].out_point@),
        !(validation(applied(store, tx), later) is FullyValid),
{
    let spent = tx.inputs[i].out_point@;
    lemma_conservation(store, tx);
    lemma_outputs_fresh(store, tx);
    assert(spent_ids(tx, tx.inputs.len()).contains(spent));
    if created_outputs(tx, tx.outputs.len()).contains_key(spent) {
        lemma_created_ids(tx, tx.outputs.len(), spent);
        let j = choose|j: int| 0 <= j < tx.outputs.len() && #[trigger] output_id(tx, j as nat) == spent;
        assert(!store.contains_key(output_id(tx, j as nat)));
    }
    let after = applied(store, tx);
    assert(!after.contains_key(spent));
    if validation(after, later) is FullyValid {
        lemma_conservation(after, later);
        assert(after.contains_key(later.inputs[k].out_point@));
    }
}

/// Determinism: an output's id depends on the transaction's encoding and its
/// index alone.
pub proof fn lemma_output_id_deterministic(a: TransactionView, b: TransactionView, index: nat)
    requires
        transaction_bytes(a) == transaction_bytes(b),
    ensures
        output_id(a, index) == output_id(b, index),
{
}

/// Genesis: the ledger holds each configured output's id, every id it holds
/// is that of a configured output held under it, and where no two different
/// configured outputs share an id, each is held as configured.
pub proof fn lemma_genesis_contents(outs: Seq<TransactionOutput>)
    ensures
        forall|i: int| 0 <= i < outs.len() ==> genesis_store(outs).contains_key(#[trigger] genesis_id(outs[i])),
        forall|k: Seq<u8>| #[trigger] genesis_store(outs).contains_key(k) ==> exists|i: int|
            0 <= i < outs.len() && genesis_id(outs[i]) == k && genesis_store(outs)[k] == outs[i],
        (forall|i: int, j: int| 0 <= i < outs.len() && 0 <= j < outs.len()
            && genesis_id(#[trigger] outs[i]) == genesis_id(#[trigger] outs[j]) ==> outs[i] == outs[j])
            ==> forall|i: int| 0 <= i < outs.len() ==> genesis_store(outs)[#[trigger] genesis_id(outs[i])] == outs[i],
    decreases outs.len(),
{
    if outs.len() > 0 {
        let front = outs.drop_last();
        lemma_genesis_contents(front);
        let store = genesis_store(outs);
        assert forall|i: int| 0 <= i < outs.len() implies store.contains_key(#[trigger] genesis_id(outs[i])) by {
            if i < outs.len() - 1 {
                assert(front[i] == outs[i]);
            }
        }
        assert forall|k: Seq<u8>| #[trigger] store.contains_key(k) implies exists|i: int|
            0 <= i < outs.len() && genesis_id(outs[i]) == k && store[k] == outs[i] by {
            if k == genesis_id(outs.last()) {
                assert(genesis_id(outs[outs.len() - 1]) == k);
            } else {
                assert(genesis_store(front).contains_key(k));
                let i = choose|i: int| 0 <= i < front.len() && genesis_id(front[i]) == k && genesis_store(front)[k] == front[i];
                assert(outs[i] == front[i]);
            }
        }
        if forall|i: int, j: int| 0 <= i < outs.len() && 0 <= j < outs.len()
            && genesis_id(#[trigger] outs[i]) == genesis_id(#[trigger] outs[j]) ==> outs[i] == outs[j] {
            assert forall|i: int, j: int| 0 <= i < front.len() && 0 <= j < front.len()
                && genesis_id(#[trigger] front[i]) == genesis_id(#[trigger] front[j]) implies front[i] == front[j] by {
                assert(front[i] == outs[i] && front[j] == outs[j]);
            }
            assert forall|i: int| 0 <= i < outs.len() implies store[#[trigger] genesis_id(outs[i])] == outs[i] by {
                if i < outs.len() - 1 {
                    assert(front[i] == outs[i]);
                    if genesis_id(outs[i]) == genesis_id(outs.last()) {
                        assert(outs[i] == outs[outs.len() - 1]);
                    }
                }
            }
        }
    }
}

/// A rejected signature: when the structural checks pass, no earlier input
/// failed, and the ledger holds input `k`'s out_point but its signature does
/// not verify over the signing payload under the owner's key, the
/// transaction is rejected for an invalid signature.
pub proof fn lemma_bad_signature_rejected(store: Map<Seq<u8>, TransactionOutput>, tx: TransactionView, k: int)
    requires
        tx.outputs.len() > 0,
        inputs_distinct(tx.inputs),
        outputs_distinct(tx.outputs),
        0 <= k < tx.inputs.len(),
        first_input_error(store, tx, k as nat) is None,
        store.contains_key(tx.inputs[k].out_point@),
        !input_signed(store, tx, k),
    ensures
        validation(store, tx) == Verdict::Rejected(UtxoError::InvalidSignature),
{
    assert(input_error(store, tx, k) == Some(UtxoError::InvalidSignature));
    assert(first_input_error(store, tx, (k + 1) as nat) == Some(UtxoError::InvalidSignature));
    crate::validate::lemma_first_input_error_stays(store, tx, (k + 1) as nat, tx.inputs.len());
}

} // verus!
