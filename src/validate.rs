use vstd::prelude::*;
use crate::crypto::{output_id_of, sr25519_verifies, sr25519_verify, transaction_output_id};
use crate::encoding::{encodable, encode_transaction, lemma_encoding_len, signing_payload, transaction_bytes};
use crate::ledger::Module;
use crate::types::{
    bytes_eq, Transaction, TransactionInput, TransactionOutput, TransactionView, UtxoError, Value,
    H256,
};

verus! {

/// Two inputs claim the same output with the same signature.
pub open spec fn same_input(a: TransactionInput, b: TransactionInput) -> bool {
    a.out_point@ == b.out_point@ && a.sig_script@ == b.sig_script@
}

/// Two outputs carry the same value to the same key.
pub open spec fn same_output(a: TransactionOutput, b: TransactionOutput) -> bool {
    a.value == b.value && a.pub_key@ == b.pub_key@
}

pub open spec fn inputs_distinct(s: Seq<TransactionInput>) -> bool {
    forall|i: int, j: int| 0 <= i < j < s.len() ==> !same_input(#[trigger] s[i], #[trigger] s[j])
}

pub open spec fn outputs_distinct(s: Seq<TransactionOutput>) -> bool {
    forall|i: int, j: int| 0 <= i < j < s.len() ==> !same_output(#[trigger] s[i], #[trigger] s[j])
}

/// The total value of those of the first `n` inputs that the ledger holds.
pub open spec fn resolved_sum(
    store: Map<Seq<u8>, TransactionOutput>,
    inputs: Seq<TransactionInput>,
    n: nat,
) -> int
    decreases n,
{
    if n == 0 {
        0
    } else {
        let k = inputs[n - 1].out_point@;
        resolved_sum(store, inputs, (n - 1) as nat) + if store.contains_key(k) {
            store[k].value as int
        } else {
            0
        }
    }
}

/// The total value of the first `n` outputs.
pub open spec fn output_sum(outputs: Seq<TransactionOutput>, n: nat) -> int
    decreases n,
{
    if n == 0 {
        0
    } else {
        output_sum(outputs, (n - 1) as nat) + outputs[n - 1].value as int
    }
}

/// The out_points, in order, of those of the first `n` inputs that the ledger
/// does not hold.
pub open spec fn missing_inputs(
    store: Map<Seq<u8>, TransactionOutput>,
    inputs: Seq<TransactionInput>,
    n: nat,
) -> Seq<Seq<u8>>
    decreases n,
{
    if n == 0 {
        Seq::empty()
    } else {
        let k = inputs[n - 1].out_point@;
        missing_inputs(store, inputs, (n - 1) as nat) + if store.contains_key(k) {
            Seq::empty()
        } else {
            seq![k]
        }
    }
}

/// The id of the output at `index` of a transaction.
pub open spec fn output_id(tx: TransactionView, index: nat) -> Seq<u8> {
    output_id_of(transaction_bytes(tx), index)
}

/// The ids of all outputs of a transaction, in order.
pub open spec fn provided_ids(tx: TransactionView) -> Seq<Seq<u8>> {
    Seq::new(tx.outputs.len(), |j: int| output_id(tx, j as nat))
}

/// The signature of input `k` is valid for the signing payload under the key
/// of the output it spends.
pub open spec fn input_signed(store: Map<Seq<u8>, TransactionOutput>, tx: TransactionView, k: int) -> bool {
    sr25519_verifies(
        tx.inputs[k].sig_script@,
        signing_payload(tx),
        store[tx.inputs[k].out_point@].pub_key@,
    )
}

/// What input `k` raises, if the inputs before it raised nothing.
pub open spec fn input_error(store: Map<Seq<u8>, TransactionOutput>, tx: TransactionView, k: int) -> Option<UtxoError> {
    if !store.contains_key(tx.inputs[k].out_point@) {
        None
    } else if !input_signed(store, tx, k) {
        Some(UtxoError::InvalidSignature)
    } else if resolved_sum(store, tx.inputs, (k + 1) as nat) > u128::MAX {
        Some(UtxoError::InputOverflow)
    } else {
        None
    }
}

/// The first error raised by the first `n` inputs.
pub open spec fn first_input_error(store: Map<Seq<u8>, TransactionOutput>, tx: TransactionView, n: nat) -> Option<UtxoError>
    decreases n,
{
    if n == 0 {
        None
    } else if first_input_error(store, tx, (n - 1) as nat) is Some {
        first_input_error(store, tx, (n - 1) as nat)
    } else {
        input_error(store, tx, n - 1)
    }
}

/// What output `k` raises, if the outputs before it raised nothing.
pub open spec fn output_error(store: Map<Seq<u8>, TransactionOutput>, tx: TransactionView, k: int) -> Option<UtxoError> {
    if tx.outputs[k].value == 0 {
        Some(UtxoError::ZeroValueOutput)
    } else if store.contains_key(output_id(tx, k as nat)) {
        Some(UtxoError::OutputCollision)
    } else if output_sum(tx.outputs, (k + 1) as nat) > u128::MAX {
        Some(UtxoError::OutputOverflow)
    } else {
        None
    }
}

/// The first error raised by the first `n` outputs.
pub open spec fn first_output_error(store: Map<Seq<u8>, TransactionOutput>, tx: TransactionView, n: nat) -> Option<UtxoError>
    decreases n,
{
    if n == 0 {
        None
    } else if first_output_error(store, tx, (n - 1) as nat) is Some {
        first_output_error(store, tx, (n - 1) as nat)
    } else {
        output_error(store, tx, n - 1)
    }
}

/// The outcome of validating a transaction against a ledger.
pub enum Verdict {
    /// Every input is in the ledger: the transaction can be committed, and
    /// `reward` is what its inputs hold beyond its outputs.
    FullyValid { provides: Seq<Seq<u8>>, reward: int },
    /// The inputs whose out_points are in `missing` are not in the ledger yet.
    Pending { missing: Seq<Seq<u8>>, provides: Seq<Seq<u8>> },
    Rejected(UtxoError),
}

/// Validation of `tx` against `store`: the checks in order, the first
/// failing one deciding.
pub open spec fn validation(store: Map<Seq<u8>, TransactionOutput>, tx: TransactionView) -> Verdict {
    let n = tx.inputs.len();
    let m = tx.outputs.len();
    if n == 0 {
        Verdict::Rejected(UtxoError::EmptyInputs)
    } else if m == 0 {
        Verdict::Rejected(UtxoError::EmptyOutputs)
    } else if !inputs_distinct(tx.inputs) {
        Verdict::Rejected(UtxoError::DuplicateInput)
    } else if !outputs_distinct(tx.outputs) {
        Verdict::Rejected(UtxoError::DuplicateOutput)
    } else if first_input_error(store, tx, n) is Some {
        Verdict::Rejected(first_input_error(store, tx, n).unwrap())
    } else if first_output_error(store, tx, m) is Some {
        Verdict::Rejected(first_output_error(store, tx, m).unwrap())
    } else if missing_inputs(store, tx.inputs, n).len() == 0 {
        let total_in = resolved_sum(store, tx.inputs, n);
        let total_out = output_sum(tx.outputs, m);
        if total_in >= total_out {
            Verdict::FullyValid { provides: provided_ids(tx), reward: total_in - total_out }
        } else {
            Verdict::Rejected(UtxoError::InsufficientInputValue)
        }
    } else {
        Verdict::Pending { missing: missing_inputs(store, tx.inputs, n), provides: provided_ids(tx) }
    }
}

/// A transaction that passed validation.
#[derive(Debug)]
pub enum Validity {
    /// All inputs are in the ledger; `reward` is the fee it leaves.
    FullyValid { provides: Vec<H256>, reward: Value },
    /// Some inputs are not in the ledger yet; their out_points are `missing`.
    Pending { missing: Vec<H256>, provides: Vec<H256> },
}

pub open spec fn ids_view(v: Seq<H256>) -> Seq<Seq<u8>> {
    v.map_values(|h: H256| h@)
}

/// The verdict that a validation result stands for.
pub open spec fn verdict_of(r: Result<Validity, UtxoError>) -> Verdict {
    match r {
        Ok(Validity::FullyValid { provides, reward }) => Verdict::FullyValid {
            provides: ids_view(provides@),
            reward: reward as int,
        },
        Ok(Validity::Pending { missing, provides }) => Verdict::Pending {
            missing: ids_view(missing@),
            provides: ids_view(provides@),
        },
        Err(e) => Verdict::Rejected(e),
    }
}

pub proof fn lemma_first_input_error_stays(
    store: Map<Seq<u8>, TransactionOutput>,
    tx: TransactionView,
    a: nat,
    b: nat,
)
    requires
        a <= b,
        first_input_error(store, tx, a) is Some,
    ensures
        first_input_error(store, tx, b) == first_input_error(store, tx, a),
    decreases b - a,
{
    if a < b {
        lemma_first_input_error_stays(store, tx, a, (b - 1) as nat);
    }
}

pub proof fn lemma_first_output_error_stays(
    store: Map<Seq<u8>, TransactionOutput>,
    tx: TransactionView,
    a: nat,
    b: nat,
)
    requires
        a <= b,
        first_output_error(store, tx, a) is Some,
    ensures
        first_output_error(store, tx, b) == first_output_error(store, tx, a),
    decreases b - a,
{
    if a < b {
        lemma_first_output_error_stays(store, tx, a, (b - 1) as nat);
    }
}

fn same_input_exec(a: &TransactionInput, b: &TransactionInput) -> (r: bool)
    ensures
        r == same_input(*a, *b),
{
    bytes_eq(&a.out_point, &b.out_point) && bytes_eq(&a.sig_script, &b.sig_script)
}

fn same_output_exec(a: &TransactionOutput, b: &TransactionOutput) -> (r: bool)
    ensures
        r == same_output(*a, *b),
{
    a.value == b.value && bytes_eq(&a.pub_key, &b.pub_key)
}

/// Whether two inputs of the sequence are the same.
pub fn has_duplicate_input(s: &Vec<TransactionInput>) -> (r: bool)
    ensures
        r == !inputs_distinct(s@),
{
    let mut i: usize = 0;
    while i < s.len()
        invariant
            i <= s@.len(),
            forall|a: int, b: int| 0 <= a < i && a < b < s@.len() ==> !same_input(#[trigger] s@[a], #[trigger] s@[b]),
        decreases s@.len() - i,
    {
        let mut j: usize = i + 1;
        while j < s.len()
            invariant
                i < s@.len(),
                i + 1 <= j <= s@.len(),
                forall|a: int, b: int| 0 <= a < i && a < b < s@.len() ==> !same_input(#[trigger] s@[a], #[trigger] s@[b]),
                forall|b: int| i < b < j ==> !same_input(s@[i as int], #[trigger] s@[b]),
            decreases s@.len() - j,
        {
            if same_input_exec(&s[i], &s[j]) {
                return true;
            }
            j = j + 1;
        }
        i = i + 1;
    }
    false
}

/// Whether two outputs of the sequence are the same.
pub fn has_duplicate_output(s: &Vec<TransactionOutput>) -> (r: bool)
    ensures
        r == !outputs_distinct(s@),
{
    let mut i: usize = 0;
    while i < s.len()
        invariant
            i <= s@.len(),
            forall|a: int, b: int| 0 <= a < i && a < b < s@.len() ==> !same_output(#[trigger] s@[a], #[trigger] s@[b]),
        decreases s@.len() - i,
    {
        let mut j: usize = i + 1;
        while j < s.len()
            invariant
                i < s@.len(),
                i + 1 <= j <= s@.len(),
                forall|a: int, b: int| 0 <= a < i && a < b < s@.len() ==> !same_output(#[trigger] s@[a], #[trigger] s@[b]),
                forall|b: int| i < b < j ==> !same_output(s@[i as int], #[trigger] s@[b]),
            decreases s@.len() - j,
        {
            if same_output_exec(&s[i], &s[j]) {
                return true;
            }
            j = j + 1;
        }
        i = i + 1;
    }
    false
}

impl Module {
    /// Validates `transaction` against the ledger, changing nothing: rejects
    /// it, or finds it fully valid with its fee, or pending on inputs that are
    /// not in the ledger yet.
    pub fn validate_transaction(&self, transaction: &Transaction) -> (r: Result<Validity, UtxoError>)
        requires
            self.wf(),
            encodable(transaction@),
        ensures
            verdict_of(r) == validation(self.utxos(), transaction@),
    {
        let ghost store = self.utxos();
        let ghost tx = transaction@;
        let n = transaction.inputs.len();
        let m = transaction.outputs.len();
        if n == 0 {
            return Err(UtxoError::EmptyInputs);
        }
        if m == 0 {
            return Err(UtxoError::EmptyOutputs);
        }
        if has_duplicate_input(&transaction.inputs) {
            return Err(UtxoError::DuplicateInput);
        }
        if has_duplicate_output(&transaction.outputs) {
            return Err(UtxoError::DuplicateOutput);
        }
        let simple_transaction = Module::get_simple_transaction(transaction);
        let mut total_input: Value = 0;
        let mut missing: Vec<H256> = Vec::new();
        let mut k: usize = 0;
        while k < n
            invariant
                n == tx.inputs.len(),
                m == tx.outputs.len(),
                tx == transaction@,
                store == self.utxos(),
                n > 0,
                m > 0,
                inputs_distinct(tx.inputs),
                outputs_distinct(tx.outputs),
                self.wf(),
                k <= n,
                simple_transaction@ == signing_payload(tx),
                first_input_error(store, tx, k as nat) is None,
                total_input == resolved_sum(store, tx.inputs, k as nat),
                ids_view(missing@) == missing_inputs(store, tx.inputs, k as nat),
            decreases n - k,
        {
            let input = &transaction.inputs[k];
            match self.get(&input.out_point) {
                Some(utxo) => {
                    if !sr25519_verify(&input.sig_script, simple_transaction.as_slice(), &utxo.pub_key) {
                        proof {
                        assert(first_input_error(store, tx, (k + 1) as nat) == Some(UtxoError::InvalidSignature));
                            lemma_first_input_error_stays(store, tx, (k + 1) as nat, n as nat);
                        }
                        return Err(UtxoError::InvalidSignature);
                    }
                    if utxo.value > u128::MAX - total_input {
                        proof {
                        assert(first_input_error(store, tx, (k + 1) as nat) == Some(UtxoError::InputOverflow));
                            lemma_first_input_error_stays(store, tx, (k + 1) as nat, n as nat);
                        }
                        return Err(UtxoError::InputOverflow);
                    }
                    total_input = total_input + utxo.value;
                    assert(ids_view(missing@) + Seq::<Seq<u8>>::empty() =~= ids_view(missing@));
                },
                None => {
                    missing.push(input.out_point);
                    assert(ids_view(missing@) =~= missing_inputs(store, tx.inputs, k as nat) + seq![input.out_point@]);
                },
            }
            k = k + 1;
        }
        proof {
            lemma_encoding_len(tx, false);
        }
        let tx_bytes = encode_transaction(transaction);
        let mut total_output: Value = 0;
        let mut provides: Vec<H256> = Vec::new();
        let mut j: usize = 0;
        while j < m
            invariant
                m == tx.outputs.len(),
                n == tx.inputs.len(),
                tx == transaction@,
                store == self.utxos(),
                n > 0,
                m > 0,
                inputs_distinct(tx.inputs),
                outputs_distinct(tx.outputs),
                self.wf(),
                j <= m,
                tx_bytes@ == transaction_bytes(tx),
                tx_bytes@.len() <= u32::MAX,
                first_input_error(store, tx, n as nat) is None,
                first_output_error(store, tx, j as nat) is None,
                total_output == output_sum(tx.outputs, j as nat),
                ids_view(provides@) == provided_ids(tx).take(j as int),
            decreases m - j,
        {
            let output = &transaction.outputs[j];
            if output.value == 0 {
                proof {
                    assert(first_output_error(store, tx, (j + 1) as nat) == Some(UtxoError::ZeroValueOutput));
                    lemma_first_output_error_stays(store, tx, (j + 1) as nat, m as nat);
                }
                return Err(UtxoError::ZeroValueOutput);
            }
            let id = transaction_output_id(&tx_bytes, j as u64);
            assert(id@ == provided_ids(tx)[j as int]);
            if self.contains_key(&id) {
                proof {
                    assert(first_output_error(store, tx, (j + 1) as nat) == Some(UtxoError::OutputCollision));
                    lemma_first_output_error_stays(store, tx, (j + 1) as nat, m as nat);
                }
                return Err(UtxoError::OutputCollision);
            }
            if output.value > u128::MAX - total_output {
                proof {
                    assert(first_output_error(store, tx, (j + 1) as nat) == Some(UtxoError::OutputOverflow));
                    lemma_first_output_error_stays(store, tx, (j + 1) as nat, m as nat);
                }
                return Err(UtxoError::OutputOverflow);
            }
            total_output = total_output + output.value;
            let ghost before = provides@;
            provides.push(id);
            assert(ids_view(provides@) =~= ids_view(before).push(id@));
            assert(provided_ids(tx).take(j + 1) =~= provided_ids(tx).take(j as int).push(id@));
            j = j + 1;
        }
        assert(provided_ids(tx).take(m as int) =~= provided_ids(tx));
        if missing.len() == 0 {
            if total_input >= total_output {
                Ok(Validity::FullyValid { provides, reward: total_input - total_output })
            } else {
                Err(UtxoError::InsufficientInputValue)
            }
        } else {
            Ok(Validity::Pending { missing, provides })
        }
    }
}

} // verus!
