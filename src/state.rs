use vstd::prelude::*;
use crate::crypto::{reward_id, reward_output_id, transaction_output_id};
use crate::encoding::{encodable, encode_transaction, lemma_encoding_len, transaction_bytes};
use crate::ledger::Module;
use crate::types::{Transaction, TransactionOutput, TransactionView, UtxoError, Value, H256};
use crate::validate::{output_id, validation, Validity, Verdict};

verus! {

/// The ids spent by the first `n` inputs of a transaction.
pub open spec fn spent_ids(tx: TransactionView, n: nat) -> Set<Seq<u8>> {
    Set::new(|k: Seq<u8>| exists|i: int| 0 <= i < n && #[trigger] tx.inputs[i].out_point@ == k)
}

/// The first `n` outputs of a transaction, each under its id, a later one
/// replacing an earlier one with the same id.
pub open spec fn created_outputs(tx: TransactionView, n: nat) -> Map<Seq<u8>, TransactionOutput>
    decreases n,
{
    if n == 0 {
        Map::empty()
    } else {
        created_outputs(tx, (n - 1) as nat).insert(output_id(tx, (n - 1) as nat), tx.outputs[n - 1])
    }
}

/// The unspent set after committing `tx`: its inputs' outputs are gone and
/// its outputs are in, each under its id.
pub open spec fn applied(store: Map<Seq<u8>, TransactionOutput>, tx: TransactionView) -> Map<Seq<u8>, TransactionOutput> {
    store.remove_keys(spent_ids(tx, tx.inputs.len())).union_prefer_right(
        created_outputs(tx, tx.outputs.len()),
    )
}

/// The reward output of an authority.
pub open spec fn reward_output(share: Value, authority: H256) -> TransactionOutput {
    TransactionOutput { value: share, pub_key: authority }
}

/// The unspent set after minting `share` to each of the first `n`
/// authorities at block `block_number`; a reward whose id is taken is not minted.
pub open spec fn minted(
    store: Map<Seq<u8>, TransactionOutput>,
    authorities: Seq<H256>,
    share: Value,
    block_number: nat,
    n: nat,
) -> Map<Seq<u8>, TransactionOutput>
    decreases n,
{
    if n == 0 {
        store
    } else {
        let before = minted(store, authorities, share, block_number, (n - 1) as nat);
        let o = reward_output(share, authorities[n - 1]);
        let id = reward_id(o, block_number);
        if before.contains_key(id) {
            before
        } else {
            before.insert(id, o)
        }
    }
}

impl Module {
    /// Commits `transaction`, which left `reward`: adds the reward to the pool,
    /// removes the outputs its inputs spend and inserts its outputs. If the
    /// pool would overflow, nothing changes.
    pub fn update_storage(&mut self, transaction: &Transaction, reward: Value) -> (r: Result<(), UtxoError>)
        requires
            old(self).wf(),
            encodable(transaction@),
        ensures
            final(self).wf(),
            old(self).pool() + reward > u128::MAX ==> r == Err::<(), UtxoError>(UtxoError::RewardOverflow)
                && final(self).same_state(old(self)),
            old(self).pool() + reward <= u128::MAX ==> r == Ok::<(), UtxoError>(())
                && final(self).utxos() == applied(old(self).utxos(), transaction@)
                && final(self).pool() == old(self).pool() + reward,
    {
        let ghost tx = transaction@;
        let pool = self.reward_total();
        if reward > u128::MAX - pool {
            return Err(UtxoError::RewardOverflow);
        }
        self.set_reward_total(pool + reward);
        let ghost start = self.utxos();
        let n = transaction.inputs.len();
        let mut i: usize = 0;
        while i < n
            invariant
                n == tx.inputs.len(),
                tx == transaction@,
                i <= n,
                self.wf(),
                self.pool() == old(self).pool() + reward,
                start == old(self).utxos(),
                self.utxos() == start.remove_keys(spent_ids(tx, i as nat)),
            decreases n - i,
        {
            self.remove(&transaction.inputs[i].out_point);
            let ghost k = transaction.inputs@[i as int].out_point@;
            assert(start.remove_keys(spent_ids(tx, (i + 1) as nat)) =~= start.remove_keys(spent_ids(tx, i as nat)).remove(k)) by {
                assert forall|x: Seq<u8>| spent_ids(tx, (i + 1) as nat).contains(x) == (spent_ids(tx, i as nat).contains(x) || x == k) by {
                    if x == k {
                        assert(tx.inputs[i as int].out_point@ == x);
                    }
                    if spent_ids(tx, (i + 1) as nat).contains(x) {
                        let w = choose|w: int| 0 <= w < i + 1 && #[trigger] tx.inputs[w].out_point@ == x;
                        if w < i {
                            assert(spent_ids(tx, i as nat).contains(x));
                        }
                    }
                }
            }
            i = i + 1;
        }
        proof {
            lemma_encoding_len(tx, false);
        }
        let tx_bytes = encode_transaction(transaction);
        let ghost base = self.utxos();
        let m = transaction.outputs.len();
        let mut j: usize = 0;
        while j < m
            invariant
                m == tx.outputs.len(),
                tx == transaction@,
                j <= m,
                self.wf(),
                self.pool() == old(self).pool() + reward,
                tx_bytes@ == transaction_bytes(tx),
                tx_bytes@.len() <= u32::MAX,
                base == old(self).utxos().remove_keys(spent_ids(tx, tx.inputs.len())),
                self.utxos() == base.union_prefer_right(created_outputs(tx, j as nat)),
            decreases m - j,
        {
            let id = transaction_output_id(&tx_bytes, j as u64);
            assert(id@ == output_id(tx, j as nat));
            self.insert(id, transaction.outputs[j]);
            assert(base.union_prefer_right(created_outputs(tx, (j + 1) as nat)) =~= base.union_prefer_right(
                created_outputs(tx, j as nat),
            ).insert(id@, tx.outputs[j as int]));
            j = j + 1;
        }
        Ok(())
    }

    /// Validates `transaction` and, if it is fully valid, commits it with its
    /// fee. A rejected or pending transaction changes nothing.
    pub fn spend(&mut self, transaction: &Transaction) -> (r: Result<(), UtxoError>)
        requires
            old(self).wf(),
            encodable(transaction@),
        ensures
            final(self).wf(),
            match validation(old(self).utxos(), transaction@) {
                Verdict::Rejected(e) => r == Err::<(), UtxoError>(e) && final(self).same_state(old(self)),
                Verdict::Pending { .. } => r == Err::<(), UtxoError>(UtxoError::MissingDependency)
                    && final(self).same_state(old(self)),
                Verdict::FullyValid { reward, .. } => if old(self).pool() + reward > u128::MAX {
                    r == Err::<(), UtxoError>(UtxoError::RewardOverflow) && final(self).same_state(old(self))
                } else {
                    r == Ok::<(), UtxoError>(()) && final(self).utxos() == applied(old(self).utxos(), transaction@)
                        && final(self).pool() == old(self).pool() + reward
                },
            },
    {
        match self.validate_transaction(transaction) {
            Err(e) => Err(e),
            Ok(Validity::Pending { .. }) => Err(UtxoError::MissingDependency),
            Ok(Validity::FullyValid { reward, .. }) => self.update_storage(transaction, reward),
        }
    }

    /// Distributes the pool at block `block_number`: each authority gets an
    /// equal share as a new output, and what does not divide evenly stays in
    /// the pool. With no authorities nothing happens and the distribution is
    /// skipped; with a share of zero nothing happens and the whole pool stays.
    /// A reward whose id is already taken is not minted. Returns the share.
    pub fn disperse_reward(&mut self, authorities: &Vec<H256>, block_number: u64) -> (r: Result<Value, UtxoError>)
        requires
            old(self).wf(),
        ensures
            final(self).wf(),
            authorities@.len() == 0 ==> r == Err::<Value, UtxoError>(UtxoError::DistributionSkipped)
                && final(self).same_state(old(self)),
            authorities@.len() > 0 ==> {
                let n = authorities@.len();
                let share = (old(self).pool() as int / n as int) as Value;
                &&& r == Ok::<Value, UtxoError>(share)
                &&& share == 0 ==> final(self).same_state(old(self))
                &&& share > 0 ==> final(self).pool() == old(self).pool() - share * n
                    && final(self).utxos() == minted(old(self).utxos(), authorities@, share, block_number as nat, n)
            },
    {
        let n = authorities.len();
        if n == 0 {
            return Err(UtxoError::DistributionSkipped);
        }
        let reward = self.reward_total();
        let share: Value = reward / (n as u128);
        if share == 0 {
            return Ok(0);
        }
        assert(share * n <= reward) by (nonlinear_arith)
            requires
                share == reward / (n as u128),
                n > 0,
        ;
        let remainder: Value = reward - share * (n as u128);
        self.set_reward_total(remainder);
        let ghost start = old(self).utxos();
        let mut i: usize = 0;
        while i < n
            invariant
                n == authorities@.len(),
                i <= n,
                self.wf(),
                self.pool() == remainder,
                self.utxos() == minted(start, authorities@, share, block_number as nat, i as nat),
            decreases n - i,
        {
            let utxo = TransactionOutput { value: share, pub_key: authorities[i] };
            let id = reward_output_id(&utxo, block_number);
            if !self.contains_key(&id) {
                self.insert(id, utxo);
            }
            i = i + 1;
        }
        Ok(share)
    }
}

} // verus!
