use vstd::prelude::*;
use crate::crypto::{genesis_id, genesis_output_id};
use crate::encoding::{encodable, encode_transaction_with, signing_payload};
use crate::types::{Transaction, TransactionOutput, Value, H256};

verus! {

/// The ledger's state: the unspent outputs, each under its id, and the pool of
/// fees not yet distributed.
pub struct Module {
    utxo_store: Vec<(H256, TransactionOutput)>,
    reward_pool: Value,
    store_map: Ghost<Map<Seq<u8>, TransactionOutput>>,
}

/// The unspent set right after genesis: each configured output under the hash
/// of its own encoding, a later one replacing an earlier one with the same id.
pub open spec fn genesis_store(outs: Seq<TransactionOutput>) -> Map<Seq<u8>, TransactionOutput>
    decreases outs.len(),
{
    if outs.len() == 0 {
        Map::empty()
    } else {
        genesis_store(outs.drop_last()).insert(genesis_id(outs.last()), outs.last())
    }
}

impl Module {
    /// The unspent outputs, by id.
    pub closed spec fn utxos(&self) -> Map<Seq<u8>, TransactionOutput> {
        self.store_map@
    }

    /// The pooled reward.
    pub closed spec fn pool(&self) -> Value {
        self.reward_pool
    }

    /// The stored entries agree with the map view and no id occurs twice.
    pub closed spec fn wf(&self) -> bool {
        &&& forall|i: int|
            0 <= i < self.utxo_store@.len() ==> {
                &&& self.store_map@.contains_key(#[trigger] self.utxo_store@[i].0@)
                &&& self.store_map@[self.utxo_store@[i].0@] == self.utxo_store@[i].1
            }
        &&& forall|k: Seq<u8>|
            #[trigger] self.store_map@.contains_key(k) ==> exists|i: int|
                0 <= i < self.utxo_store@.len() && #[trigger] self.utxo_store@[i].0@ == k
        &&& forall|i: int, j: int|
            0 <= i < j < self.utxo_store@.len() ==> #[trigger] self.utxo_store@[i].0@
                != #[trigger] self.utxo_store@[j].0@
    }

    /// Both states hold the same outputs and the same pool.
    pub open spec fn same_state(&self, other: &Module) -> bool {
        self.utxos() == other.utxos() && self.pool() == other.pool()
    }

    /// An empty ledger with an empty pool.
    pub fn new() -> (r: Module)
        ensures
            r.wf(),
            r.utxos() == Map::<Seq<u8>, TransactionOutput>::empty(),
            r.pool() == 0,
    {
        Module { utxo_store: Vec::new(), reward_pool: 0, store_map: Ghost(Map::empty()) }
    }

    /// The position of the entry with id `id`.
    fn find(&self, id: &H256) -> (r: Option<usize>)
        requires
            self.wf(),
        ensures
            r matches Some(i) ==> i < self.utxo_store@.len() && self.utxo_store@[i as int].0@ == id@,
            r is None ==> !self.utxos().contains_key(id@),
    {
        let mut i: usize = 0;
        while i < self.utxo_store.len()
            invariant
                i <= self.utxo_store@.len(),
                forall|j: int| 0 <= j < i ==> #[trigger] self.utxo_store@[j].0@ != id@,
            decreases self.utxo_store@.len() - i,
        {
            if crate::types::bytes_eq(&self.utxo_store[i].0, id) {
                return Some(i);
            }
            i = i + 1;
        }
        None
    }

    /// The unspent output with id `id`, if any.
    pub fn get(&self, id: &H256) -> (r: Option<TransactionOutput>)
        requires
            self.wf(),
        ensures
            r == (if self.utxos().contains_key(id@) {
                Some(self.utxos()[id@])
            } else {
                None
            }),
    {
        match self.find(id) {
            Some(i) => Some(self.utxo_store[i].1),
            None => None,
        }
    }

    /// Whether an unspent output has id `id`.
    pub fn contains_key(&self, id: &H256) -> (r: bool)
        requires
            self.wf(),
        ensures
            r == self.utxos().contains_key(id@),
    {
        self.find(id).is_some()
    }

    /// The number of unspent outputs.
    pub fn utxo_count(&self) -> (r: usize)
        requires
            self.wf(),
        ensures
            r == self.utxos().len(),
    {
        proof {
            self.lemma_len();
        }
        self.utxo_store.len()
    }

    proof fn lemma_len(&self)
        requires
            self.wf(),
        ensures
            self.utxos().dom().finite(),
            self.utxos().len() == self.utxo_store@.len(),
    {
        let keys = self.utxo_store@.map_values(|e: (H256, TransactionOutput)| e.0@);
        assert forall|i: int, j: int| 0 <= i < keys.len() && 0 <= j < keys.len() && i != j
            implies keys[i] != keys[j] by {
            if i < j {
                assert(self.utxo_store@[i].0@ != self.utxo_store@[j].0@);
            } else {
                assert(self.utxo_store@[j].0@ != self.utxo_store@[i].0@);
            }
        }
        assert(keys.no_duplicates());
        keys.unique_seq_to_set();
        assert(self.utxos().dom() =~= keys.to_set()) by {
            assert forall|k: Seq<u8>| self.utxos().dom().contains(k) implies keys.to_set().contains(k) by {
                let i = choose|i: int| 0 <= i < self.utxo_store@.len() && #[trigger] self.utxo_store@[i].0@ == k;
                assert(keys[i] == k);
            }
            assert forall|k: Seq<u8>| keys.to_set().contains(k) implies self.utxos().dom().contains(k) by {
                let i = choose|i: int| 0 <= i < keys.len() && keys[i] == k;
                assert(self.utxo_store@[i].0@ == k);
            }
        }
    }

    /// The pooled reward not yet distributed.
    pub fn reward_total(&self) -> (r: Value)
        ensures
            r == self.pool(),
    {
        self.reward_pool
    }

    pub(crate) fn set_reward_total(&mut self, v: Value)
        requires
            old(self).wf(),
        ensures
            final(self).wf(),
            final(self).utxos() == old(self).utxos(),
            final(self).pool() == v,
    {
        self.reward_pool = v;
        assert(self.utxo_store@ == old(self).utxo_store@ && self.store_map@ == old(self).store_map@);
    }

    /// Puts `o` under id `id`, replacing what was there.
    pub(crate) fn insert(&mut self, id: H256, o: TransactionOutput)
        requires
            old(self).wf(),
        ensures
            final(self).wf(),
            final(self).utxos() == old(self).utxos().insert(id@, o),
            final(self).pool() == old(self).pool(),
    {
        let idx: usize = match self.find(&id) {
            Some(i) => {
                self.utxo_store.set(i, (id, o));
                i
            },
            None => {
                self.utxo_store.push((id, o));
                (self.utxo_store.len() - 1) as usize
            },
        };
        assert(self.utxo_store@[idx as int].0@ == id@);
        self.store_map = Ghost(self.store_map@.insert(id@, o));
        assert forall|k: Seq<u8>| #[trigger] self.store_map@.contains_key(k) implies exists|i: int|
            0 <= i < self.utxo_store@.len() && #[trigger] self.utxo_store@[i].0@ == k by {
            if k == id@ {
                assert(self.utxo_store@[idx as int].0@ == k);
            } else {
                let i = choose|i: int| 0 <= i < old(self).utxo_store@.len() && #[trigger] old(self).utxo_store@[i].0@ == k;
                assert(self.utxo_store@[i].0@ == k);
            }
        }
    }

    /// Takes out the output with id `id`, if there is one.
    pub(crate) fn remove(&mut self, id: &H256)
        requires
            old(self).wf(),
        ensures
            final(self).wf(),
            final(self).utxos() == old(self).utxos().remove(id@),
            final(self).pool() == old(self).pool(),
    {
        match self.find(id) {
            Some(i) => {
                self.utxo_store.remove(i);
                self.store_map = Ghost(self.store_map@.remove(id@));
                assert forall|k: Seq<u8>| #[trigger] self.store_map@.contains_key(k) implies exists|j: int|
                    0 <= j < self.utxo_store@.len() && #[trigger] self.utxo_store@[j].0@ == k by {
                    let j = choose|j: int| 0 <= j < old(self).utxo_store@.len() && #[trigger] old(self).utxo_store@[j].0@ == k;
                    if j < i {
                        assert(self.utxo_store@[j].0@ == k);
                    } else {
                        assert(j != i);
                        assert(self.utxo_store@[j - 1].0@ == k);
                    }
                }
                assert forall|a: int, b: int| 0 <= a < b < self.utxo_store@.len() implies
                    #[trigger] self.utxo_store@[a].0@ != #[trigger] self.utxo_store@[b].0@ by {
                    let oa = if a < i { a } else { a + 1 };
                    let ob = if b < i { b } else { b + 1 };
                    assert(old(self).utxo_store@[oa].0@ != old(self).utxo_store@[ob].0@);
                }
                assert forall|a: int| 0 <= a < self.utxo_store@.len() implies {
                    &&& self.store_map@.contains_key(#[trigger] self.utxo_store@[a].0@)
                    &&& self.store_map@[self.utxo_store@[a].0@] == self.utxo_store@[a].1
                } by {
                    let oa = if a < i { a } else { a + 1 };
                    assert(old(self).utxo_store@[oa].0@ != old(self).utxo_store@[i as int].0@);
                }
            },
            None => {
                assert(self.store_map@.remove(id@) =~= self.store_map@);
            },
        }
    }

    /// A ledger seeded with the configured outputs, each under the hash of its
    /// own encoding, and an empty pool.
    pub fn genesis(genesis_utxos: &Vec<TransactionOutput>) -> (r: Module)
        ensures
            r.wf(),
            r.utxos() == genesis_store(genesis_utxos@),
            r.pool() == 0,
    {
        let mut m = Module::new();
        let mut i: usize = 0;
        while i < genesis_utxos.len()
            invariant
                i <= genesis_utxos@.len(),
                m.wf(),
                m.pool() == 0,
                m.utxos() == genesis_store(genesis_utxos@.take(i as int)),
            decreases genesis_utxos@.len() - i,
        {
            let o = genesis_utxos[i];
            let id = genesis_output_id(&o);
            m.insert(id, o);
            assert(genesis_utxos@.take(i + 1).drop_last() =~= genesis_utxos@.take(i as int));
            i = i + 1;
        }
        assert(genesis_utxos@.take(i as int) =~= genesis_utxos@);
        m
    }

    /// The message that each input's owner signs: the transaction's encoding
    /// with every signature zeroed.
    pub fn get_simple_transaction(transaction: &Transaction) -> (r: Vec<u8>)
        requires
            encodable(transaction@),
        ensures
            r@ == signing_payload(transaction@),
    {
        encode_transaction_with(transaction, true)
    }
}

} // verus!
