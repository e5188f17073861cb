use parity_scale_codec::Encode;
use sp_core::{sr25519, Blake2Hasher, Hasher, Pair};
use utxo_ledger::encoding::encode_transaction;
use utxo_ledger::ledger::Module;
use utxo_ledger::types::{Transaction, TransactionInput, TransactionOutput, UtxoError, H256};
use utxo_ledger::validate::Validity;
use utxo_ledger::crypto::{genesis_output_id, reward_output_id, transaction_output_id};

fn keypair(seed: u8) -> sr25519::Pair {
    sr25519::Pair::from_seed(&[seed; 32])
}

fn key(p: &sr25519::Pair) -> H256 {
    p.public().0
}

fn hash(bytes: &[u8]) -> H256 {
    <Blake2Hasher as Hasher>::hash(bytes).0
}

fn out(value: u128, owner: H256) -> TransactionOutput {
    TransactionOutput { value, pub_key: owner }
}

fn unsigned_input(out_point: H256) -> TransactionInput {
    TransactionInput { out_point, sig_script: [0u8; 64] }
}

/// Signs every input of `tx` with `pair` over the signing payload.
fn sign_all(tx: &mut Transaction, pair: &sr25519::Pair) {
    let payload = Module::get_simple_transaction(tx);
    let sig = pair.sign(&payload).0;
    for input in tx.inputs.iter_mut() {
        input.sig_script = sig;
    }
}

fn expected_encoding(tx: &Transaction) -> Vec<u8> {
    let ins: Vec<([u8; 32], [u8; 64])> = tx.inputs.iter().map(|i| (i.out_point, i.sig_script)).collect();
    let outs: Vec<(u128, [u8; 32])> = tx.outputs.iter().map(|o| (o.value, o.pub_key)).collect();
    (ins, outs).encode()
}

fn genesis_id(o: &TransactionOutput) -> H256 {
    hash(&(o.value, o.pub_key).encode())
}

/// A ledger holding one output of `value` owned by `owner`.
fn one_output_ledger(value: u128, owner: &sr25519::Pair) -> (Module, H256) {
    let g = out(value, key(owner));
    let ledger = Module::genesis(&vec![g]);
    (ledger, genesis_id(&g))
}

fn spend_tx(from: H256, owner: &sr25519::Pair, outputs: Vec<TransactionOutput>) -> Transaction {
    let mut tx = Transaction { inputs: vec![unsigned_input(from)], outputs };
    sign_all(&mut tx, owner);
    tx
}

#[test]
fn scenario_a_valid_spend_commits_with_zero_reward() {
    let a = keypair(1);
    let b = keypair(2);
    let (mut ledger, gid) = one_output_ledger(100, &a);
    let tx = spend_tx(gid, &a, vec![out(100, key(&b))]);
    match ledger.validate_transaction(&tx) {
        Ok(Validity::FullyValid { provides, reward }) => {
            assert_eq!(reward, 0);
            assert_eq!(provides.len(), 1);
        }
        other => panic!("unexpected {:?}", other),
    }
    assert_eq!(ledger.spend(&tx), Ok(()));
    assert_eq!(ledger.reward_total(), 0);
    assert_eq!(ledger.utxo_count(), 1);
    assert!(!ledger.contains_key(&gid));
    let bytes = encode_transaction(&tx);
    let new_id = hash(&(bytes, 0u64).encode());
    assert_eq!(ledger.get(&new_id).map(|o| (o.value, o.pub_key)), Some((100, key(&b))));
}

#[test]
fn scenario_b_overspend_is_rejected() {
    let a = keypair(1);
    let b = keypair(2);
    let (mut ledger, gid) = one_output_ledger(100, &a);
    let tx = spend_tx(gid, &a, vec![out(150, key(&b))]);
    assert_eq!(ledger.validate_transaction(&tx).err(), Some(UtxoError::InsufficientInputValue));
    assert_eq!(ledger.spend(&tx), Err(UtxoError::InsufficientInputValue));
    assert_eq!(ledger.utxo_count(), 1);
    assert!(ledger.contains_key(&gid));
    assert_eq!(ledger.reward_total(), 0);
}

#[test]
fn scenario_c_duplicate_input_is_rejected() {
    let a = keypair(1);
    let (ledger, gid) = one_output_ledger(100, &a);
    let mut tx = Transaction { inputs: vec![unsigned_input(gid), unsigned_input(gid)], outputs: vec![out(50, key(&a))] };
    sign_all(&mut tx, &a);
    assert_eq!(ledger.validate_transaction(&tx).err(), Some(UtxoError::DuplicateInput));
}

#[test]
fn scenario_d_unknown_input_is_pending() {
    let a = keypair(1);
    let (mut ledger, gid) = one_output_ledger(100, &a);
    let tx = spend_tx([9u8; 32], &a, vec![out(10, key(&a))]);
    match ledger.validate_transaction(&tx) {
        Ok(Validity::Pending { missing, provides }) => {
            assert_eq!(missing, vec![[9u8; 32]]);
            assert_eq!(provides.len(), 1);
        }
        other => panic!("unexpected {:?}", other),
    }
    assert_eq!(ledger.spend(&tx), Err(UtxoError::MissingDependency));
    assert_eq!(ledger.utxo_count(), 1);
    assert!(ledger.contains_key(&gid));
}

#[test]
fn scenario_e_three_authorities_share_ten() {
    let a = keypair(1);
    let (mut ledger, gid) = one_output_ledger(11, &a);
    let tx = spend_tx(gid, &a, vec![out(1, key(&a))]);
    assert_eq!(ledger.spend(&tx), Ok(()));
    assert_eq!(ledger.reward_total(), 10);
    let auths: Vec<H256> = vec![[1u8; 32], [2u8; 32], [3u8; 32]];
    assert_eq!(ledger.disperse_reward(&auths, 7), Ok(3));
    assert_eq!(ledger.reward_total(), 1);
    for auth in &auths {
        let id = hash(&(3u128, *auth, 7u64).encode());
        assert_eq!(ledger.get(&id).map(|o| (o.value, o.pub_key)), Some((3, *auth)));
    }
    assert_eq!(ledger.utxo_count(), 4);
}

#[test]
fn conservation_fee_goes_to_pool() {
    let a = keypair(1);
    let b = keypair(2);
    let (mut ledger, gid) = one_output_ledger(100, &a);
    let tx = spend_tx(gid, &a, vec![out(60, key(&b)), out(30, key(&a))]);
    match ledger.validate_transaction(&tx) {
        Ok(Validity::FullyValid { reward, .. }) => assert_eq!(reward, 10),
        other => panic!("unexpected {:?}", other),
    }
    assert_eq!(ledger.spend(&tx), Ok(()));
    assert_eq!(ledger.reward_total(), 10);
    assert_eq!(ledger.utxo_count(), 2);
}

#[test]
fn committed_outputs_cannot_be_created_again() {
    let a = keypair(1);
    let (mut ledger, gid) = one_output_ledger(100, &a);
    let tx = spend_tx(gid, &a, vec![out(100, key(&a))]);
    assert_eq!(ledger.spend(&tx), Ok(()));
    assert_eq!(ledger.validate_transaction(&tx).err(), Some(UtxoError::OutputCollision));
    assert_eq!(ledger.spend(&tx), Err(UtxoError::OutputCollision));
    assert_eq!(ledger.utxo_count(), 1);
}

#[test]
fn spent_output_is_missing_afterwards() {
    let a = keypair(1);
    let b = keypair(2);
    let (mut ledger, gid) = one_output_ledger(100, &a);
    let first = spend_tx(gid, &a, vec![out(100, key(&b))]);
    assert_eq!(ledger.spend(&first), Ok(()));
    let second = spend_tx(gid, &a, vec![out(99, key(&a))]);
    match ledger.validate_transaction(&second) {
        Ok(Validity::Pending { missing, .. }) => assert_eq!(missing, vec![gid]),
        other => panic!("unexpected {:?}", other),
    }
    assert_eq!(ledger.spend(&second), Err(UtxoError::MissingDependency));
}

#[test]
fn output_id_is_deterministic_and_matches_codec() {
    let a = keypair(1);
    let tx = spend_tx([4u8; 32], &a, vec![out(5, key(&a)), out(6, key(&a))]);
    let bytes = encode_transaction(&tx);
    assert_eq!(bytes, expected_encoding(&tx));
    let again = encode_transaction(&tx.clone());
    assert_eq!(transaction_output_id(&bytes, 1), transaction_output_id(&again, 1));
    assert_eq!(transaction_output_id(&bytes, 1), hash(&(bytes.clone(), 1u64).encode()));
    assert_ne!(transaction_output_id(&bytes, 0), transaction_output_id(&bytes, 1));
}

#[test]
fn genesis_holds_configured_outputs() {
    let outs = vec![out(100, [1u8; 32]), out(200, [2u8; 32])];
    let ledger = Module::genesis(&outs);
    assert_eq!(ledger.utxo_count(), 2);
    assert_eq!(ledger.reward_total(), 0);
    for o in &outs {
        let id = genesis_id(o);
        assert_eq!(genesis_output_id(o), id);
        assert_eq!(ledger.get(&id).map(|x| (x.value, x.pub_key)), Some((o.value, o.pub_key)));
    }
}

#[test]
fn genesis_with_repeated_output_holds_one() {
    let outs = vec![out(100, [1u8; 32]), out(100, [1u8; 32])];
    let ledger = Module::genesis(&outs);
    assert_eq!(ledger.utxo_count(), 1);
}

#[test]
fn tampered_transaction_fails_signature() {
    let a = keypair(1);
    let b = keypair(2);
    let (ledger, gid) = one_output_ledger(100, &a);
    let mut tx = spend_tx(gid, &a, vec![out(90, key(&b))]);
    tx.outputs[0].value = 91;
    assert_eq!(ledger.validate_transaction(&tx).err(), Some(UtxoError::InvalidSignature));
}

#[test]
fn signature_by_wrong_key_fails() {
    let a = keypair(1);
    let b = keypair(2);
    let (ledger, gid) = one_output_ledger(100, &a);
    let tx = spend_tx(gid, &b, vec![out(90, key(&b))]);
    assert_eq!(ledger.validate_transaction(&tx).err(), Some(UtxoError::InvalidSignature));
}

#[test]
fn signing_payload_zeroes_signatures() {
    let tx = Transaction {
        inputs: vec![TransactionInput { out_point: [3u8; 32], sig_script: [7u8; 64] }],
        outputs: vec![out(1, [5u8; 32])],
    };
    let zeroed = Transaction { inputs: vec![unsigned_input([3u8; 32])], outputs: tx.outputs.clone() };
    let payload = Module::get_simple_transaction(&tx);
    assert_eq!(payload, expected_encoding(&zeroed));
    assert_ne!(payload, encode_transaction(&tx));
}

#[test]
fn long_output_list_uses_two_byte_length() {
    let outputs: Vec<TransactionOutput> = (1..=70u128).map(|v| out(v, [8u8; 32])).collect();
    let tx = Transaction { inputs: vec![unsigned_input([1u8; 32])], outputs };
    let bytes = encode_transaction(&tx);
    assert_eq!(bytes, expected_encoding(&tx));
    assert_eq!(bytes.len(), 1 + 96 + 2 + 70 * 48);
}

#[test]
fn empty_inputs_rejected() {
    let ledger = Module::new();
    let tx = Transaction { inputs: vec![], outputs: vec![out(1, [1u8; 32])] };
    assert_eq!(ledger.validate_transaction(&tx).err(), Some(UtxoError::EmptyInputs));
}

#[test]
fn empty_outputs_rejected() {
    let ledger = Module::new();
    let tx = Transaction { inputs: vec![unsigned_input([1u8; 32])], outputs: vec![] };
    assert_eq!(ledger.validate_transaction(&tx).err(), Some(UtxoError::EmptyOutputs));
}

#[test]
fn duplicate_output_rejected() {
    let ledger = Module::new();
    let tx = Transaction { inputs: vec![unsigned_input([1u8; 32])], outputs: vec![out(1, [1u8; 32]), out(1, [1u8; 32])] };
    assert_eq!(ledger.validate_transaction(&tx).err(), Some(UtxoError::DuplicateOutput));
}

#[test]
fn zero_value_output_rejected() {
    let ledger = Module::new();
    let tx = Transaction { inputs: vec![unsigned_input([1u8; 32])], outputs: vec![out(0, [1u8; 32])] };
    assert_eq!(ledger.validate_transaction(&tx).err(), Some(UtxoError::ZeroValueOutput));
}

#[test]
fn input_sum_overflow_rejected() {
    let a = keypair(1);
    let g1 = out(u128::MAX, key(&a));
    let g2 = out(1, key(&a));
    let ledger = Module::genesis(&vec![g1, g2]);
    let mut tx = Transaction {
        inputs: vec![unsigned_input(genesis_id(&g1)), unsigned_input(genesis_id(&g2))],
        outputs: vec![out(1, key(&a))],
    };
    sign_all(&mut tx, &a);
    assert_eq!(ledger.validate_transaction(&tx).err(), Some(UtxoError::InputOverflow));
}

#[test]
fn output_sum_overflow_rejected() {
    let ledger = Module::new();
    let tx = Transaction { inputs: vec![unsigned_input([1u8; 32])], outputs: vec![out(u128::MAX, [1u8; 32]), out(1, [2u8; 32])] };
    assert_eq!(ledger.validate_transaction(&tx).err(), Some(UtxoError::OutputOverflow));
}

#[test]
fn reward_overflow_leaves_ledger_unchanged() {
    let a = keypair(1);
    let (mut ledger, gid) = one_output_ledger(11, &a);
    let tx = spend_tx(gid, &a, vec![out(1, key(&a))]);
    assert_eq!(ledger.spend(&tx), Ok(()));
    let other = spend_tx([6u8; 32], &a, vec![out(1, key(&a))]);
    assert_eq!(ledger.update_storage(&other, u128::MAX), Err(UtxoError::RewardOverflow));
    assert_eq!(ledger.reward_total(), 10);
    assert_eq!(ledger.utxo_count(), 1);
}

#[test]
fn no_authorities_skips_distribution() {
    let a = keypair(1);
    let (mut ledger, gid) = one_output_ledger(11, &a);
    assert_eq!(ledger.spend(&spend_tx(gid, &a, vec![out(1, key(&a))])), Ok(()));
    assert_eq!(ledger.disperse_reward(&vec![], 1), Err(UtxoError::DistributionSkipped));
    assert_eq!(ledger.reward_total(), 10);
    assert_eq!(ledger.utxo_count(), 1);
}

#[test]
fn share_of_zero_keeps_whole_pool() {
    let a = keypair(1);
    let (mut ledger, gid) = one_output_ledger(3, &a);
    assert_eq!(ledger.spend(&spend_tx(gid, &a, vec![out(1, key(&a))])), Ok(()));
    assert_eq!(ledger.reward_total(), 2);
    let auths: Vec<H256> = vec![[1u8; 32], [2u8; 32], [3u8; 32]];
    assert_eq!(ledger.disperse_reward(&auths, 1), Ok(0));
    assert_eq!(ledger.reward_total(), 2);
    assert_eq!(ledger.utxo_count(), 1);
}

#[test]
fn repeated_authority_reward_is_not_minted_twice() {
    let a = keypair(1);
    let (mut ledger, gid) = one_output_ledger(5, &a);
    assert_eq!(ledger.spend(&spend_tx(gid, &a, vec![out(1, key(&a))])), Ok(()));
    let auths: Vec<H256> = vec![[1u8; 32], [1u8; 32]];
    assert_eq!(ledger.disperse_reward(&auths, 2), Ok(2));
    assert_eq!(ledger.reward_total(), 0);
    assert_eq!(ledger.utxo_count(), 2);
    let minted = out(2, [1u8; 32]);
    assert_eq!(reward_output_id(&minted, 2), hash(&(2u128, [1u8; 32], 2u64).encode()));
}
