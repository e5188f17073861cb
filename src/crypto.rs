use vstd::prelude::*;
use crate::encoding::{
    compact_len_bytes, le_bytes, output_bytes, push_array, push_compact_len, push_le_bytes,
};
use crate::types::{TransactionOutput, H256, H512};

verus! {

/// The 32-byte BLAKE2b digest of some bytes.
pub uninterp spec fn blake2_256_of(data: Seq<u8>) -> Seq<u8>;

/// Whether `sig` is a valid sr25519 signature of `msg` under public key `key`.
pub uninterp spec fn sr25519_verifies(sig: Seq<u8>, msg: Seq<u8>, key: Seq<u8>) -> bool;

/// Relies on sp_core's `Blake2Hasher::hash`: the BLAKE2b 256-bit digest of its
/// input, which depends on the bytes alone.
#[verifier::external_body]
pub(crate) fn blake2_256(data: &[u8]) -> (r: H256)
    ensures
        r@ == blake2_256_of(data@),
{
    <sp_core::Blake2Hasher as sp_core::Hasher>::hash(data).0
}

/// Relies on sp_core's `sr25519::Pair::verify`: whether the signature is valid
/// for the message under the key, which depends on the three byte strings alone.
#[verifier::external_body]
pub(crate) fn sr25519_verify(sig: &H512, msg: &[u8], key: &H256) -> (r: bool)
    ensures
        r == sr25519_verifies(sig@, msg@, key@),
{
    <sp_core::sr25519::Pair as sp_core::Pair>::verify(
        &sp_core::sr25519::Signature::from_raw(*sig),
        msg,
        &sp_core::sr25519::Public::from_raw(*key),
    )
}

/// The bytes hashed into the id of the output at `index` of a transaction
/// whose encoding is `tx_bytes`: the encoding as a length-prefixed byte
/// string, then the index in eight bytes.
pub open spec fn output_id_preimage(tx_bytes: Seq<u8>, index: nat) -> Seq<u8> {
    compact_len_bytes(tx_bytes.len()) + tx_bytes + le_bytes(index, 8)
}

/// The id of the output at `index` of a transaction whose encoding is `tx_bytes`.
pub open spec fn output_id_of(tx_bytes: Seq<u8>, index: nat) -> Seq<u8> {
    blake2_256_of(output_id_preimage(tx_bytes, index))
}

/// The id under which a configured output enters the ledger at genesis.
pub open spec fn genesis_id(o: TransactionOutput) -> Seq<u8> {
    blake2_256_of(output_bytes(o))
}

/// The id of a reward output minted at block `block_number`.
pub open spec fn reward_id(o: TransactionOutput, block_number: nat) -> Seq<u8> {
    blake2_256_of(output_bytes(o) + le_bytes(block_number, 8))
}

/// Appends an output's encoding.
fn push_output(out: &mut Vec<u8>, o: &TransactionOutput)
    ensures
        final(out)@ == old(out)@ + output_bytes(*o),
{
    push_le_bytes(out, o.value, 16);
    push_array(out, &o.pub_key);
    assert(final(out)@ =~= old(out)@ + output_bytes(*o));
}

/// The id of the output at `index` of the transaction encoded as `tx_bytes`.
pub fn transaction_output_id(tx_bytes: &Vec<u8>, index: u64) -> (r: H256)
    requires
        tx_bytes@.len() <= u32::MAX,
    ensures
        r@ == output_id_of(tx_bytes@, index as nat),
{
    let mut pre: Vec<u8> = Vec::new();
    push_compact_len(&mut pre, tx_bytes.len());
    let mut i: usize = 0;
    let ghost head = pre@;
    while i < tx_bytes.len()
        invariant
            i <= tx_bytes@.len(),
            pre@ == head + tx_bytes@.subrange(0, i as int),
        decreases tx_bytes@.len() - i,
    {
        pre.push(tx_bytes[i]);
        i = i + 1;
        assert(pre@ =~= head + tx_bytes@.subrange(0, i as int));
    }
    assert(tx_bytes@.subrange(0, i as int) =~= tx_bytes@);
    push_le_bytes(&mut pre, index as u128, 8);
    blake2_256(pre.as_slice())
}

/// The id under which a configured output enters the ledger at genesis.
pub fn genesis_output_id(o: &TransactionOutput) -> (r: H256)
    ensures
        r@ == genesis_id(*o),
{
    let mut pre: Vec<u8> = Vec::new();
    push_output(&mut pre, o);
    assert(pre@ =~= output_bytes(*o));
    blake2_256(pre.as_slice())
}

/// The id of a reward output minted at block `block_number`.
pub fn reward_output_id(o: &TransactionOutput, block_number: u64) -> (r: H256)
    ensures
        r@ == reward_id(*o, block_number as nat),
{
    let mut pre: Vec<u8> = Vec::new();
    push_output(&mut pre, o);
    push_le_bytes(&mut pre, block_number as u128, 8);
    assert(pre@ =~= output_bytes(*o) + le_bytes(block_number as nat, 8));
    blake2_256(pre.as_slice())
}

} // verus!
