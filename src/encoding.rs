use vstd::prelude::*;
use crate::types::{Transaction, TransactionInput, TransactionOutput, TransactionView};

verus! {

/// The `n` low bytes of `v`, least significant first.
pub open spec fn le_bytes(v: nat, n: nat) -> Seq<u8>
    decreases n,
{
    if n == 0 {
        Seq::empty()
    } else {
        seq![(v % 256) as u8] + le_bytes(v / 256, (n - 1) as nat)
    }
}

/// The compact form of a length: a mode in the two low bits of the first
/// byte, then the length in one, two, four or (after a mode byte) four bytes.
pub open spec fn compact_len_bytes(n: nat) -> Seq<u8> {
    if n < 0x40 {
        le_bytes(4 * n, 1)
    } else if n < 0x4000 {
        le_bytes(4 * n + 1, 2)
    } else if n < 0x4000_0000 {
        le_bytes(4 * n + 2, 4)
    } else {
        seq![3u8] + le_bytes(n, 4)
    }
}

/// The 64 zero bytes that stand for a signature in the signing payload.
pub open spec fn zero_signature() -> Seq<u8> {
    Seq::new(64, |_j: int| 0u8)
}

/// An input's bytes; with `unsigned`, its signature is zeroed.
pub open spec fn input_bytes(i: TransactionInput, unsigned: bool) -> Seq<u8> {
    i.out_point@ + if unsigned {
        zero_signature()
    } else {
        i.sig_script@
    }
}

/// An output's bytes: its value in sixteen bytes, then its owner's key.
pub open spec fn output_bytes(o: TransactionOutput) -> Seq<u8> {
    le_bytes(o.value as nat, 16) + o.pub_key@
}

pub open spec fn inputs_bytes(s: Seq<TransactionInput>, unsigned: bool) -> Seq<u8>
    decreases s.len(),
{
    if s.len() == 0 {
        Seq::empty()
    } else {
        inputs_bytes(s.drop_last(), unsigned) + input_bytes(s.last(), unsigned)
    }
}

pub open spec fn outputs_bytes(s: Seq<TransactionOutput>) -> Seq<u8>
    decreases s.len(),
{
    if s.len() == 0 {
        Seq::empty()
    } else {
        outputs_bytes(s.drop_last()) + output_bytes(s.last())
    }
}

/// The canonical encoding of a transaction: each sequence is prefixed by its
/// compact length.
pub open spec fn encode_view(tx: TransactionView, unsigned: bool) -> Seq<u8> {
    compact_len_bytes(tx.inputs.len()) + inputs_bytes(tx.inputs, unsigned)
        + compact_len_bytes(tx.outputs.len()) + outputs_bytes(tx.outputs)
}

/// The full encoding of a transaction, signatures included.
pub open spec fn transaction_bytes(tx: TransactionView) -> Seq<u8> {
    encode_view(tx, false)
}

/// The message each input's owner signs: the encoding with every signature zeroed.
pub open spec fn signing_payload(tx: TransactionView) -> Seq<u8> {
    encode_view(tx, true)
}

/// The encoding's lengths fit the 32-bit compact length prefix.
pub open spec fn encodable(tx: TransactionView) -> bool {
    96 * tx.inputs.len() + 48 * tx.outputs.len() + 10 <= u32::MAX
}

pub proof fn lemma_le_bytes_len(v: nat, n: nat)
    ensures
        le_bytes(v, n).len() == n,
    decreases n,
{
    if n > 0 {
        lemma_le_bytes_len(v / 256, (n - 1) as nat);
    }
}

pub proof fn lemma_compact_len_bytes_len(n: nat)
    ensures
        1 <= compact_len_bytes(n).len() <= 5,
{
    lemma_le_bytes_len(4 * n, 1);
    lemma_le_bytes_len(4 * n + 1, 2);
    lemma_le_bytes_len(4 * n + 2, 4);
    lemma_le_bytes_len(n, 4);
}

pub proof fn lemma_inputs_bytes_len(s: Seq<TransactionInput>, unsigned: bool)
    ensures
        inputs_bytes(s, unsigned).len() == 96 * s.len(),
    decreases s.len(),
{
    if s.len() > 0 {
        lemma_inputs_bytes_len(s.drop_last(), unsigned);
    }
}

pub proof fn lemma_outputs_bytes_len(s: Seq<TransactionOutput>)
    ensures
        outputs_bytes(s).len() == 48 * s.len(),
    decreases s.len(),
{
    if s.len() > 0 {
        lemma_outputs_bytes_len(s.drop_last());
        lemma_le_bytes_len(s.last().value as nat, 16);
    }
}

/// An encodable transaction's encoding is short enough for a compact prefix.
pub proof fn lemma_encoding_len(tx: TransactionView, unsigned: bool)
    requires
        encodable(tx),
    ensures
        encode_view(tx, unsigned).len() <= u32::MAX,
{
    lemma_compact_len_bytes_len(tx.inputs.len());
    lemma_compact_len_bytes_len(tx.outputs.len());
    lemma_inputs_bytes_len(tx.inputs, unsigned);
    lemma_outputs_bytes_len(tx.outputs);
}

/// Relies on parity_scale_codec's `Encode` for `Compact<u32>`, which writes a
/// length in the compact form above.
#[verifier::external_body]
fn encode_compact_len(n: usize) -> (r: Vec<u8>)
    requires
        n <= u32::MAX,
    ensures
        r@ == compact_len_bytes(n as nat),
{
    parity_scale_codec::Encode::encode(&parity_scale_codec::Compact(n as u32))
}

/// Appends the `n` low bytes of `v`, least significant first.
pub fn push_le_bytes(out: &mut Vec<u8>, v: u128, n: usize)
    ensures
        final(out)@ == old(out)@ + le_bytes(v as nat, n as nat),
{
    let mut x: u128 = v;
    let mut i: usize = 0;
    while i < n
        invariant
            i <= n,
            out@ + le_bytes(x as nat, (n - i) as nat) == old(out)@ + le_bytes(v as nat, n as nat),
        decreases n - i,
    {
        let ghost before = out@;
        let ghost rest = le_bytes((x / 256) as nat, (n - i - 1) as nat);
        out.push((x % 256) as u8);
        assert(before + le_bytes(x as nat, (n - i) as nat) =~= out@ + rest);
        x = x / 256;
        i = i + 1;
    }
    assert(out@ + le_bytes(x as nat, 0) =~= out@);
}

/// Appends the bytes of an array.
pub fn push_array<const N: usize>(out: &mut Vec<u8>, a: &[u8; N])
    ensures
        final(out)@ == old(out)@ + a@,
{
    let mut i: usize = 0;
    while i < N
        invariant
            i <= N,
            a@.len() == N,
            out@ == old(out)@ + a@.subrange(0, i as int),
        decreases N - i,
    {
        out.push(a[i]);
        i = i + 1;
        assert(out@ =~= old(out)@ + a@.subrange(0, i as int));
    }
    assert(a@.subrange(0, N as int) =~= a@);
}

/// Appends 64 zero bytes in place of a signature.
fn push_zero_signature(out: &mut Vec<u8>)
    ensures
        final(out)@ == old(out)@ + zero_signature(),
{
    let mut i: usize = 0;
    while i < 64
        invariant
            i <= 64,
            out@ == old(out)@ + Seq::new(i as nat, |_j: int| 0u8),
        decreases 64 - i,
    {
        out.push(0u8);
        i = i + 1;
        assert(out@ =~= old(out)@ + Seq::new(i as nat, |_j: int| 0u8));
    }
}

/// Appends a length in compact form.
pub fn push_compact_len(out: &mut Vec<u8>, n: usize)
    requires
        n <= u32::MAX,
    ensures
        final(out)@ == old(out)@ + compact_len_bytes(n as nat),
{
    let mut c = encode_compact_len(n);
    out.append(&mut c);
}

/// The canonical encoding of a transaction; with `unsigned`, signatures are zeroed.
pub fn encode_transaction_with(tx: &Transaction, unsigned: bool) -> (r: Vec<u8>)
    requires
        encodable(tx@),
    ensures
        r@ == encode_view(tx@, unsigned),
{
    let mut out: Vec<u8> = Vec::new();
    push_compact_len(&mut out, tx.inputs.len());
    let ghost head = out@;
    let mut i: usize = 0;
    while i < tx.inputs.len()
        invariant
            i <= tx.inputs@.len(),
            out@ == head + inputs_bytes(tx.inputs@.take(i as int), unsigned),
        decreases tx.inputs@.len() - i,
    {
        let input = &tx.inputs[i];
        push_array(&mut out, &input.out_point);
        if unsigned {
            push_zero_signature(&mut out);
        } else {
            push_array(&mut out, &input.sig_script);
        }
        assert(tx.inputs@.take(i + 1).drop_last() =~= tx.inputs@.take(i as int));
        i = i + 1;
        assert(out@ =~= head + inputs_bytes(tx.inputs@.take(i as int), unsigned));
    }
    assert(tx.inputs@.take(i as int) =~= tx.inputs@);
    push_compact_len(&mut out, tx.outputs.len());
    let ghost mid = out@;
    let mut j: usize = 0;
    while j < tx.outputs.len()
        invariant
            j <= tx.outputs@.len(),
            out@ == mid + outputs_bytes(tx.outputs@.take(j as int)),
        decreases tx.outputs@.len() - j,
    {
        let output = &tx.outputs[j];
        push_le_bytes(&mut out, output.value, 16);
        push_array(&mut out, &output.pub_key);
        assert(tx.outputs@.take(j + 1).drop_last() =~= tx.outputs@.take(j as int));
        j = j + 1;
        assert(out@ =~= mid + outputs_bytes(tx.outputs@.take(j as int)));
    }
    assert(tx.outputs@.take(j as int) =~= tx.outputs@);
    out
}

/// The full encoding of a transaction, signatures included.
pub fn encode_transaction(tx: &Transaction) -> (r: Vec<u8>)
    requires
        encodable(tx@),
    ensures
        r@ == transaction_bytes(tx@),
{
    encode_transaction_with(tx, false)
}

} // verus!
