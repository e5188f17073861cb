use vstd::prelude::*;

verus! {

/// A 256-bit identifier or public key.
pub type H256 = [u8; 32];

/// A 512-bit signature.
pub type H512 = [u8; 64];

/// An amount of value.
pub type Value = u128;

/// A claim on an unspent output: its id and a signature by its owner.
#[derive(Clone, Copy, Debug)]
pub struct TransactionInput {
    pub out_point: H256,
    pub sig_script: H512,
}

/// An amount of value owned by a public key.
#[derive(Clone, Copy, Debug)]
pub struct TransactionOutput {
    pub value: Value,
    pub pub_key: H256,
}

/// A transaction: ordered inputs and ordered outputs.
#[derive(Clone, Debug)]
pub struct Transaction {
    pub inputs: Vec<TransactionInput>,
    pub outputs: Vec<TransactionOutput>,
}

/// The mathematical content of a transaction.
pub struct TransactionView {
    pub inputs: Seq<TransactionInput>,
    pub outputs: Seq<TransactionOutput>,
}

impl View for Transaction {
    type V = TransactionView;

    open spec fn view(&self) -> TransactionView {
        TransactionView { inputs: self.inputs@, outputs: self.outputs@ }
    }
}

/// The reasons a transaction, a commit or a distribution is refused.
#[derive(Clone, Copy, Debug, PartialEq, Eq, Structural)]
pub enum UtxoError {
    EmptyInputs,
    EmptyOutputs,
    DuplicateInput,
    DuplicateOutput,
    InvalidSignature,
    InputOverflow,
    ZeroValueOutput,
    OutputCollision,
    OutputOverflow,
    InsufficientInputValue,
    /// Some inputs are not in the ledger yet: the transaction is pending.
    MissingDependency,
    /// Adding the reward to the pool would overflow: nothing is committed.
    RewardOverflow,
    /// There are no authorities to distribute the pool to.
    DistributionSkipped,
}

/// Two byte arrays hold the same bytes.
pub fn bytes_eq<const N: usize>(a: &[u8; N], b: &[u8; N]) -> (r: bool)
    ensures
        r == (a@ == b@),
{
    let mut i: usize = 0;
    while i < N
        invariant
            0 <= i <= N,
            a@.len() == N,
            b@.len() == N,
            forall|j: int| 0 <= j < i ==> a@[j] == b@[j],
        decreases N - i,
    {
        if a[i] != b[i] {
            return false;
        }
        i = i + 1;
    }
    assert(a@ =~= b@);
    true
}

} // verus!
