//! A UTXO ledger state-transition core: transaction validation, commit, and
//! block-reward distribution, with contracts proved by Verus.
pub mod types;
pub mod encoding;
pub mod crypto;
pub mod ledger;
pub mod validate;
pub mod state;
pub mod laws;
