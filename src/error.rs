//! The ways a ledger operation can fail.
use vstd::prelude::*;

verus! {

#[derive(Debug, Clone, Copy, PartialEq, Eq, Structural)]
pub enum LedgerError {
    /// The spendable outputs of the sender add up to less than the amount.
    InsufficientFunds,
    /// An input refers to a transaction that is unknown, has an empty id, or
    /// has no output at the referenced index.
    MissingPreviousTransaction,
    /// A transaction offered for a block does not verify.
    InvalidTransaction,
    /// No block is stored under the hash asked for.
    NotFound,
    /// An address text does not decode to a public-key hash.
    InvalidAddress,
    /// No nonce in the non-negative range of `i32` meets the difficulty.
    NonceExhausted,
    /// The tip is at the largest height an `i32` holds.
    HeightOverflow,
}

} // verus!
