//! A proof-of-work ledger node: transactions with single-signature inputs,
//! blocks mined over a Merkle root of their transactions, an append-only block
//! store with a tip pointer, the unspent-output index derived from it, and the
//! message-driven gossip engine that keeps peers in step.
pub mod block;
pub mod blockchain;
pub mod cli;
pub mod digest;
pub mod encoding;
pub mod error;
pub mod message;
pub mod transaction;
pub mod server;
pub mod tx;
pub mod utxoset;
