//! The commands of the front end that compute on the ledger. Reading the
//! store and printing stay with the caller.
use vstd::prelude::*;
use crate::error::LedgerError;
use crate::tx::{address_hash, decode};
use crate::utxoset::{UTXOSet, index_count, index_sum, utxo_index};
use crate::blockchain::walk;

verus! {

/// The command-line front end; it holds no state.
pub struct Cli {}

impl Cli {
    pub fn new() -> (r: Cli) {
        Cli {}
    }
}

/// Rebuilds the index and gives the number of transactions in it.
pub fn cmd_reindex(utxo: &mut UTXOSet) -> (r: usize)
    requires
        old(utxo).blockchain.wf(),
    ensures
        final(utxo).blockchain@ == old(utxo).blockchain@,
        final(utxo).fresh(),
        r == utxo_index(walk(old(utxo).blockchain@), walk(old(utxo).blockchain@).len() as int).len(),
{
    utxo.reindex();
    utxo.count_transactions()
}

/// The balance of `address`: the value of the unspent outputs locked to the
/// public-key hash it carries.
pub fn cmd_get_balance(utxo: &UTXOSet, address: &str) -> (r: Result<i128, LedgerError>)
    requires
        index_count(utxo.index()) <= u64::MAX,
    ensures
        match address_hash(address@) {
            Some(b) => r == Ok::<i128, LedgerError>(index_sum(utxo.index(), b) as i128),
            None => r == Err::<i128, LedgerError>(LedgerError::InvalidAddress),
        },
{
    match decode(address) {
        Some(pub_key_hash) => Ok(utxo.balance(pub_key_hash.as_slice())),
        None => Err(LedgerError::InvalidAddress),
    }
}

} // verus!
