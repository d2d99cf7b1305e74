//! Blocks: the Merkle root of their transactions and the proof-of-work search.
use vstd::prelude::*;
use vstd::string::*;
use vstd::utf8::encode_utf8;
use crate::digest::{merkle_root, merkle_root_of, sha256_hex, sha256_of, hex_lower};
use crate::encoding::{bytes_field, i32_le, push_bytes, push_i32, push_str, push_u128, push_u64, str_field, u128_le, u64_le};
use crate::error::LedgerError;
use crate::transaction::{Transaction, TxView, tx_id_of, tx_views};

verus! {

/// The number of leading hex digits of a block hash that must be `'0'`.
pub const TARGET_HEXT: usize = 4;

/// The mathematical value of a block.
pub struct BlockView {
    pub timestamp: u128,
    pub transactions: Seq<TxView>,
    pub prev_block_hash: Seq<char>,
    pub hash: Seq<char>,
    pub height: i32,
    pub nonce: i32,
}

/// A block: when it was made, its transactions, the hash of the block it
/// extends (empty for the first block), its own hash, its height and the
/// nonce its proof of work found.
#[derive(Debug, Clone)]
pub struct Block {
    pub timestamp: u128,
    pub transactions: Vec<Transaction>,
    pub prev_block_hash: String,
    pub hash: String,
    pub height: i32,
    pub nonce: i32,
}

impl View for Block {
    type V = BlockView;

    open spec fn view(&self) -> BlockView {
        BlockView {
            timestamp: self.timestamp,
            transactions: tx_views(self.transactions@),
            prev_block_hash: self.prev_block_hash@,
            hash: self.hash@,
            height: self.height,
            nonce: self.nonce,
        }
    }
}

/// The Merkle leaves of a list of transactions: the bytes of each id.
pub open spec fn merkle_leaves(txs: Seq<TxView>) -> Seq<Seq<u8>> {
    txs.map_values(|t: TxView| encode_utf8(tx_id_of(t)))
}

pub open spec fn merkle_root_spec(txs: Seq<TxView>) -> Seq<u8> {
    merkle_root_of(merkle_leaves(txs))
}

/// The bytes a block hash is computed over.
pub open spec fn header_bytes(prev: Seq<char>, txs: Seq<TxView>, timestamp: u128, nonce: i32) -> Seq<u8> {
    str_field(prev) + bytes_field(merkle_root_spec(txs)) + u128_le(timestamp) + u64_le(TARGET_HEXT as u64)
        + i32_le(nonce)
}

pub open spec fn pow_hash(prev: Seq<char>, txs: Seq<TxView>, timestamp: u128, nonce: i32) -> Seq<char> {
    hex_lower(sha256_of(header_bytes(prev, txs, timestamp, nonce)))
}

/// The first `TARGET_HEXT` characters of `h` are all `'0'`.
pub open spec fn meets_target(h: Seq<char>) -> bool {
    h.len() >= TARGET_HEXT && forall|i: int| 0 <= i < TARGET_HEXT ==> h[i] == '0'
}

pub open spec fn nonce_works(prev: Seq<char>, txs: Seq<TxView>, timestamp: u128, nonce: i32) -> bool {
    meets_target(pow_hash(prev, txs, timestamp, nonce))
}

/// The block's hash is the hash of its own header, and meets the target.
pub open spec fn valid_pow(b: BlockView) -> bool {
    &&& b.hash == pow_hash(b.prev_block_hash, b.transactions, b.timestamp, b.nonce)
    &&& meets_target(b.hash)
}

/// `b` is the block that mining `txs` on `prev` at `height` and `timestamp`
/// yields: the least non-negative nonce that meets the target.
pub open spec fn mined_from(b: BlockView, txs: Seq<TxView>, prev: Seq<char>, height: i32, timestamp: u128) -> bool {
    &&& b.transactions == txs
    &&& b.prev_block_hash == prev
    &&& b.height == height
    &&& b.timestamp == timestamp
    &&& b.nonce >= 0
    &&& valid_pow(b)
    &&& forall|m: i32| 0 <= m < b.nonce ==> !#[trigger] nonce_works(prev, txs, timestamp, m)
}

/// Whether `h` meets the difficulty target.
pub fn meets_difficulty(h: &String) -> (r: bool)
    ensures
        r == meets_target(h@),
{
    let s = h.as_str();
    if s.unicode_len() < TARGET_HEXT {
        return false;
    }
    let mut i: usize = 0;
    while i < TARGET_HEXT
        invariant
            s@ == h@,
            h@.len() >= TARGET_HEXT,
            i <= TARGET_HEXT,
            forall|j: int| 0 <= j < i ==> h@[j] == '0',
        decreases TARGET_HEXT - i,
    {
        if s.get_char(i) != '0' {
            return false;
        }
        i += 1;
    }
    true
}

impl Block {
    /// A copy of this block.
    pub fn copy(&self) -> (r: Block)
        ensures
            r@ == self@,
    {
        Block {
            timestamp: self.timestamp,
            transactions: crate::transaction::copy_transactions(&self.transactions),
            prev_block_hash: self.prev_block_hash.clone(),
            hash: self.hash.clone(),
            height: self.height,
            nonce: self.nonce,
        }
    }

    pub fn get_height(&self) -> (r: i32)
        ensures
            r == self.height,
    {
        self.height
    }

    pub fn get_transaction(&self) -> (r: &Vec<Transaction>)
        ensures
            r == &self.transactions,
    {
        &self.transactions
    }

    pub fn get_hash(&self) -> (r: String)
        ensures
            r@ == self.hash@,
    {
        self.hash.clone()
    }

    pub fn get_prev_hash(&self) -> (r: String)
        ensures
            r@ == self.prev_block_hash@,
    {
        self.prev_block_hash.clone()
    }

    /// The Merkle root over the ids of this block's transactions.
    pub fn get_root_hash_merkle_tree_transactions(&self) -> (r: Vec<u8>)
        ensures
            r@ == merkle_root_spec(self@.transactions),
    {
        let mut leaves: Vec<Vec<u8>> = Vec::new();
        let mut k: usize = 0;
        while k < self.transactions.len()
            invariant
                k <= self.transactions@.len(),
                leaves@.len() == k,
                forall|j: int| 0 <= j < k ==> (#[trigger] leaves@[j])@ == merkle_leaves(self@.transactions)[j],
            decreases self.transactions@.len() - k,
        {
            let id = self.transactions[k].hash();
            leaves.push(id.as_str().as_bytes_vec());
            k += 1;
        }
        assert(leaves@.map_values(|l: Vec<u8>| l@) =~= merkle_leaves(self@.transactions));
        merkle_root(&leaves)
    }

    /// The bytes this block's hash is computed over, given its Merkle root.
    fn prepare_hash_data(&self, root: &Vec<u8>) -> (r: Vec<u8>)
        requires
            root@ == merkle_root_spec(self@.transactions),
        ensures
            r@ == header_bytes(self.prev_block_hash@, self@.transactions, self.timestamp, self.nonce),
    {
        let mut out: Vec<u8> = Vec::new();
        push_str(&mut out, self.prev_block_hash.as_str());
        push_bytes(&mut out, root.as_slice());
        push_u128(&mut out, self.timestamp);
        push_u64(&mut out, TARGET_HEXT as u64);
        push_i32(&mut out, self.nonce);
        assert(out@ =~= header_bytes(self.prev_block_hash@, self@.transactions, self.timestamp, self.nonce));
        out
    }

    /// The hash of this block's header and whether it meets the target.
    fn validate(&self, root: &Vec<u8>) -> (r: (String, bool))
        requires
            root@ == merkle_root_spec(self@.transactions),
        ensures
            r.0@ == pow_hash(self.prev_block_hash@, self@.transactions, self.timestamp, self.nonce),
            r.1 == meets_target(r.0@),
            r.0@.len() == 64,
    {
        let data = self.prepare_hash_data(root);
        let h = sha256_hex(data.as_slice());
        let ok = meets_difficulty(&h);
        (h, ok)
    }

    /// Searches nonces from 0 upward for the first whose header hash meets
    /// the target, and stores it with that hash. Fails, changing nothing,
    /// where no non-negative `i32` works.
    fn run_proof_of_work(&mut self) -> (r: Result<(), LedgerError>)
        ensures
            r is Ok ==> mined_from(final(self)@, old(self)@.transactions, old(self).prev_block_hash@, old(self).height, old(self).timestamp)
                && final(self).hash@.len() == 64,
            r is Err ==> r == Err::<(), LedgerError>(LedgerError::NonceExhausted) && final(self)@ == old(self)@
                && forall|m: i32| 0 <= m ==> !#[trigger] nonce_works(old(self).prev_block_hash@, old(self)@.transactions, old(self).timestamp, m),
    {
        let root = self.get_root_hash_merkle_tree_transactions();
        let ghost start = self@;
        let first_nonce = self.nonce;
        let mut nonce: i32 = 0;
        let mut result: Result<(), LedgerError> = Err(LedgerError::NonceExhausted);
        loop
            invariant_except_break
                0 <= nonce,
                root@ == merkle_root_spec(start.transactions),
                self@ == (BlockView { nonce: self.nonce, ..start }),
                first_nonce == start.nonce,
                result == Err::<(), LedgerError>(LedgerError::NonceExhausted),
                forall|m: i32| 0 <= m < nonce ==> !#[trigger] nonce_works(start.prev_block_hash, start.transactions, start.timestamp, m),
            ensures
                result is Ok ==> mined_from(self@, start.transactions, start.prev_block_hash, start.height, start.timestamp)
                    && self.hash@.len() == 64,
                result is Err ==> result == Err::<(), LedgerError>(LedgerError::NonceExhausted),
                result is Err ==> self@ == start,
                result is Err ==> forall|m: i32| 0 <= m ==> !#[trigger] nonce_works(start.prev_block_hash, start.transactions, start.timestamp, m),
            decreases i32::MAX - nonce,
        {
            self.nonce = nonce;
            let (h, ok) = self.validate(&root);
            if ok {
                self.hash = h;
                result = Ok(());
                break;
            }
            assert(!nonce_works(start.prev_block_hash, start.transactions, start.timestamp, nonce));
            if nonce == i32::MAX {
                self.nonce = first_nonce;
                break;
            }
            nonce += 1;
        }
        result
    }

    /// Mines a block of `transactions` on `prev_block_hash` at `height`, made at `timestamp`.
    pub fn new_block(transactions: Vec<Transaction>, prev_block_hash: String, height: i32, timestamp: u128) -> (r: Result<Block, LedgerError>)
        ensures
            r matches Ok(b) ==> mined_from(b@, tx_views(transactions@), prev_block_hash@, height, timestamp) && b.hash@.len() == 64,
            r is Err ==> r == Err::<Block, LedgerError>(LedgerError::NonceExhausted)
                && forall|m: i32| 0 <= m ==> !#[trigger] nonce_works(prev_block_hash@, tx_views(transactions@), timestamp, m),
    {
        let ghost txs = tx_views(transactions@);
        let ghost prev = prev_block_hash@;
        let mut block = Block { timestamp, transactions, prev_block_hash, hash: String::new(), height, nonce: 0 };
        assert(block@.transactions == txs && block.prev_block_hash@ == prev);
        match block.run_proof_of_work() {
            Ok(()) => Ok(block),
            Err(e) => {
                assert(forall|m: i32| 0 <= m ==> !#[trigger] nonce_works(prev, txs, timestamp, m));
                Err(e)
            },
        }
    }

    /// The first block of a chain: the coinbase alone, no previous hash, height 0.
    pub fn new_genesis_block(coinbase: Transaction, timestamp: u128) -> (r: Result<Block, LedgerError>)
        ensures
            r matches Ok(b) ==> mined_from(b@, seq![coinbase@], Seq::empty(), 0, timestamp) && b.hash@.len() == 64,
            r is Err ==> r == Err::<Block, LedgerError>(LedgerError::NonceExhausted)
                && forall|m: i32| 0 <= m ==> !#[trigger] nonce_works(Seq::empty(), seq![coinbase@], timestamp, m),
    {
        let ghost c = coinbase@;
        let mut txs: Vec<Transaction> = Vec::new();
        txs.push(coinbase);
        assert(tx_views(txs@) =~= seq![c]);
        Block::new_block(txs, String::new(), 0, timestamp)
    }
}

/// Every block that mining yields meets the difficulty target: the first
/// `TARGET_HEXT` characters of its hash are `'0'`.
pub proof fn lemma_mined_block_meets_target(b: BlockView, txs: Seq<TxView>, prev: Seq<char>, height: i32, timestamp: u128)
    requires
        mined_from(b, txs, prev, height, timestamp),
    ensures
        b.hash.len() >= TARGET_HEXT,
        forall|i: int| 0 <= i < TARGET_HEXT ==> b.hash[i] == '0',
{
}

} // verus!
