//! The ledger store: blocks keyed by hash, a tip, and the walk from the tip
//! back to the first block.
use vstd::prelude::*;
use crate::block::{Block, BlockView, mined_from, nonce_works};
use crate::tx::{OutputView, address_hash};
use crate::transaction::{SUBSIDY, coinbase_spec};
use crate::error::LedgerError;
use crate::transaction::{
    Transaction, TxView, copy_transactions, find_prev, input_verifies, is_coinbase_view, lookup_tx,
    prevs_known, signed_view, tx_views,
};

verus! {

/// The mathematical value of a ledger: the stored blocks and the tip hash.
pub struct LedgerView {
    pub blocks: Seq<BlockView>,
    pub tip: Seq<char>,
}

pub open spec fn hashes_unique(bs: Seq<BlockView>) -> bool {
    forall|i: int, j: int| 0 <= i < bs.len() && 0 <= j < bs.len() && i != j ==> bs[i].hash != bs[j].hash
}

pub open spec fn has_block(bs: Seq<BlockView>, h: Seq<char>) -> bool {
    exists|i: int| 0 <= i < bs.len() && bs[i].hash == h
}

/// The stored block whose hash is `h` (meaningful where `has_block`).
pub open spec fn block_at(bs: Seq<BlockView>, h: Seq<char>) -> BlockView {
    bs[choose|i: int| 0 <= i < bs.len() && bs[i].hash == h]
}

/// The blocks met walking back from hash `h`, at most `fuel` of them.
pub open spec fn chain(bs: Seq<BlockView>, h: Seq<char>, fuel: nat) -> Seq<BlockView>
    decreases fuel,
{
    if fuel == 0 || !has_block(bs, h) {
        Seq::empty()
    } else {
        seq![block_at(bs, h)] + chain(bs, block_at(bs, h).prev_block_hash, (fuel - 1) as nat)
    }
}

/// The walk from the tip: each block, then the block its previous hash names,
/// until a hash is not stored. A walk of more blocks than are stored would
/// repeat one, so it stops there.
pub open spec fn walk(v: LedgerView) -> Seq<BlockView> {
    chain(v.blocks, v.tip, v.blocks.len())
}

/// The transactions of `bs`, block after block.
pub open spec fn txs_of_blocks(bs: Seq<BlockView>) -> Seq<TxView>
    decreases bs.len(),
{
    if bs.len() == 0 {
        Seq::empty()
    } else {
        txs_of_blocks(bs.drop_last()) + bs.last().transactions
    }
}

pub open spec fn walk_txs(v: LedgerView) -> Seq<TxView> {
    txs_of_blocks(walk(v))
}

/// The height of the tip block, or -1 where the tip is not stored.
pub open spec fn best_height(v: LedgerView) -> i32 {
    if has_block(v.blocks, v.tip) {
        block_at(v.blocks, v.tip).height
    } else {
        -1i32
    }
}

/// The store after appending `b`: nothing changes where its hash is stored
/// already; else it is stored, and becomes the tip where it is higher.
pub open spec fn appended(v: LedgerView, b: BlockView) -> LedgerView {
    if has_block(v.blocks, b.hash) {
        v
    } else {
        LedgerView {
            blocks: v.blocks.push(b),
            tip: if b.height > best_height(v) { b.hash } else { v.tip },
        }
    }
}

/// The blocks after writing `b` under its hash, replacing what was there.
pub open spec fn put_block(bs: Seq<BlockView>, b: BlockView) -> Seq<BlockView> {
    if has_block(bs, b.hash) {
        bs.update(choose|i: int| 0 <= i < bs.len() && bs[i].hash == b.hash, b)
    } else {
        bs.push(b)
    }
}

/// The transactions that the inputs of `t` spend, found on the walk from the tip.
pub open spec fn prev_txs_spec(v: LedgerView, t: TxView) -> Seq<TxView> {
    Seq::new(t.vin.len(), |i: int| lookup_tx(walk_txs(v), t.vin[i].txid).unwrap())
}

pub open spec fn prevs_on_chain(v: LedgerView, t: TxView) -> bool {
    forall|i: int| 0 <= i < t.vin.len() ==> (#[trigger] lookup_tx(walk_txs(v), t.vin[i].txid)) is Some
}

/// What verifying `t` against the ledger gives.
pub open spec fn verify_result(v: LedgerView, t: TxView) -> Result<bool, LedgerError> {
    if is_coinbase_view(t) {
        Ok(true)
    } else if !prevs_on_chain(v, t) || !prevs_known(t, prev_txs_spec(v, t)) {
        Err(LedgerError::MissingPreviousTransaction)
    } else {
        Ok(forall|i: int| 0 <= i < t.vin.len() ==> #[trigger] input_verifies(t, prev_txs_spec(v, t), i))
    }
}

/// The error that a verification outcome other than `Ok(true)` gives.
pub open spec fn rejection(res: Result<bool, LedgerError>) -> LedgerError {
    match res {
        Err(e) => e,
        Ok(_) => LedgerError::InvalidTransaction,
    }
}

/// The first `n` of `txs` verify against the ledger.
pub open spec fn all_verify(v: LedgerView, txs: Seq<TxView>, n: int) -> bool {
    forall|j: int| 0 <= j < n ==> #[trigger] verify_result(v, txs[j]) == Ok::<bool, LedgerError>(true)
}

/// The free-form data of the first block's coinbase.
pub open spec fn genesis_note() -> Seq<char> {
    "The Times 03/Jan/2009 Chancellor on brink of second bailout for banks"@
}

/// The stored blocks, and the hash of the tip block.
#[derive(Debug)]
pub struct Blockchain {
    pub current_hash: String,
    pub blocks: Vec<Block>,
}

/// The walk from a tip, one block at a time.
pub struct BlockchainIter<'a> {
    pub current_hash: String,
    pub remaining: usize,
    pub bc: &'a Blockchain,
}

impl View for Blockchain {
    type V = LedgerView;

    open spec fn view(&self) -> LedgerView {
        LedgerView { blocks: self.blocks@.map_values(|b: Block| b@), tip: self.current_hash@ }
    }
}

impl<'a> BlockchainIter<'a> {
    /// The blocks this walk has still to give.
    pub open spec fn rest(&self) -> Seq<BlockView> {
        chain(self.bc@.blocks, self.current_hash@, self.remaining as nat)
    }

    pub open spec fn source(&self) -> &'a Blockchain {
        self.bc
    }

    /// The next block of the walk, if any.
    pub fn next(&mut self) -> (r: Option<Block>)
        requires
            old(self).source().wf(),
        ensures
            final(self).source() == old(self).source(),
            old(self).rest().len() == 0 ==> r is None,
            r is None ==> *final(self) == *old(self),
            old(self).rest().len() > 0 ==> (r matches Some(b) && b@ == old(self).rest()[0]
                && final(self).rest() == old(self).rest().drop_first()
                && final(self).remaining < old(self).remaining),
    {
        if self.remaining == 0 {
            return None;
        }
        match self.bc.position(&self.current_hash) {
            None => None,
            Some(k) => {
                let b = self.bc.blocks[k].copy();
                let ghost rest = self.rest();
                self.current_hash = b.prev_block_hash.clone();
                self.remaining = self.remaining - 1;
                assert(rest.drop_first() =~= self.rest());
                Some(b)
            },
        }
    }
}

impl Blockchain {
    /// No two stored blocks share a hash.
    pub open spec fn wf(&self) -> bool {
        hashes_unique(self@.blocks)
    }

    /// An empty store, with no tip.
    pub fn new() -> (r: Blockchain)
        ensures
            r.wf(),
            r@.blocks.len() == 0,
            r@.tip.len() == 0,
    {
        let r = Blockchain { current_hash: String::new(), blocks: Vec::new() };
        assert(r@.blocks =~= Seq::<BlockView>::empty());
        r
    }

    /// The stored blocks, in the order they were stored.
    pub fn stored_blocks(&self) -> (r: &Vec<Block>)
        ensures
            r@.map_values(|b: Block| b@) == self@.blocks,
    {
        &self.blocks
    }

    /// Where the block with hash `h` is stored.
    fn position(&self, h: &String) -> (r: Option<usize>)
        requires
            self.wf(),
        ensures
            match r {
                Some(k) => k < self.blocks@.len() && has_block(self@.blocks, h@)
                    && block_at(self@.blocks, h@) == self.blocks@[k as int]@
                    && (choose|i: int| 0 <= i < self@.blocks.len() && self@.blocks[i].hash == h@) == k,
                None => !has_block(self@.blocks, h@),
            },
    {
        let mut k: usize = 0;
        while k < self.blocks.len()
            invariant
                self.wf(),
                k <= self.blocks@.len(),
                forall|i: int| 0 <= i < k ==> self@.blocks[i].hash != h@,
            decreases self.blocks@.len() - k,
        {
            assert(self@.blocks[k as int] == self.blocks@[k as int]@);
            if self.blocks[k].hash == *h {
                assert(has_block(self@.blocks, h@));
                let ghost j = choose|i: int| 0 <= i < self@.blocks.len() && self@.blocks[i].hash == h@;
                assert(self@.blocks[j].hash == h@);
                assert(self@.blocks[k as int].hash == h@);
                assert(hashes_unique(self@.blocks));
                assert(j == k);
                return Some(k);
            }
            k += 1;
        }
        None
    }

    /// The hash of the tip block.
    pub fn get_tip_hash(&self) -> (r: String)
        ensures
            r@ == self@.tip,
    {
        self.current_hash.clone()
    }

    /// The block stored under `block_hash`.
    pub fn get_block(&self, block_hash: &String) -> (r: Result<Block, LedgerError>)
        requires
            self.wf(),
        ensures
            has_block(self@.blocks, block_hash@) ==> (r matches Ok(b) && b@ == block_at(self@.blocks, block_hash@)),
            !has_block(self@.blocks, block_hash@) ==> r == Err::<Block, LedgerError>(LedgerError::NotFound),
    {
        match self.position(block_hash) {
            Some(k) => Ok(self.blocks[k].copy()),
            None => Err(LedgerError::NotFound),
        }
    }

    /// The height of the tip block, or -1 for an empty store.
    pub fn get_best_height(&self) -> (r: i32)
        requires
            self.wf(),
        ensures
            r == best_height(self@),
    {
        match self.position(&self.current_hash) {
            Some(k) => self.blocks[k].height,
            None => -1,
        }
    }

    /// Appends `block`. Where its hash is stored already nothing changes;
    /// else it is stored, and becomes the tip where it is higher than the tip.
    pub fn add_block(&mut self, block: Block) -> (r: Result<(), LedgerError>)
        requires
            old(self).wf(),
        ensures
            r is Ok,
            final(self).wf(),
            final(self)@ == appended(old(self)@, block@),
    {
        if self.position(&block.hash).is_some() {
            return Ok(());
        }
        let last_height = self.get_best_height();
        let ghost old_view = self@;
        let higher = block.height > last_height;
        let h = block.hash.clone();
        self.blocks.push(block);
        if higher {
            self.current_hash = h;
        }
        assert(self@.blocks =~= old_view.blocks.push(block@));
        Ok(())
    }

    /// Writes `block` under its hash, replacing a block stored there, and
    /// makes it the tip.
    fn put_tip(&mut self, block: Block)
        requires
            old(self).wf(),
        ensures
            final(self).wf(),
            final(self)@ == (LedgerView { blocks: put_block(old(self)@.blocks, block@), tip: block@.hash }),
    {
        let ghost old_view = self@;
        let h = block.hash.clone();
        match self.position(&block.hash) {
            Some(k) => {
                self.blocks.set(k, block);
                assert(self@.blocks =~= put_block(old_view.blocks, block@));
            },
            None => {
                self.blocks.push(block);
                assert(self@.blocks =~= put_block(old_view.blocks, block@));
            },
        }
        self.current_hash = h;
    }

    /// A walk from the tip back to the first block.
    pub fn iter(&self) -> (r: BlockchainIter<'_>)
        ensures
            r.source() == self,
            r.rest() == walk(self@),
    {
        BlockchainIter { current_hash: self.current_hash.clone(), remaining: self.blocks.len(), bc: self }
    }

    /// The blocks of the walk from the tip.
    pub fn walk_blocks(&self) -> (r: Vec<Block>)
        requires
            self.wf(),
        ensures
            r@.map_values(|b: Block| b@) == walk(self@),
    {
        let mut it = self.iter();
        let mut out: Vec<Block> = Vec::new();
        loop
            invariant_except_break
                self.wf(),
                it.source() == self,
                out@.map_values(|b: Block| b@) + it.rest() == walk(self@),
            ensures
                out@.map_values(|b: Block| b@) == walk(self@),
            decreases it.remaining,
        {
            let ghost rest = it.rest();
            match it.next() {
                Some(b) => {
                    let ghost prev_out = out@.map_values(|b: Block| b@);
                    out.push(b);
                    assert(out@.map_values(|b: Block| b@) =~= prev_out.push(rest[0]));
                    assert(prev_out.push(rest[0]) + rest.drop_first() =~= prev_out + rest);
                },
                None => {
                    assert(rest.len() == 0);
                    assert(out@.map_values(|b: Block| b@) + rest =~= out@.map_values(|b: Block| b@));
                    break;
                },
            }
        }
        out
    }

    /// The transactions of the walk from the tip, block after block.
    pub fn walk_transactions(&self) -> (r: Vec<Transaction>)
        requires
            self.wf(),
        ensures
            tx_views(r@) == walk_txs(self@),
    {
        let blocks = self.walk_blocks();
        let ghost bs = blocks@.map_values(|b: Block| b@);
        let mut out: Vec<Transaction> = Vec::new();
        let mut k: usize = 0;
        while k < blocks.len()
            invariant
                bs == blocks@.map_values(|b: Block| b@),
                k <= blocks@.len(),
                tx_views(out@) == txs_of_blocks(bs.subrange(0, k as int)),
            decreases blocks@.len() - k,
        {
            let txs = copy_transactions(&blocks[k].transactions);
            let ghost before = tx_views(out@);
            let mut j: usize = 0;
            while j < txs.len()
                invariant
                    j <= txs@.len(),
                    tx_views(out@) == before + tx_views(txs@).subrange(0, j as int),
                decreases txs@.len() - j,
            {
                let c = txs[j].copy();
                let ghost prev = out@;
                out.push(c);
                assert(tx_views(out@) =~= tx_views(prev).push(c@));
                assert(tx_views(txs@).subrange(0, j + 1) =~= tx_views(txs@).subrange(0, j as int).push(tx_views(txs@)[j as int]));
                j += 1;
            }
            assert(bs.subrange(0, k + 1).drop_last() =~= bs.subrange(0, k as int));
            assert(tx_views(txs@).subrange(0, txs@.len() as int) =~= bs[k as int].transactions);
            k += 1;
        }
        assert(bs.subrange(0, blocks@.len() as int) =~= bs);
        out
    }

    /// The hashes of the blocks of the walk from the tip.
    pub fn get_block_hashs(&self) -> (r: Vec<String>)
        requires
            self.wf(),
        ensures
            r@.len() == walk(self@).len(),
            forall|i: int| 0 <= i < r@.len() ==> (#[trigger] r@[i])@ == walk(self@)[i].hash,
    {
        let blocks = self.walk_blocks();
        let mut out: Vec<String> = Vec::new();
        let mut k: usize = 0;
        while k < blocks.len()
            invariant
                blocks@.map_values(|b: Block| b@) == walk(self@),
                k <= blocks@.len(),
                out@.len() == k,
                forall|i: int| 0 <= i < k ==> (#[trigger] out@[i])@ == walk(self@)[i].hash,
            decreases blocks@.len() - k,
        {
            assert(walk(self@)[k as int] == blocks@[k as int]@);
            out.push(blocks[k].get_hash());
            k += 1;
        }
        out
    }

    /// The first transaction with id `id` on the walk from the tip.
    pub fn find_transaction(&self, id: &String) -> (r: Result<Transaction, LedgerError>)
        requires
            self.wf(),
        ensures
            match lookup_tx(walk_txs(self@), id@) {
                Some(t) => r matches Ok(x) && x@ == t,
                None => r == Err::<Transaction, LedgerError>(LedgerError::NotFound),
            },
    {
        let all = self.walk_transactions();
        match find_prev(&all, id) {
            Some(k) => Ok(all[k].copy()),
            None => Err(LedgerError::NotFound),
        }
    }

    /// The transactions that the inputs of `tx` spend, found on the walk from the tip.
    fn get_prev_TXs(&self, tx: &Transaction) -> (r: Result<Vec<Transaction>, LedgerError>)
        requires
            self.wf(),
        ensures
            r is Ok <==> prevs_on_chain(self@, tx@),
            r matches Ok(v) ==> tx_views(v@) == prev_txs_spec(self@, tx@),
            r is Err ==> r == Err::<Vec<Transaction>, LedgerError>(LedgerError::MissingPreviousTransaction),
    {
        let all = self.walk_transactions();
        let mut out: Vec<Transaction> = Vec::new();
        let mut k: usize = 0;
        while k < tx.vin.len()
            invariant
                tx_views(all@) == walk_txs(self@),
                k <= tx.vin@.len(),
                out@.len() == k,
                forall|i: int| 0 <= i < k ==> (#[trigger] lookup_tx(walk_txs(self@), tx@.vin[i].txid)) is Some,
                forall|i: int| 0 <= i < k ==> (#[trigger] out@[i])@ == prev_txs_spec(self@, tx@)[i],
            decreases tx.vin@.len() - k,
        {
            assert(tx@.vin[k as int] == tx.vin@[k as int]@);
            match find_prev(&all, &tx.vin[k].txid) {
                Some(p) => out.push(all[p].copy()),
                None => {
                    assert(lookup_tx(walk_txs(self@), tx@.vin[k as int].txid) is None);
                    return Err(LedgerError::MissingPreviousTransaction);
                },
            }
            k += 1;
        }
        assert(tx_views(out@) =~= prev_txs_spec(self@, tx@));
        Ok(out)
    }

    /// Signs `tx` with `private_key` against the transactions its inputs spend
    /// on the walk from the tip. A coinbase is left as it is.
    pub fn sign_transaction(&self, tx: &mut Transaction, private_key: &[u8]) -> (r: Result<(), LedgerError>)
        requires
            self.wf(),
            !is_coinbase_view(old(tx)@) ==> private_key@.len() >= 64,
        ensures
            is_coinbase_view(old(tx)@) ==> r is Ok && final(tx)@ == old(tx)@,
            !is_coinbase_view(old(tx)@) ==> (r is Ok <==> prevs_on_chain(self@, old(tx)@)
                && prevs_known(old(tx)@, prev_txs_spec(self@, old(tx)@))),
            !is_coinbase_view(old(tx)@) && r is Ok ==> final(tx)@ == signed_view(
                old(tx)@,
                prev_txs_spec(self@, old(tx)@),
                private_key@,
            ),
            r is Err ==> r == Err::<(), LedgerError>(LedgerError::MissingPreviousTransaction) && final(tx)@ == old(tx)@,
    {
        if tx.is_coinbase() {
            return Ok(());
        }
        let prev = match self.get_prev_TXs(tx) {
            Ok(p) => p,
            Err(e) => return Err(e),
        };
        tx.sign(private_key, &prev)
    }

    /// Verifies the signatures of `tx` against the transactions its inputs
    /// spend on the walk from the tip.
    pub fn verify_transaction(&self, tx: &Transaction) -> (r: Result<bool, LedgerError>)
        requires
            self.wf(),
        ensures
            r == verify_result(self@, tx@),
    {
        if tx.is_coinbase() {
            return Ok(true);
        }
        let prev = match self.get_prev_TXs(tx) {
            Ok(p) => p,
            Err(e) => return Err(e),
        };
        tx.verify(&prev)
    }
}

impl Blockchain {
    /// Mines a block of `transactions` on the tip, at `timestamp`, after
    /// checking that each verifies; stores it and makes it the tip.
    pub fn mine_block(&mut self, transactions: Vec<Transaction>, timestamp: u128) -> (r: Result<Block, LedgerError>)
        requires
            old(self).wf(),
        ensures
            final(self).wf(),
            r matches Ok(b) ==> {
                &&& all_verify(old(self)@, tx_views(transactions@), transactions@.len() as int)
                &&& best_height(old(self)@) < i32::MAX
                &&& mined_from(b@, tx_views(transactions@), old(self)@.tip, (best_height(old(self)@) + 1) as i32, timestamp)
                &&& final(self)@ == (LedgerView { blocks: put_block(old(self)@.blocks, b@), tip: b@.hash })
            },
            r matches Err(e) ==> final(self)@ == old(self)@ && {
                ||| exists|k: int| 0 <= k < transactions@.len() && all_verify(old(self)@, tx_views(transactions@), k)
                    && verify_result(old(self)@, #[trigger] tx_views(transactions@)[k]) != Ok::<bool, LedgerError>(true)
                    && e == rejection(verify_result(old(self)@, tx_views(transactions@)[k]))
                ||| all_verify(old(self)@, tx_views(transactions@), transactions@.len() as int)
                    && best_height(old(self)@) == i32::MAX && e == LedgerError::HeightOverflow
                ||| all_verify(old(self)@, tx_views(transactions@), transactions@.len() as int)
                    && best_height(old(self)@) < i32::MAX && e == LedgerError::NonceExhausted
                    && forall|m: i32| 0 <= m ==> !#[trigger] nonce_works(old(self)@.tip, tx_views(transactions@), timestamp, m)
            },
    {
        let ghost txs = tx_views(transactions@);
        let mut k: usize = 0;
        while k < transactions.len()
            invariant
                self.wf(),
                txs == tx_views(transactions@),
                k <= transactions@.len(),
                all_verify(self@, txs, k as int),
            decreases transactions@.len() - k,
        {
            assert(txs[k as int] == transactions@[k as int]@);
            match self.verify_transaction(&transactions[k]) {
                Ok(true) => {},
                Ok(false) => return Err(LedgerError::InvalidTransaction),
                Err(e) => return Err(e),
            }
            k += 1;
        }
        let best = self.get_best_height();
        if best == i32::MAX {
            return Err(LedgerError::HeightOverflow);
        }
        let block = match Block::new_block(transactions, self.current_hash.clone(), best + 1, timestamp) {
            Ok(b) => b,
            Err(e) => return Err(e),
        };
        let out = block.copy();
        self.put_tip(block);
        Ok(out)
    }

    /// A ledger of one block: the first block, whose coinbase pays the
    /// reward to `address`, mined at `timestamp`.
    pub fn create_blockchain(address: String, timestamp: u128) -> (r: Result<Blockchain, LedgerError>)
        ensures
            address_hash(address@) is None ==> r == Err::<Blockchain, LedgerError>(LedgerError::InvalidAddress),
            address_hash(address@) is Some ==> match r {
                Ok(bc) => {
                    &&& bc.wf()
                    &&& bc@.blocks.len() == 1
                    &&& bc@.tip == bc@.blocks[0].hash
                    &&& bc@.blocks[0].transactions.len() == 1
                    &&& is_coinbase_view(bc@.blocks[0].transactions[0])
                    &&& bc@.blocks[0].transactions[0].vout == seq![OutputView { value: SUBSIDY, pub_key_hash: address_hash(address@).unwrap() }]
                    &&& mined_from(bc@.blocks[0], bc@.blocks[0].transactions, Seq::empty(), 0, timestamp)
                },
                Err(e) => e == LedgerError::NonceExhausted && forall|m: i32| 0 <= m ==> !#[trigger] nonce_works(
                    Seq::empty(),
                    seq![coinbase_spec(address@, genesis_note(), address_hash(address@).unwrap())],
                    timestamp,
                    m,
                ),
            },
    {
        let note = "The Times 03/Jan/2009 Chancellor on brink of second bailout for banks".to_owned();
        assert(note@ == genesis_note());
        let cbtx = match Transaction::new_coinbase(address, note) {
            Ok(t) => t,
            Err(e) => return Err(e),
        };
        let genesis = match Block::new_genesis_block(cbtx, timestamp) {
            Ok(b) => b,
            Err(e) => return Err(e),
        };
        let mut bc = Blockchain::new();
        let ghost g = genesis@;
        bc.put_tip(genesis);
        assert(bc@.blocks =~= seq![g]);
        Ok(bc)
    }
}

/// Appending a block that is already stored changes nothing: appending the
/// same block twice leaves the tip and the stored blocks as one append did.
pub proof fn lemma_append_idempotent(v: LedgerView, b: BlockView)
    ensures
        appended(appended(v, b), b) == appended(v, b),
        has_block(appended(v, b).blocks, b.hash),
{
    if !has_block(v.blocks, b.hash) {
        let w = appended(v, b);
        assert(w.blocks[w.blocks.len() - 1].hash == b.hash);
    }
}

/// Every stored block that names a previous block has it stored, one height lower.
pub open spec fn all_linked(bs: Seq<BlockView>) -> bool {
    forall|i: int|
        0 <= i < bs.len() && #[trigger] bs[i].prev_block_hash.len() > 0 ==> has_block(bs, bs[i].prev_block_hash)
            && block_at(bs, bs[i].prev_block_hash).height == bs[i].height - 1
}

proof fn lemma_block_at_unique(bs: Seq<BlockView>, j: int)
    requires
        hashes_unique(bs),
        0 <= j < bs.len(),
    ensures
        has_block(bs, bs[j].hash),
        block_at(bs, bs[j].hash) == bs[j],
{
    let h = bs[j].hash;
    assert(has_block(bs, h));
    let k = choose|i: int| 0 <= i < bs.len() && bs[i].hash == h;
    assert(k == j);
}

proof fn lemma_chain_in_store(bs: Seq<BlockView>, h: Seq<char>, fuel: nat)
    ensures
        forall|i: int| 0 <= i < chain(bs, h, fuel).len() ==> exists|j: int| 0 <= j < bs.len() && bs[j] == #[trigger] chain(bs, h, fuel)[i],
    decreases fuel,
{
    if fuel > 0 && has_block(bs, h) {
        let b = block_at(bs, h);
        let rest = chain(bs, b.prev_block_hash, (fuel - 1) as nat);
        lemma_chain_in_store(bs, b.prev_block_hash, (fuel - 1) as nat);
        let c = chain(bs, h, fuel);
        assert(c == seq![b] + rest);
        assert forall|i: int| 0 <= i < c.len() implies exists|j: int| 0 <= j < bs.len() && bs[j] == #[trigger] c[i] by {
            if i == 0 {
                let k = choose|k: int| 0 <= k < bs.len() && bs[k].hash == h;
                assert(bs[k] == c[0]);
            } else {
                assert(c[i] == rest[i - 1]);
            }
        }
    }
}

/// Chain linkage: where every stored block's previous block is stored one
/// height lower, so is the previous block of every block on the walk from
/// the tip.
pub proof fn lemma_walk_linked(v: LedgerView)
    requires
        hashes_unique(v.blocks),
        all_linked(v.blocks),
    ensures
        forall|i: int|
            0 <= i < walk(v).len() && (#[trigger] walk(v)[i]).prev_block_hash.len() > 0 ==> has_block(v.blocks, walk(v)[i].prev_block_hash)
                && block_at(v.blocks, walk(v)[i].prev_block_hash).height == walk(v)[i].height - 1,
{
    lemma_chain_in_store(v.blocks, v.tip, v.blocks.len());
    assert forall|i: int| 0 <= i < walk(v).len() && (#[trigger] walk(v)[i]).prev_block_hash.len() > 0 implies has_block(v.blocks, walk(v)[i].prev_block_hash)
        && block_at(v.blocks, walk(v)[i].prev_block_hash).height == walk(v)[i].height - 1 by {
        let j = choose|j: int| 0 <= j < v.blocks.len() && v.blocks[j] == walk(v)[i];
        assert(v.blocks[j].prev_block_hash.len() > 0);
    }
}

/// A ledger of one first block is linked.
pub proof fn lemma_first_block_linked(b: BlockView)
    requires
        b.prev_block_hash.len() == 0,
    ensures
        all_linked(seq![b]),
{
}

/// Mining keeps the store linked: the new block names the old tip, which is
/// stored one height lower, and every other link stays as it was.
pub proof fn lemma_mining_keeps_links(v: LedgerView, b: BlockView, txs: Seq<TxView>, timestamp: u128)
    requires
        hashes_unique(v.blocks),
        all_linked(v.blocks),
        has_block(v.blocks, v.tip) || v.tip.len() == 0,
        best_height(v) < i32::MAX,
        mined_from(b, txs, v.tip, (best_height(v) + 1) as i32, timestamp),
        !has_block(v.blocks, b.hash),
    ensures
        hashes_unique(put_block(v.blocks, b)),
        all_linked(put_block(v.blocks, b)),
{
    let w = put_block(v.blocks, b);
    assert(w == v.blocks.push(b));
    assert(hashes_unique(w)) by {
        assert forall|i: int, j: int| 0 <= i < w.len() && 0 <= j < w.len() && i != j implies w[i].hash != w[j].hash by {
            if i < v.blocks.len() && j < v.blocks.len() {
            } else if i == v.blocks.len() {
                assert(v.blocks[j].hash != b.hash);
            } else {
                assert(v.blocks[i].hash != b.hash);
            }
        }
    }
    assert forall|i: int| 0 <= i < w.len() && #[trigger] w[i].prev_block_hash.len() > 0 implies has_block(w, w[i].prev_block_hash)
        && block_at(w, w[i].prev_block_hash).height == w[i].height - 1 by {
        let p = w[i].prev_block_hash;
        let k = if i < v.blocks.len() {
            assert(w[i] == v.blocks[i]);
            assert(v.blocks[i].prev_block_hash.len() > 0);
            choose|k: int| 0 <= k < v.blocks.len() && v.blocks[k].hash == p
        } else {
            choose|k: int| 0 <= k < v.blocks.len() && v.blocks[k].hash == v.tip
        };
        assert(0 <= k < v.blocks.len() && v.blocks[k].hash == p);
        lemma_block_at_unique(v.blocks, k);
        lemma_block_at_unique(w, k);
        assert(w[k] == v.blocks[k]);
    }
}

/// Appending keeps the store linked where the new block is a first block or
/// names a stored block one height lower, as blocks fetched in order from an
/// honest peer do.
pub proof fn lemma_append_keeps_links(v: LedgerView, b: BlockView)
    requires
        hashes_unique(v.blocks),
        all_linked(v.blocks),
        b.prev_block_hash.len() > 0 ==> has_block(v.blocks, b.prev_block_hash)
            && block_at(v.blocks, b.prev_block_hash).height == b.height - 1,
    ensures
        hashes_unique(appended(v, b).blocks),
        all_linked(appended(v, b).blocks),
{
    if !has_block(v.blocks, b.hash) {
        let w = v.blocks.push(b);
        assert(appended(v, b).blocks == w);
        assert(hashes_unique(w)) by {
            assert forall|i: int, j: int| 0 <= i < w.len() && 0 <= j < w.len() && i != j implies w[i].hash != w[j].hash by {
                if i < v.blocks.len() && j < v.blocks.len() {
                } else if i == v.blocks.len() {
                    assert(v.blocks[j].hash != b.hash);
                } else {
                    assert(v.blocks[i].hash != b.hash);
                }
            }
        }
        assert forall|i: int| 0 <= i < w.len() && #[trigger] w[i].prev_block_hash.len() > 0 implies has_block(w, w[i].prev_block_hash)
            && block_at(w, w[i].prev_block_hash).height == w[i].height - 1 by {
            let p = w[i].prev_block_hash;
            if i < v.blocks.len() {
                assert(w[i] == v.blocks[i]);
            }
            let k = choose|k: int| 0 <= k < v.blocks.len() && v.blocks[k].hash == p;
            lemma_block_at_unique(v.blocks, k);
            lemma_block_at_unique(w, k);
            assert(w[k] == v.blocks[k]);
        }
    }
}

} // verus!
