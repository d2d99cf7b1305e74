//! The unspent-output index, derived from the ledger store.
use vstd::prelude::*;
use crate::blockchain::{Blockchain, walk, walk_txs, prev_txs_spec, prevs_on_chain};
use crate::error::LedgerError;
use crate::transaction::{Transaction, TxView, is_coinbase_view, tx_views, tx_id_of, signed_view, prevs_known};
use crate::block::{Block, BlockView};
use crate::tx::{InputView, OutputView, TXInput, TXOutput, TXOutputs, copy_bytes, copy_outputs, hash_pub_key, pub_key_hash_of, address_hash};

verus! {

/// An index entry: a transaction id, its outputs that are still unspent,
/// and the index of each of them among the transaction's outputs.
pub type EntryView = (Seq<char>, Seq<OutputView>, Seq<i32>);

/// An index entry as stored: transaction id, unspent outputs, their indices.
pub type UtxoEntry = (String, TXOutputs, Vec<i32>);

/// The outputs that the inputs of `t` spend, as (transaction id, index) pairs.
pub open spec fn input_pairs(t: TxView) -> Seq<(Seq<char>, i32)> {
    if is_coinbase_view(t) {
        Seq::empty()
    } else {
        t.vin.map_values(|i: crate::tx::InputView| (i.txid, i.vout))
    }
}

/// The outputs spent by the first `k` transactions of `txs`.
pub open spec fn spent_pairs(txs: Seq<TxView>, k: int) -> Seq<(Seq<char>, i32)>
    decreases k,
{
    if k <= 0 || k > txs.len() {
        Seq::empty()
    } else {
        spent_pairs(txs, k - 1) + input_pairs(txs[k - 1])
    }
}

/// Where the entry for `id` stands, looking from position `k` on.
pub open spec fn entry_pos_from(idx: Seq<EntryView>, id: Seq<char>, k: int) -> Option<int>
    decreases idx.len() - k,
{
    if k < 0 || k >= idx.len() {
        None
    } else if idx[k].0 == id {
        Some(k)
    } else {
        entry_pos_from(idx, id, k + 1)
    }
}

/// The index after recording output `o` of transaction `id`: appended to the
/// entry for `id`, or in a new entry at the end.
pub open spec fn insert_out(idx: Seq<EntryView>, id: Seq<char>, o: OutputView, n: i32) -> Seq<EntryView> {
    match entry_pos_from(idx, id, 0) {
        Some(i) => idx.update(i, (id, idx[i].1.push(o), idx[i].2.push(n))),
        None => idx.push((id, seq![o], seq![n])),
    }
}

/// The index after recording the first `j` outputs of `t` that `spent` does not hold.
pub open spec fn add_outs(idx: Seq<EntryView>, t: TxView, spent: Seq<(Seq<char>, i32)>, j: int) -> Seq<EntryView>
    decreases j,
{
    if j <= 0 || j > t.vout.len() {
        idx
    } else {
        let before = add_outs(idx, t, spent, j - 1);
        if spent.contains((t.id, (j - 1) as i32)) {
            before
        } else {
            insert_out(before, t.id, t.vout[j - 1], (j - 1) as i32)
        }
    }
}

/// The outputs spent by the inputs of the first `k` blocks of a walk from
/// the tip: every block at the same height as, or above, the `k`-th.
pub open spec fn spent_by_blocks(bs: Seq<BlockView>, k: int) -> Seq<(Seq<char>, i32)>
    decreases k,
{
    if k <= 0 || k > bs.len() {
        Seq::empty()
    } else {
        spent_by_blocks(bs, k - 1) + spent_pairs(bs[k - 1].transactions, bs[k - 1].transactions.len() as int)
    }
}

/// The index after recording the outputs of the first `m` of `txs` that
/// `spent` does not hold.
pub open spec fn block_outs(idx: Seq<EntryView>, txs: Seq<TxView>, spent: Seq<(Seq<char>, i32)>, m: int) -> Seq<EntryView>
    decreases m,
{
    if m <= 0 || m > txs.len() {
        idx
    } else {
        add_outs(block_outs(idx, txs, spent, m - 1), txs[m - 1], spent, txs[m - 1].vout.len() as int)
    }
}

/// The index over the first `k` blocks of a walk from the tip: each output
/// of their transactions that no input of a block at its height or above
/// spends, grouped by transaction id, in walk order.
pub open spec fn utxo_index(bs: Seq<BlockView>, k: int) -> Seq<EntryView>
    decreases k,
{
    if k <= 0 || k > bs.len() {
        Seq::empty()
    } else {
        block_outs(utxo_index(bs, k - 1), bs[k - 1].transactions, spent_by_blocks(bs, k), bs[k - 1].transactions.len() as int)
    }
}

/// The value of `o` where it is locked to `pkh`, else 0.
pub open spec fn value_for(o: OutputView, pkh: Seq<u8>) -> int {
    if o.pub_key_hash == pkh { o.value as int } else { 0 }
}

pub open spec fn outs_sum(s: Seq<OutputView>, pkh: Seq<u8>) -> int
    decreases s.len(),
{
    if s.len() == 0 {
        0
    } else {
        outs_sum(s.drop_last(), pkh) + value_for(s.last(), pkh)
    }
}

/// The total value locked to `pkh` in an index.
pub open spec fn index_sum(idx: Seq<EntryView>, pkh: Seq<u8>) -> int
    decreases idx.len(),
{
    if idx.len() == 0 {
        0
    } else {
        index_sum(idx.drop_last(), pkh) + outs_sum(idx.last().1, pkh)
    }
}

/// The number of outputs an index holds.
pub open spec fn index_count(idx: Seq<EntryView>) -> int
    decreases idx.len(),
{
    if idx.len() == 0 {
        0
    } else {
        index_count(idx.drop_last()) + idx.last().1.len()
    }
}

/// The value locked to `pkh` in the first `j` outputs of `t` that `spent` does not hold.
pub open spec fn tx_unspent_sum(t: TxView, spent: Seq<(Seq<char>, i32)>, pkh: Seq<u8>, j: int) -> int
    decreases j,
{
    if j <= 0 || j > t.vout.len() {
        0
    } else {
        tx_unspent_sum(t, spent, pkh, j - 1) + if spent.contains((t.id, (j - 1) as i32)) {
            0
        } else {
            value_for(t.vout[j - 1], pkh)
        }
    }
}

/// The value locked to `pkh` in the outputs of the first `m` of `txs` that
/// `spent` does not hold.
pub open spec fn block_unspent_sum(txs: Seq<TxView>, spent: Seq<(Seq<char>, i32)>, pkh: Seq<u8>, m: int) -> int
    decreases m,
{
    if m <= 0 || m > txs.len() {
        0
    } else {
        block_unspent_sum(txs, spent, pkh, m - 1) + tx_unspent_sum(txs[m - 1], spent, pkh, txs[m - 1].vout.len() as int)
    }
}

/// The value locked to `pkh` in the outputs of the first `k` blocks of a
/// walk from the tip that no input of a block at their height or above spends.
pub open spec fn unspent_sum(bs: Seq<BlockView>, k: int, pkh: Seq<u8>) -> int
    decreases k,
{
    if k <= 0 || k > bs.len() {
        0
    } else {
        unspent_sum(bs, k - 1, pkh) + block_unspent_sum(bs[k - 1].transactions, spent_by_blocks(bs, k), pkh, bs[k - 1].transactions.len() as int)
    }
}

pub open spec fn spent_view(v: Seq<(String, i32)>) -> Seq<(Seq<char>, i32)> {
    v.map_values(|p: (String, i32)| (p.0@, p.1))
}

pub open spec fn entries_view(v: Seq<UtxoEntry>) -> Seq<EntryView> {
    v.map_values(|e: UtxoEntry| (e.0@, e.1@, e.2@))
}

proof fn lemma_index_sum_update(idx: Seq<EntryView>, i: int, e: EntryView, pkh: Seq<u8>)
    requires
        0 <= i < idx.len(),
    ensures
        index_sum(idx.update(i, e), pkh) == index_sum(idx, pkh) - outs_sum(idx[i].1, pkh) + outs_sum(e.1, pkh),
    decreases idx.len(),
{
    let u = idx.update(i, e);
    if i == idx.len() - 1 {
        assert(u.drop_last() =~= idx.drop_last());
    } else {
        assert(u.drop_last() =~= idx.drop_last().update(i, e));
        lemma_index_sum_update(idx.drop_last(), i, e, pkh);
    }
}

proof fn lemma_index_sum_insert(idx: Seq<EntryView>, id: Seq<char>, o: OutputView, n: i32, pkh: Seq<u8>)
    ensures
        index_sum(insert_out(idx, id, o, n), pkh) == index_sum(idx, pkh) + value_for(o, pkh),
{
    match entry_pos_from(idx, id, 0) {
        Some(i) => {
            lemma_entry_pos_range(idx, id, 0);
            lemma_index_sum_update(idx, i, (id, idx[i].1.push(o), idx[i].2.push(n)), pkh);
            assert(idx[i].1.push(o).drop_last() =~= idx[i].1);
            assert(outs_sum(idx[i].1.push(o), pkh) == outs_sum(idx[i].1, pkh) + value_for(o, pkh));
        },
        None => {
            assert(idx.push((id, seq![o], seq![n])).drop_last() =~= idx);
            assert(seq![o].drop_last() =~= Seq::<OutputView>::empty());
            assert(outs_sum(Seq::<OutputView>::empty(), pkh) == 0);
            assert(outs_sum(seq![o], pkh) == value_for(o, pkh));
        },
    }
}

proof fn lemma_entry_pos_range(idx: Seq<EntryView>, id: Seq<char>, k: int)
    ensures
        entry_pos_from(idx, id, k) matches Some(i) ==> k <= i < idx.len() && idx[i].0 == id,
    decreases idx.len() - k,
{
    if 0 <= k < idx.len() && idx[k].0 != id {
        lemma_entry_pos_range(idx, id, k + 1);
    }
}

proof fn lemma_add_outs_sum(idx: Seq<EntryView>, t: TxView, spent: Seq<(Seq<char>, i32)>, j: int, pkh: Seq<u8>)
    ensures
        index_sum(add_outs(idx, t, spent, j), pkh) == index_sum(idx, pkh) + tx_unspent_sum(t, spent, pkh, j),
    decreases j,
{
    if 0 < j <= t.vout.len() {
        lemma_add_outs_sum(idx, t, spent, j - 1, pkh);
        if !spent.contains((t.id, (j - 1) as i32)) {
            lemma_index_sum_insert(add_outs(idx, t, spent, j - 1), t.id, t.vout[j - 1], (j - 1) as i32, pkh);
        }
    }
}

/// The rebuilt index holds exactly the unspent value: for every public-key
/// hash, the value its entries lock to it is the value of the outputs locked
/// to it that no later transaction on the chain spends.
pub proof fn lemma_index_sum_is_unspent_sum(bs: Seq<BlockView>, k: int, pkh: Seq<u8>)
    ensures
        index_sum(utxo_index(bs, k), pkh) == unspent_sum(bs, k, pkh),
    decreases k,
{
    if 0 < k <= bs.len() {
        lemma_index_sum_is_unspent_sum(bs, k - 1, pkh);
        lemma_block_outs_sum(utxo_index(bs, k - 1), bs[k - 1].transactions, spent_by_blocks(bs, k), bs[k - 1].transactions.len() as int, pkh);
    }
}

proof fn lemma_block_outs_sum(idx: Seq<EntryView>, txs: Seq<TxView>, spent: Seq<(Seq<char>, i32)>, m: int, pkh: Seq<u8>)
    ensures
        index_sum(block_outs(idx, txs, spent, m), pkh) == index_sum(idx, pkh) + block_unspent_sum(txs, spent, pkh, m),
    decreases m,
{
    if 0 < m <= txs.len() {
        lemma_block_outs_sum(idx, txs, spent, m - 1, pkh);
        lemma_add_outs_sum(block_outs(idx, txs, spent, m - 1), txs[m - 1], spent, txs[m - 1].vout.len() as int, pkh);
    }
}

/// Whether `spent` records output `idx` of transaction `id`.
fn is_spent(spent: &Vec<(String, i32)>, id: &String, idx: i32) -> (r: bool)
    ensures
        r == spent@.map_values(|p: (String, i32)| (p.0@, p.1)).contains((id@, idx)),
{
    let ghost sv = spent@.map_values(|p: (String, i32)| (p.0@, p.1));
    let mut k: usize = 0;
    while k < spent.len()
        invariant
            sv == spent@.map_values(|p: (String, i32)| (p.0@, p.1)),
            k <= spent@.len(),
            forall|i: int| 0 <= i < k ==> sv[i] != (id@, idx),
        decreases spent@.len() - k,
    {
        assert(sv[k as int] == (spent@[k as int].0@, spent@[k as int].1));
        if spent[k].1 == idx && spent[k].0 == *id {
            assert(sv[k as int] == (id@, idx));
            return true;
        }
        k += 1;
    }
    false
}

/// Records output `o` of transaction `id` in `utxos`.
fn insert_output(utxos: &mut Vec<UtxoEntry>, id: &String, o: TXOutput, n: i32)
    ensures
        entries_view(final(utxos)@) == insert_out(entries_view(old(utxos)@), id@, o@, n),
{
    let ghost ev = entries_view(utxos@);
    let mut k: usize = 0;
    while k < utxos.len()
        invariant
            ev == entries_view(utxos@),
            ev == entries_view(old(utxos)@),
            k <= utxos@.len(),
            entry_pos_from(ev, id@, 0) == entry_pos_from(ev, id@, k as int),
        decreases utxos@.len() - k,
    {
        assert(ev[k as int] == (utxos@[k as int].0@, utxos@[k as int].1@, utxos@[k as int].2@));
        if utxos[k].0 == *id {
            assert(entry_pos_from(ev, id@, k as int) == Some(k as int));
            let mut outs = copy_outputs(&utxos[k].1.outputs);
            let mut ixs = utxos[k].2.clone();
            assert(ixs@ =~= ev[k as int].2);
            let ghost before = outs@;
            outs.push(o);
            ixs.push(n);
            assert(outs@.map_values(|x: TXOutput| x@) =~= before.map_values(|x: TXOutput| x@).push(o@));
            utxos.set(k, (id.clone(), TXOutputs { outputs: outs }, ixs));
            assert(entries_view(utxos@) =~= ev.update(k as int, (id@, ev[k as int].1.push(o@), ev[k as int].2.push(n))));
            return;
        }
        k += 1;
    }
    let mut outs: Vec<TXOutput> = Vec::new();
    outs.push(o);
    assert(outs@.map_values(|x: TXOutput| x@) =~= seq![o@]);
    let mut ixs: Vec<i32> = Vec::new();
    ixs.push(n);
    assert(ixs@ =~= seq![n]);
    utxos.push((id.clone(), TXOutputs { outputs: outs }, ixs));
    assert(entries_view(utxos@) =~= ev.push((id@, seq![o@], seq![n])));
}

/// The outputs spent by inputs made by the owner of `addr` in the first `k`
/// transactions of `txs`.
pub open spec fn spent_by(txs: Seq<TxView>, k: int, addr: Seq<u8>) -> Seq<(Seq<char>, i32)>
    decreases k,
{
    if k <= 0 || k > txs.len() {
        Seq::empty()
    } else {
        spent_by(txs, k - 1, addr) + if is_coinbase_view(txs[k - 1]) {
            Seq::empty()
        } else {
            txs[k - 1].vin.filter(|i: InputView| pub_key_hash_of(i.pub_key) == addr).map_values(
                |i: InputView| (i.txid, i.vout),
            )
        }
    }
}

/// The first `j` outputs of `t`: `t` once for each that is locked to `addr`
/// and not in `spent`.
pub open spec fn unspent_hits(t: TxView, spent: Seq<(Seq<char>, i32)>, addr: Seq<u8>, j: int) -> Seq<TxView>
    decreases j,
{
    if j <= 0 || j > t.vout.len() {
        Seq::empty()
    } else {
        unspent_hits(t, spent, addr, j - 1) + if !spent.contains((t.id, (j - 1) as i32))
            && t.vout[j - 1].pub_key_hash == addr {
            seq![t]
        } else {
            Seq::empty()
        }
    }
}

/// Scanning the first `k` transactions of a walk: each transaction once for
/// every output locked to `addr` that no input of the owner's met before spends.
pub open spec fn unspent_for(txs: Seq<TxView>, k: int, addr: Seq<u8>) -> Seq<TxView>
    decreases k,
{
    if k <= 0 || k > txs.len() {
        Seq::empty()
    } else {
        unspent_for(txs, k - 1, addr) + unspent_hits(
            txs[k - 1],
            spent_by(txs, k - 1, addr),
            addr,
            txs[k - 1].vout.len() as int,
        )
    }
}

impl Blockchain {
    /// The transactions of the walk from the tip with outputs locked to
    /// `address` that no input made by its owner spends, once per such output.
    pub fn find_unspent_transactions(&self, address: &[u8]) -> (r: Vec<Transaction>)
        requires
            self.wf(),
        ensures
            tx_views(r@) == unspent_for(walk_txs(self@), walk_txs(self@).len() as int, address@),
    {
        let txs = self.walk_transactions();
        let ghost tv = tx_views(txs@);
        let mut found: Vec<Transaction> = Vec::new();
        let mut spent: Vec<(String, i32)> = Vec::new();
        let mut k: usize = 0;
        assert(tx_views(found@) =~= Seq::<TxView>::empty());
        assert(spent@.map_values(|p: (String, i32)| (p.0@, p.1)) =~= Seq::<(Seq<char>, i32)>::empty());
        while k < txs.len()
            invariant
                tv == tx_views(txs@),
                tv == walk_txs(self@),
                k <= txs@.len(),
                tx_views(found@) == unspent_for(tv, k as int, address@),
                spent@.map_values(|p: (String, i32)| (p.0@, p.1)) == spent_by(tv, k as int, address@),
            decreases txs@.len() - k,
        {
            let t = &txs[k];
            assert(tv[k as int] == t@);
            let ghost base = tx_views(found@);
            let mut j: usize = 0;
            while j < t.vout.len()
                invariant
                    tv == tx_views(txs@),
                    k < txs@.len(),
                    t == &txs@[k as int],
                    tv[k as int] == t@,
                    j <= t.vout@.len(),
                    tx_views(found@) == base + unspent_hits(t@, spent_by(tv, k as int, address@), address@, j as int),
                    spent@.map_values(|p: (String, i32)| (p.0@, p.1)) == spent_by(tv, k as int, address@),
                decreases t.vout@.len() - j,
            {
                assert(t@.vout[j as int] == t.vout@[j as int]@);
                let ghost before = tx_views(found@);
                if !is_spent(&spent, &t.id, j as i32) && t.vout[j].can_be_unlock_with(address) {
                    found.push(t.copy());
                    assert(tx_views(found@) =~= before + seq![t@]);
                } else {
                    assert(tx_views(found@) =~= before + Seq::<TxView>::empty());
                }
                j += 1;
            }
            let ghost sp = spent@.map_values(|p: (String, i32)| (p.0@, p.1));
            let ghost mine = t@.vin.filter(|i: InputView| pub_key_hash_of(i.pub_key) == address@).map_values(
                |i: InputView| (i.txid, i.vout),
            );
            if !t.is_coinbase() {
                let mut i: usize = 0;
                while i < t.vin.len()
                    invariant
                        t == &txs@[k as int],
                        i <= t.vin@.len(),
                        spent@.map_values(|p: (String, i32)| (p.0@, p.1)) == sp + t@.vin.subrange(0, i as int).filter(
                            |x: InputView| pub_key_hash_of(x.pub_key) == address@,
                        ).map_values(|x: InputView| (x.txid, x.vout)),
                    decreases t.vin@.len() - i,
                {
                    let ghost before = spent@;
                    let ghost pre = t@.vin.subrange(0, i as int);
                    assert(t@.vin.subrange(0, i + 1).drop_last() =~= pre);
                    assert(t@.vin[i as int] == t.vin@[i as int]@);
                    reveal(Seq::filter);
                    if t.vin[i].can_unlock_output_with(address) {
                        spent.push((t.vin[i].txid.clone(), t.vin[i].vout));
                        assert(spent@.map_values(|p: (String, i32)| (p.0@, p.1)) =~= before.map_values(|p: (String, i32)| (p.0@, p.1)).push((t.vin@[i as int].txid@, t.vin@[i as int].vout)));
                    }
                    i += 1;
                }
                assert(t@.vin.subrange(0, t@.vin.len() as int) =~= t@.vin);
            } else {
                assert(sp + Seq::<(Seq<char>, i32)>::empty() =~= sp);
            }
            k += 1;
        }
        found
    }

    /// The unspent outputs of the walk from the tip, grouped by transaction
    /// id: block by block, every input of the block counts as spent before
    /// its outputs are recorded.
    pub fn find_UTXO(&self) -> (r: Vec<UtxoEntry>)
        requires
            self.wf(),
        ensures
            entries_view(r@) == utxo_index(walk(self@), walk(self@).len() as int),
    {
        let blocks = self.walk_blocks();
        let ghost bs = blocks@.map_values(|b: Block| b@);
        let mut utxos: Vec<UtxoEntry> = Vec::new();
        let mut spent: Vec<(String, i32)> = Vec::new();
        let mut k: usize = 0;
        assert(entries_view(utxos@) =~= Seq::<EntryView>::empty());
        assert(spent_view(spent@) =~= Seq::<(Seq<char>, i32)>::empty());
        while k < blocks.len()
            invariant
                bs == blocks@.map_values(|b: Block| b@),
                bs == walk(self@),
                k <= blocks@.len(),
                entries_view(utxos@) == utxo_index(bs, k as int),
                spent_view(spent@) == spent_by_blocks(bs, k as int),
            decreases blocks@.len() - k,
        {
            let txs = &blocks[k].transactions;
            let ghost tv = tx_views(txs@);
            assert(tv == bs[k as int].transactions);
            let ghost sp0 = spent_view(spent@);
            let mut m: usize = 0;
            assert(sp0 + spent_pairs(tv, 0) =~= sp0);
            while m < txs.len()
                invariant
                    tv == tx_views(txs@),
                    m <= txs@.len(),
                    spent_view(spent@) == sp0 + spent_pairs(tv, m as int),
                decreases txs@.len() - m,
            {
                let t = &txs[m];
                assert(tv[m as int] == t@);
                let ghost before = spent_view(spent@);
                if !t.is_coinbase() {
                    let mut i: usize = 0;
                    while i < t.vin.len()
                        invariant
                            t == &txs@[m as int],
                            i <= t.vin@.len(),
                            spent_view(spent@) == before + t@.vin.map_values(|x: InputView| (x.txid, x.vout)).subrange(0, i as int),
                        decreases t.vin@.len() - i,
                    {
                        let ghost b0 = spent@;
                        spent.push((t.vin[i].txid.clone(), t.vin[i].vout));
                        assert(t@.vin[i as int] == t.vin@[i as int]@);
                        assert(spent_view(spent@) =~= spent_view(b0).push((t.vin@[i as int].txid@, t.vin@[i as int].vout)));
                        assert(t@.vin.map_values(|x: InputView| (x.txid, x.vout)).subrange(0, i + 1) =~= t@.vin.map_values(|x: InputView| (x.txid, x.vout)).subrange(0, i as int).push((t.vin@[i as int].txid@, t.vin@[i as int].vout)));
                        i += 1;
                    }
                    assert(t@.vin.map_values(|x: InputView| (x.txid, x.vout)).subrange(0, t@.vin.len() as int) =~= input_pairs(t@));
                } else {
                    assert(before + input_pairs(t@) =~= before);
                }
                assert(sp0 + spent_pairs(tv, m + 1) =~= sp0 + spent_pairs(tv, m as int) + input_pairs(tv[m as int]));
                m += 1;
            }
            let ghost base = entries_view(utxos@);
            let ghost sp = spent_view(spent@);
            assert(sp == spent_by_blocks(bs, k + 1));
            m = 0;
            while m < txs.len()
                invariant
                    tv == tx_views(txs@),
                    m <= txs@.len(),
                    spent_view(spent@) == sp,
                    entries_view(utxos@) == block_outs(base, tv, sp, m as int),
                decreases txs@.len() - m,
            {
                let t = &txs[m];
                assert(tv[m as int] == t@);
                let ghost b2 = entries_view(utxos@);
                let mut j: usize = 0;
                while j < t.vout.len()
                    invariant
                        t == &txs@[m as int],
                        tv[m as int] == t@,
                        j <= t.vout@.len(),
                        spent_view(spent@) == sp,
                        entries_view(utxos@) == add_outs(b2, t@, sp, j as int),
                    decreases t.vout@.len() - j,
                {
                    assert(t@.vout[j as int] == t.vout@[j as int]@);
                    if !is_spent(&spent, &t.id, j as i32) {
                        insert_output(&mut utxos, &t.id, t.vout[j].copy(), j as i32);
                    }
                    j += 1;
                }
                m += 1;
            }
            k += 1;
        }
        utxos
    }
}

/// The outputs of an index locked to `pkh`, entry after entry.
pub open spec fn matching_outs(idx: Seq<EntryView>, pkh: Seq<u8>) -> Seq<OutputView>
    decreases idx.len(),
{
    if idx.len() == 0 {
        Seq::empty()
    } else {
        matching_outs(idx.drop_last(), pkh) + idx.last().1.filter(|o: OutputView| o.pub_key_hash == pkh)
    }
}

/// Scanning the first `j` outputs of one entry, from `acc` on: each output
/// locked to `pkh` is taken while the running total is below `amount`.
pub open spec fn pick_outs(outs: Seq<OutputView>, ixs: Seq<i32>, pkh: Seq<u8>, amount: int, acc: int, j: int) -> (int, Seq<i32>)
    decreases j,
{
    if j <= 0 || j > outs.len() {
        (acc, Seq::empty())
    } else {
        let p = pick_outs(outs, ixs, pkh, amount, acc, j - 1);
        if outs[j - 1].pub_key_hash == pkh && p.0 < amount {
            (p.0 + outs[j - 1].value, p.1.push(ixs[j - 1]))
        } else {
            p
        }
    }
}

/// The running total and the outputs taken, by transaction id, after
/// scanning the first `i` entries of an index in order.
pub open spec fn pick(idx: Seq<EntryView>, pkh: Seq<u8>, amount: int, i: int) -> (int, Seq<(Seq<char>, Seq<i32>)>)
    decreases i,
{
    if i <= 0 || i > idx.len() {
        (0, Seq::empty())
    } else {
        let p = pick(idx, pkh, amount, i - 1);
        let q = pick_outs(idx[i - 1].1, idx[i - 1].2, pkh, amount, p.0, idx[i - 1].1.len() as int);
        (q.0, if q.1.len() > 0 { p.1.push((idx[i - 1].0, q.1)) } else { p.1 })
    }
}

/// The inputs that spend the outputs taken, each carrying `pub_key`.
pub open spec fn inputs_from(picks: Seq<(Seq<char>, Seq<i32>)>, pub_key: Seq<u8>) -> Seq<InputView>
    decreases picks.len(),
{
    if picks.len() == 0 {
        Seq::empty()
    } else {
        inputs_from(picks.drop_last(), pub_key) + picks.last().1.map_values(
            |ix: i32| InputView { txid: picks.last().0, vout: ix, signature: Seq::empty(), pub_key },
        )
    }
}

/// The payment before signing: the inputs taken, `amount` to `to_hash`, and
/// any change back to `from_hash`; its id computed.
pub open spec fn unsigned_payment(
    picks: Seq<(Seq<char>, Seq<i32>)>,
    pub_key: Seq<u8>,
    amount: i32,
    to_hash: Seq<u8>,
    change: int,
    from_hash: Seq<u8>,
) -> TxView {
    let body = TxView {
        id: Seq::empty(),
        vin: inputs_from(picks, pub_key),
        vout: if change > 0 {
            seq![OutputView { value: amount, pub_key_hash: to_hash }, OutputView { value: change as i32, pub_key_hash: from_hash }]
        } else {
            seq![OutputView { value: amount, pub_key_hash: to_hash }]
        },
    };
    TxView { id: tx_id_of(body), ..body }
}

pub open spec fn picks_view(v: Seq<(String, Vec<i32>)>) -> Seq<(Seq<char>, Seq<i32>)> {
    v.map_values(|e: (String, Vec<i32>)| (e.0@, e.1@))
}

proof fn lemma_count_prefix(idx: Seq<EntryView>, i: int)
    requires
        0 <= i <= idx.len(),
    ensures
        0 <= index_count(idx.subrange(0, i)) <= index_count(idx),
    decreases idx.len(),
{
    if idx.len() > 0 {
        if i < idx.len() {
            lemma_count_prefix(idx.drop_last(), i);
            assert(idx.drop_last().subrange(0, i) =~= idx.subrange(0, i));
        } else {
            assert(idx.subrange(0, i) =~= idx);
            lemma_count_prefix(idx.drop_last(), i - 1);
            assert(idx.drop_last().subrange(0, i - 1) =~= idx.drop_last());
        }
    } else {
        assert(idx.subrange(0, i) =~= idx);
    }
}

/// The index after input `inp` spends its output: the output leaves its
/// entry, and an entry left empty leaves the index. `None` where the index
/// has no entry for the transaction named.
pub open spec fn spend_in(idx: Seq<EntryView>, inp: InputView) -> Option<Seq<EntryView>> {
    match entry_pos_from(idx, inp.txid, 0) {
        None => None,
        Some(i) => {
            let (outs, ixs) = match ix_pos_from(idx[i].2, inp.vout, 0) {
                Some(p) => if p < idx[i].1.len() { (idx[i].1.remove(p), idx[i].2.remove(p)) } else { (idx[i].1, idx[i].2) },
                None => (idx[i].1, idx[i].2),
            };
            Some(if outs.len() == 0 { idx.remove(i) } else { idx.update(i, (inp.txid, outs, ixs)) })
        },
    }
}

/// Where output index `n` stands in `ixs`, looking from position `k` on.
pub open spec fn ix_pos_from(ixs: Seq<i32>, n: i32, k: int) -> Option<int>
    decreases ixs.len() - k,
{
    if k < 0 || k >= ixs.len() {
        None
    } else if ixs[k] == n {
        Some(k)
    } else {
        ix_pos_from(ixs, n, k + 1)
    }
}

/// The indices of the first `n` outputs of a transaction.
pub open spec fn all_indices(n: nat) -> Seq<i32> {
    Seq::new(n, |k: int| k as i32)
}

/// The index after the first `k` inputs of `vin` spend their outputs.
pub open spec fn spend_inputs(idx: Seq<EntryView>, vin: Seq<InputView>, k: int) -> Option<Seq<EntryView>>
    decreases k,
{
    if k <= 0 || k > vin.len() {
        Some(idx)
    } else {
        match spend_inputs(idx, vin, k - 1) {
            None => None,
            Some(i2) => spend_in(i2, vin[k - 1]),
        }
    }
}

/// The index with the entry for `id` holding `outs`.
pub open spec fn set_entry(idx: Seq<EntryView>, id: Seq<char>, outs: Seq<OutputView>) -> Seq<EntryView> {
    match entry_pos_from(idx, id, 0) {
        Some(i) => idx.update(i, (id, outs, all_indices(outs.len()))),
        None => idx.push((id, outs, all_indices(outs.len()))),
    }
}

/// The index after transaction `t`: its inputs spend (a coinbase spends
/// nothing), then all its outputs, where it has any, are recorded under its id.
pub open spec fn apply_tx(idx: Seq<EntryView>, t: TxView) -> Option<Seq<EntryView>> {
    let spent = if is_coinbase_view(t) { Some(idx) } else { spend_inputs(idx, t.vin, t.vin.len() as int) };
    match spent {
        None => None,
        Some(i2) => Some(if t.vout.len() == 0 { i2 } else { set_entry(i2, t.id, t.vout) }),
    }
}

/// The index after the first `k` transactions of `txs`, in order.
pub open spec fn apply_txs(idx: Seq<EntryView>, txs: Seq<TxView>, k: int) -> Option<Seq<EntryView>>
    decreases k,
{
    if k <= 0 || k > txs.len() {
        Some(idx)
    } else {
        match apply_txs(idx, txs, k - 1) {
            None => None,
            Some(i2) => apply_tx(i2, txs[k - 1]),
        }
    }
}

/// Where the entry for `id` stands in `utxos`.
fn entry_position(utxos: &Vec<UtxoEntry>, id: &String) -> (r: Option<usize>)
    ensures
        match r {
            Some(k) => entry_pos_from(entries_view(utxos@), id@, 0) == Some(k as int) && k < utxos@.len(),
            None => entry_pos_from(entries_view(utxos@), id@, 0) is None,
        },
{
    let ghost ev = entries_view(utxos@);
    let mut k: usize = 0;
    while k < utxos.len()
        invariant
            ev == entries_view(utxos@),
            k <= utxos@.len(),
            entry_pos_from(ev, id@, 0) == entry_pos_from(ev, id@, k as int),
        decreases utxos@.len() - k,
    {
        assert(ev[k as int] == (utxos@[k as int].0@, utxos@[k as int].1@, utxos@[k as int].2@));
        if utxos[k].0 == *id {
            return Some(k);
        }
        k += 1;
    }
    None
}

/// The index after input `inp` spends its output, or `None`.
fn spend_input(utxos: &mut Vec<UtxoEntry>, inp: &TXInput) -> (r: bool)
    ensures
        match spend_in(entries_view(old(utxos)@), inp@) {
            Some(n) => r && entries_view(final(utxos)@) == n,
            None => !r && final(utxos)@ == old(utxos)@,
        },
{
    let ghost ev = entries_view(utxos@);
    match entry_position(utxos, &inp.txid) {
        None => false,
        Some(i) => {
            let mut rest = copy_outputs(&utxos[i].1.outputs);
            let mut ixs = utxos[i].2.clone();
            assert(ixs@ =~= ev[i as int].2);
            let ghost outs = ev[i as int].1;
            assert(outs == rest@.map_values(|o: TXOutput| o@));
            let mut p: usize = 0;
            while p < ixs.len() && ixs[p] != inp.vout
                invariant
                    ixs@ == ev[i as int].2,
                    p <= ixs@.len(),
                    ix_pos_from(ixs@, inp.vout, 0) == ix_pos_from(ixs@, inp.vout, p as int),
                decreases ixs@.len() - p,
            {
                p += 1;
            }
            if p < ixs.len() && p < rest.len() {
                assert(ix_pos_from(ixs@, inp.vout, 0) == Some(p as int));
                rest.remove(p);
                ixs.remove(p);
                assert(rest@.map_values(|o: TXOutput| o@) =~= outs.remove(p as int));
            } else {
                assert(p < ixs@.len() ==> ix_pos_from(ixs@, inp.vout, 0) == Some(p as int));
            }
            if rest.len() == 0 {
                utxos.remove(i);
                assert(entries_view(utxos@) =~= ev.remove(i as int));
            } else {
                let ghost r = rest@.map_values(|o: TXOutput| o@);
                let ghost x = ixs@;
                utxos.set(i, (inp.txid.clone(), TXOutputs { outputs: rest }, ixs));
                assert(entries_view(utxos@) =~= ev.update(i as int, (inp@.txid, r, x)));
            }
            true
        },
    }
}

/// The indices 0 up to `n`.
fn indices_upto(n: usize) -> (r: Vec<i32>)
    ensures
        r@ == all_indices(n as nat),
{
    let mut r: Vec<i32> = Vec::new();
    let mut k: usize = 0;
    while k < n
        invariant
            k <= n,
            r@ =~= all_indices(k as nat),
        decreases n - k,
    {
        r.push(#[verifier::truncate] (k as i32));
        k += 1;
        assert(r@ =~= all_indices(k as nat));
    }
    r
}

/// A copy of an index.
fn copy_entries(v: &Vec<UtxoEntry>) -> (r: Vec<UtxoEntry>)
    ensures
        entries_view(r@) == entries_view(v@),
{
    let mut r: Vec<UtxoEntry> = Vec::new();
    let mut k: usize = 0;
    while k < v.len()
        invariant
            k <= v@.len(),
            r@.len() == k,
            forall|j: int| 0 <= j < k ==> (#[trigger] r@[j]).0@ == v@[j].0@ && r@[j].1@ == v@[j].1@ && r@[j].2@ == v@[j].2@,
        decreases v@.len() - k,
    {
        let ixs = v[k].2.clone();
        assert(ixs@ =~= v@[k as int].2@);
        r.push((v[k].0.clone(), v[k].1.copy(), ixs));
        k += 1;
    }
    assert(entries_view(r@) =~= entries_view(v@));
    r
}

/// Outputs still unspent on the walk from the tip of `blockchain`, indexed by
/// transaction id.
pub struct UTXOSet {
    pub blockchain: Blockchain,
    pub utxos: Vec<UtxoEntry>,
}

impl UTXOSet {
    pub open spec fn index(&self) -> Seq<EntryView> {
        entries_view(self.utxos@)
    }

    /// The index is exactly what rebuilding from the store gives.
    pub open spec fn fresh(&self) -> bool {
        self.index() == utxo_index(walk(self.blockchain@), walk(self.blockchain@).len() as int)
    }

    /// The index over `blockchain`, built from it.
    pub fn new(blockchain: Blockchain) -> (r: UTXOSet)
        requires
            blockchain.wf(),
        ensures
            r.blockchain@ == blockchain@,
            r.blockchain.wf(),
            r.fresh(),
            entries_wf(r.index()),
    {
        let utxos = blockchain.find_UTXO();
        proof { lemma_utxo_index_wf(walk(blockchain@), walk(blockchain@).len() as int); }
        UTXOSet { blockchain, utxos }
    }

    /// Rebuilds the whole index from the store.
    pub fn reindex(&mut self)
        requires
            old(self).blockchain.wf(),
        ensures
            final(self).blockchain@ == old(self).blockchain@,
            final(self).blockchain.wf(),
            final(self).fresh(),
            entries_wf(final(self).index()),
    {
        self.utxos = self.blockchain.find_UTXO();
        proof { lemma_utxo_index_wf(walk(self.blockchain@), walk(self.blockchain@).len() as int); }
    }

    /// Brings the index up to date with `block`, the new tip: each of its
    /// transactions in turn spends what its inputs name, then has all its
    /// outputs recorded. Fails, changing nothing, where an input names a
    /// transaction that has no entry.
    pub fn update(&mut self, block: &Block) -> (r: Result<(), LedgerError>)
        ensures
            final(self).blockchain == old(self).blockchain,
            match apply_txs(old(self).index(), block@.transactions, block@.transactions.len() as int) {
                Some(n) => r is Ok && final(self).index() == n,
                None => r == Err::<(), LedgerError>(LedgerError::NotFound) && final(self).index() == old(self).index(),
            },
            entries_wf(old(self).index()) ==> entries_wf(final(self).index()),
    {
        proof {
            if entries_wf(self.index()) {
                lemma_apply_txs_wf(self.index(), block@.transactions, block@.transactions.len() as int);
            }
        }
        let ghost txs = block@.transactions;
        let ghost start = self.index();
        let mut work = copy_entries(&self.utxos);
        let mut k: usize = 0;
        while k < block.transactions.len()
            invariant
                txs == block@.transactions,
                k <= txs.len(),
                start == self.index(),
                start == old(self).index(),
                *self == *old(self),
                apply_txs(start, txs, k as int) == Some(entries_view(work@)),
            decreases txs.len() - k,
        {
            let tx = &block.transactions[k];
            assert(txs[k as int] == tx@);
            let ghost before = entries_view(work@);
            if !tx.is_coinbase() {
                let mut i: usize = 0;
                while i < tx.vin.len()
                    invariant
                        i <= tx.vin@.len(),
                        spend_inputs(before, tx@.vin, i as int) == Some(entries_view(work@)),
                        txs == block@.transactions,
                        k < txs.len(),
                        txs[k as int] == tx@,
                        !is_coinbase_view(tx@),
                        start == self.index(),
                        start == old(self).index(),
                        *self == *old(self),
                        apply_txs(start, txs, k as int) == Some(before),
                    decreases tx.vin@.len() - i,
                {
                    assert(tx@.vin[i as int] == tx.vin@[i as int]@);
                    if !spend_input(&mut work, &tx.vin[i]) {
                        proof {
                            lemma_spend_none(before, tx@.vin, i as int + 1);
                            assert(apply_txs(start, txs, k + 1) is None);
                            lemma_apply_none(start, txs, k + 1);
                        }
                        return Err(LedgerError::NotFound);
                    }
                    i += 1;
                }
            }
            let outs = copy_outputs(&tx.vout);
            let ixs = indices_upto(tx.vout.len());
            let ghost ov = outs@.map_values(|o: TXOutput| o@);
            assert(ov.len() == tx.vout@.len());
            let ghost spent = entries_view(work@);
            if tx.vout.len() == 0 {
                k += 1;
                continue;
            }
            match entry_position(&work, &tx.id) {
                Some(p) => {
                    work.set(p, (tx.id.clone(), TXOutputs { outputs: outs }, ixs));
                    assert(entries_view(work@) =~= spent.update(p as int, (tx@.id, ov, all_indices(ov.len()))));
                },
                None => {
                    work.push((tx.id.clone(), TXOutputs { outputs: outs }, ixs));
                    assert(entries_view(work@) =~= spent.push((tx@.id, ov, all_indices(ov.len()))));
                },
            }
            k += 1;
        }
        self.utxos = work;
        Ok(())
    }

    /// The number of transactions with unspent outputs.
    pub fn count_transactions(&self) -> (r: usize)
        ensures
            r == self.index().len(),
    {
        self.utxos.len()
    }

    /// The unspent outputs locked to `pub_key_hash`, in index order.
    pub fn find_UTXO(&self, pub_key_hash: &[u8]) -> (r: TXOutputs)
        ensures
            r@ == matching_outs(self.index(), pub_key_hash@),
    {
        let ghost idx = self.index();
        let mut out: Vec<TXOutput> = Vec::new();
        let mut i: usize = 0;
        assert(out@.map_values(|o: TXOutput| o@) =~= matching_outs(idx.subrange(0, 0), pub_key_hash@));
        while i < self.utxos.len()
            invariant
                idx == self.index(),
                i <= idx.len(),
                out@.map_values(|o: TXOutput| o@) == matching_outs(idx.subrange(0, i as int), pub_key_hash@),
            decreases idx.len() - i,
        {
            let outs = &self.utxos[i].1.outputs;
            let ghost es = idx[i as int].1;
            assert(es == outs@.map_values(|o: TXOutput| o@));
            let ghost start = out@.map_values(|o: TXOutput| o@);
            let mut j: usize = 0;
            assert(es.subrange(0, 0).filter(|o: OutputView| o.pub_key_hash == pub_key_hash@) =~= Seq::<OutputView>::empty());
            while j < outs.len()
                invariant
                    es == outs@.map_values(|o: TXOutput| o@),
                    j <= outs@.len(),
                    out@.map_values(|o: TXOutput| o@) == start + es.subrange(0, j as int).filter(|o: OutputView| o.pub_key_hash == pub_key_hash@),
                decreases outs@.len() - j,
            {
                let ghost before = out@.map_values(|o: TXOutput| o@);
                assert(es.subrange(0, j + 1).drop_last() =~= es.subrange(0, j as int));
                reveal(Seq::filter);
                if outs[j].can_be_unlock_with(pub_key_hash) {
                    out.push(outs[j].copy());
                    assert(out@.map_values(|o: TXOutput| o@) =~= before.push(es[j as int]));
                }
                j += 1;
            }
            assert(es.subrange(0, outs@.len() as int) =~= es);
            assert(idx.subrange(0, i + 1).drop_last() =~= idx.subrange(0, i as int));
            i += 1;
        }
        assert(idx.subrange(0, idx.len() as int) =~= idx);
        TXOutputs { outputs: out }
    }

    /// The total value of the unspent outputs locked to `pub_key_hash`.
    pub fn balance(&self, pub_key_hash: &[u8]) -> (r: i128)
        requires
            index_count(self.index()) <= u64::MAX,
        ensures
            r == index_sum(self.index(), pub_key_hash@),
    {
        let ghost idx = self.index();
        let ghost pkh = pub_key_hash@;
        let mut acc: i128 = 0;
        let mut i: usize = 0;
        while i < self.utxos.len()
            invariant
                pkh == pub_key_hash@,
                idx == self.index(),
                index_count(idx) <= u64::MAX,
                i <= idx.len(),
                acc == index_sum(idx.subrange(0, i as int), pkh),
                -index_count(idx.subrange(0, i as int)) * 0x8000_0000 <= acc <= index_count(idx.subrange(0, i as int)) * 0x8000_0000,
            decreases idx.len() - i,
        {
            proof {
                lemma_count_prefix(idx, i + 1);
                assert(idx.subrange(0, i + 1).drop_last() =~= idx.subrange(0, i as int));
            }
            let outs = &self.utxos[i].1.outputs;
            let ghost es = idx[i as int].1;
            assert(es == outs@.map_values(|o: TXOutput| o@));
            let ghost base = acc as int;
            let ghost done = index_count(idx.subrange(0, i as int));
            let mut j: usize = 0;
            while j < outs.len()
                invariant
                    pkh == pub_key_hash@,
                    es == outs@.map_values(|o: TXOutput| o@),
                    j <= outs@.len(),
                    done + es.len() <= u64::MAX,
                    acc == base + outs_sum(es.subrange(0, j as int), pkh),
                    -(done + j) * 0x8000_0000 <= acc <= (done + j) * 0x8000_0000,
                decreases outs@.len() - j,
            {
                assert(es.subrange(0, j + 1).drop_last() =~= es.subrange(0, j as int));
                assert(es.subrange(0, j + 1).last() == es[j as int]);
                assert(es[j as int] == outs@[j as int]@);
                if outs[j].can_be_unlock_with(pub_key_hash) {
                    acc = acc + outs[j].value as i128;
                }
                j += 1;
            }
            assert(es.subrange(0, outs@.len() as int) =~= es);
            i += 1;
        }
        assert(idx.subrange(0, idx.len() as int) =~= idx);
        acc
    }

    /// Takes unspent outputs locked to `pub_key_hash`, in index order, while
    /// their running total is below `amount`; gives the total and the
    /// outputs taken, by transaction id.
    pub fn find_spendable_outputs(&self, pub_key_hash: &[u8], amount: i32) -> (r: (i128, Vec<(String, Vec<i32>)>))
        requires
            index_count(self.index()) <= u64::MAX,
            entries_wf(self.index()),
        ensures
            r.0 == pick(self.index(), pub_key_hash@, amount as int, self.index().len() as int).0,
            picks_view(r.1@) == pick(self.index(), pub_key_hash@, amount as int, self.index().len() as int).1,
            r.0 <= 0 || r.0 <= amount + i32::MAX,
    {
        let ghost idx = self.index();
        let ghost pkh = pub_key_hash@;
        let mut acc: i128 = 0;
        let mut taken: Vec<(String, Vec<i32>)> = Vec::new();
        let mut i: usize = 0;
        assert(picks_view(taken@) =~= Seq::<(Seq<char>, Seq<i32>)>::empty());
        while i < self.utxos.len()
            invariant
                pkh == pub_key_hash@,
                idx == self.index(),
                entries_wf(idx),
                index_count(idx) <= u64::MAX,
                i <= idx.len(),
                acc == pick(idx, pkh, amount as int, i as int).0,
                picks_view(taken@) == pick(idx, pkh, amount as int, i as int).1,
                acc <= 0 || acc <= amount + i32::MAX,
                acc >= -index_count(idx.subrange(0, i as int)) * 0x8000_0000,
            decreases idx.len() - i,
        {
            proof {
                lemma_count_prefix(idx, i + 1);
                assert(idx.subrange(0, i + 1).drop_last() =~= idx.subrange(0, i as int));
            }
            let outs = &self.utxos[i].1.outputs;
            let ixs = &self.utxos[i].2;
            let ghost es = idx[i as int].1;
            let ghost xs = idx[i as int].2;
            assert(es == outs@.map_values(|o: TXOutput| o@));
            assert(xs == ixs@);
            let ghost base = acc as int;
            let ghost done = index_count(idx.subrange(0, i as int));
            let mut picked: Vec<i32> = Vec::new();
            let mut j: usize = 0;
            while j < outs.len()
                invariant
                    pkh == pub_key_hash@,
                    es == outs@.map_values(|o: TXOutput| o@),
                    j <= outs@.len(),
                    done + es.len() <= u64::MAX,
                    xs == ixs@,
                    xs.len() == es.len(),
                    acc == pick_outs(es, xs, pkh, amount as int, base, j as int).0,
                    picked@ == pick_outs(es, xs, pkh, amount as int, base, j as int).1,
                    acc <= 0 || acc <= amount + i32::MAX,
                    acc >= -(done + j) * 0x8000_0000,
                decreases outs@.len() - j,
            {
                assert(es[j as int] == outs@[j as int]@);
                if outs[j].can_be_unlock_with(pub_key_hash) && acc < amount as i128 {
                    acc = acc + outs[j].value as i128;
                    picked.push(ixs[j]);
                }
                j += 1;
            }
            if picked.len() > 0 {
                let ghost before = taken@;
                taken.push((self.utxos[i].0.clone(), picked));
                assert(picks_view(taken@) =~= picks_view(before).push((idx[i as int].0, pick_outs(es, xs, pkh, amount as int, base, es.len() as int).1)));
            }
            i += 1;
        }
        (acc, taken)
    }
}

impl Transaction {
    /// A payment of `amount` from the owner of `public_key` (whose address is
    /// `from`) to `to`: spends outputs taken in index order until they cover
    /// the amount, pays any change back to `from`, computes the id, and signs
    /// every input with `secret_key`. Fails with `InsufficientFunds` where
    /// the sender's unspent outputs add up to less than `amount`.
    #[allow(non_snake_case)]
    pub fn new_UTXO(
        from: &str,
        to: &str,
        amount: i32,
        public_key: &Vec<u8>,
        secret_key: &Vec<u8>,
        utxo: &UTXOSet,
    ) -> (r: Result<Transaction, LedgerError>)
        requires
            amount > i32::MIN,
            secret_key@.len() >= 64,
            utxo.blockchain.wf(),
            index_count(utxo.index()) <= u64::MAX,
            entries_wf(utxo.index()),
        ensures
            r matches Ok(t) ==> t.id@.len() == 64,
            ({
                let p = pick(utxo.index(), pub_key_hash_of(public_key@), amount as int, utxo.index().len() as int);
                let change = p.0 - amount;
                let unsigned = unsigned_payment(
                    p.1,
                    public_key@,
                    amount,
                    address_hash(to@).unwrap(),
                    change,
                    address_hash(from@).unwrap(),
                );
                &&& p.0 < amount ==> r == Err::<Transaction, LedgerError>(LedgerError::InsufficientFunds)
                &&& p.0 >= amount && address_hash(to@) is None ==> r == Err::<Transaction, LedgerError>(LedgerError::InvalidAddress)
                &&& p.0 > amount && address_hash(to@) is Some && address_hash(from@) is None
                    ==> r == Err::<Transaction, LedgerError>(LedgerError::InvalidAddress)
                &&& p.0 >= amount && address_hash(to@) is Some && (change == 0 || address_hash(from@) is Some) ==> {
                    &&& is_coinbase_view(unsigned) ==> (r matches Ok(t) && t@ == unsigned)
                    &&& !is_coinbase_view(unsigned) ==> match r {
                        Ok(t) => prevs_on_chain(utxo.blockchain@, unsigned)
                            && prevs_known(unsigned, prev_txs_spec(utxo.blockchain@, unsigned))
                            && t@ == signed_view(unsigned, prev_txs_spec(utxo.blockchain@, unsigned), secret_key@),
                        Err(e) => e == LedgerError::MissingPreviousTransaction
                            && !(prevs_on_chain(utxo.blockchain@, unsigned)
                            && prevs_known(unsigned, prev_txs_spec(utxo.blockchain@, unsigned))),
                    }
                }
            }),
    {
        let pkh = hash_pub_key(public_key.as_slice());
        let (acc, taken) = utxo.find_spendable_outputs(pkh.as_slice(), amount);
        if acc < amount as i128 {
            return Err(LedgerError::InsufficientFunds);
        }
        let ghost tv = picks_view(taken@);
        let mut vin: Vec<TXInput> = Vec::new();
        let mut i: usize = 0;
        assert(vin@.map_values(|x: TXInput| x@) =~= inputs_from(tv.subrange(0, 0), public_key@));
        while i < taken.len()
            invariant
                tv == picks_view(taken@),
                i <= taken@.len(),
                vin@.map_values(|x: TXInput| x@) == inputs_from(tv.subrange(0, i as int), public_key@),
            decreases taken@.len() - i,
        {
            let ghost start = vin@.map_values(|x: TXInput| x@);
            let idxs = &taken[i].1;
            let ghost added = idxs@.map_values(
                |ix: i32| InputView { txid: taken@[i as int].0@, vout: ix, signature: Seq::empty(), pub_key: public_key@ },
            );
            let mut j: usize = 0;
            while j < idxs.len()
                invariant
                    j <= idxs@.len(),
                    added.len() == idxs@.len(),
                    added == idxs@.map_values(
                        |ix: i32| InputView { txid: taken@[i as int].0@, vout: ix, signature: Seq::empty(), pub_key: public_key@ },
                    ),
                    idxs == &taken@[i as int].1,
                    i < taken@.len(),
                    vin@.map_values(|x: TXInput| x@) == start + added.subrange(0, j as int),
                decreases idxs@.len() - j,
            {
                let ghost before = vin@.map_values(|x: TXInput| x@);
                let input = TXInput {
                    txid: taken[i].0.clone(),
                    vout: idxs[j],
                    signature: Vec::new(),
                    pub_key: copy_bytes(public_key),
                };
                vin.push(input);
                assert(vin@.map_values(|x: TXInput| x@) =~= before.push(added[j as int]));
                assert(added.subrange(0, j + 1) =~= added.subrange(0, j as int).push(added[j as int]));
                j += 1;
            }
            assert(tv.subrange(0, i + 1).drop_last() =~= tv.subrange(0, i as int));
            assert(added.subrange(0, idxs@.len() as int) =~= added);
            i += 1;
        }
        assert(tv.subrange(0, taken@.len() as int) =~= tv);
        let first = match TXOutput::new(amount, to.to_owned()) {
            Ok(o) => o,
            Err(e) => return Err(e),
        };
        let mut vout: Vec<TXOutput> = Vec::new();
        let ghost o1 = first@;
        vout.push(first);
        if acc > amount as i128 {
            let change = match TXOutput::new((acc - amount as i128) as i32, from.to_owned()) {
                Ok(o) => o,
                Err(e) => return Err(e),
            };
            let ghost o2 = change@;
            vout.push(change);
            assert(vout@.map_values(|x: TXOutput| x@) =~= seq![o1, o2]);
        } else {
            assert(vout@.map_values(|x: TXOutput| x@) =~= seq![o1]);
        }
        let mut tx = Transaction { id: String::new(), vin, vout };
        tx.id = tx.hash();
        match utxo.blockchain.sign_transaction(&mut tx, secret_key.as_slice()) {
            Ok(()) => Ok(tx),
            Err(e) => Err(e),
        }
    }
}

/// UTXO correctness: after a rebuild, the value the index locks to any
/// public-key hash (what `balance` gives) is the value of the outputs locked
/// to it on the chain that no later transaction's input spends.
pub proof fn lemma_rebuilt_balance(u: &UTXOSet, pkh: Seq<u8>)
    requires
        u.fresh(),
    ensures
        index_sum(u.index(), pkh) == unspent_sum(walk(u.blockchain@), walk(u.blockchain@).len() as int, pkh),
{
    lemma_index_sum_is_unspent_sum(walk(u.blockchain@), walk(u.blockchain@).len() as int, pkh);
}

/// No output of the index locked to `pkh` has a negative value.
pub open spec fn values_nonneg(idx: Seq<EntryView>, pkh: Seq<u8>) -> bool {
    forall|i: int, j: int|
        0 <= i < idx.len() && 0 <= j < idx[i].1.len() && (#[trigger] idx[i].1[j]).pub_key_hash == pkh ==> idx[i].1[j].value >= 0
}

proof fn lemma_pick_outs_tracks_sum(outs: Seq<OutputView>, ixs: Seq<i32>, pkh: Seq<u8>, amount: int, acc: int, base: int, j: int)
    requires
        0 <= j <= outs.len(),
        forall|k: int| 0 <= k < outs.len() && (#[trigger] outs[k]).pub_key_hash == pkh ==> outs[k].value >= 0,
        acc < amount ==> acc == base,
        acc >= amount ==> base >= amount,
    ensures
        ({
            let a = pick_outs(outs, ixs, pkh, amount, acc, j).0;
            let total = base + outs_sum(outs.subrange(0, j), pkh);
            &&& a < amount ==> a == total
            &&& a >= amount ==> total >= amount
        }),
    decreases j,
{
    if j == 0 {
        assert(outs.subrange(0, 0) =~= Seq::<OutputView>::empty());
    } else {
        lemma_pick_outs_tracks_sum(outs, ixs, pkh, amount, acc, base, j - 1);
        assert(outs.subrange(0, j).drop_last() =~= outs.subrange(0, j - 1));
        assert(outs.subrange(0, j).last() == outs[j - 1]);
    }
}

proof fn lemma_pick_tracks_sum(idx: Seq<EntryView>, pkh: Seq<u8>, amount: int, i: int)
    requires
        0 <= i <= idx.len(),
        values_nonneg(idx, pkh),
    ensures
        ({
            let a = pick(idx, pkh, amount, i).0;
            let total = index_sum(idx.subrange(0, i), pkh);
            &&& a < amount ==> a == total
            &&& a >= amount ==> total >= amount
        }),
    decreases i,
{
    if i == 0 {
        assert(idx.subrange(0, 0) =~= Seq::<EntryView>::empty());
    } else {
        lemma_pick_tracks_sum(idx, pkh, amount, i - 1);
        let outs = idx[i - 1].1;
        assert forall|k: int| 0 <= k < outs.len() && (#[trigger] outs[k]).pub_key_hash == pkh implies outs[k].value >= 0 by {
            assert(idx[i - 1].1[k] == outs[k]);
        }
        lemma_pick_outs_tracks_sum(
            outs,
            idx[i - 1].2,
            pkh,
            amount,
            pick(idx, pkh, amount, i - 1).0,
            index_sum(idx.subrange(0, i - 1), pkh),
            outs.len() as int,
        );
        assert(outs.subrange(0, outs.len() as int) =~= outs);
        assert(idx.subrange(0, i).drop_last() =~= idx.subrange(0, i - 1));
        assert(idx.subrange(0, i).last() == idx[i - 1]);
    }
}

/// A payment is refused for want of funds exactly when the value locked to
/// the payer falls short of the amount, where none of the payer's outputs
/// carries a negative value: the outputs taken then add up to less than the
/// amount only when they are all of them.
pub proof fn lemma_refused_iff_short(idx: Seq<EntryView>, pkh: Seq<u8>, amount: int)
    requires
        values_nonneg(idx, pkh),
    ensures
        (pick(idx, pkh, amount, idx.len() as int).0 < amount) <==> (index_sum(idx, pkh) < amount),
        pick(idx, pkh, amount, idx.len() as int).0 < amount ==> pick(idx, pkh, amount, idx.len() as int).0 == index_sum(idx, pkh),
{
    lemma_pick_tracks_sum(idx, pkh, amount, idx.len() as int);
    assert(idx.subrange(0, idx.len() as int) =~= idx);
}

/// Every entry holds one output index for each unspent output.
pub open spec fn entries_wf(idx: Seq<EntryView>) -> bool {
    forall|i: int| 0 <= i < idx.len() ==> (#[trigger] idx[i]).1.len() == idx[i].2.len()
}

proof fn lemma_insert_wf(idx: Seq<EntryView>, id: Seq<char>, o: OutputView, n: i32)
    requires
        entries_wf(idx),
    ensures
        entries_wf(insert_out(idx, id, o, n)),
{
    lemma_entry_pos_range(idx, id, 0);
    let r = insert_out(idx, id, o, n);
    assert forall|i: int| 0 <= i < r.len() implies (#[trigger] r[i]).1.len() == r[i].2.len() by {
        if i < idx.len() {
            assert(idx[i].1.len() == idx[i].2.len());
        }
    }
}

proof fn lemma_add_outs_wf(idx: Seq<EntryView>, t: TxView, spent: Seq<(Seq<char>, i32)>, j: int)
    requires
        entries_wf(idx),
    ensures
        entries_wf(add_outs(idx, t, spent, j)),
    decreases j,
{
    if 0 < j <= t.vout.len() {
        lemma_add_outs_wf(idx, t, spent, j - 1);
        lemma_insert_wf(add_outs(idx, t, spent, j - 1), t.id, t.vout[j - 1], (j - 1) as i32);
    }
}

/// A rebuilt index holds one output index for each unspent output.
pub proof fn lemma_utxo_index_wf(bs: Seq<BlockView>, k: int)
    ensures
        entries_wf(utxo_index(bs, k)),
    decreases k,
{
    if 0 < k <= bs.len() {
        lemma_utxo_index_wf(bs, k - 1);
        lemma_block_outs_wf(utxo_index(bs, k - 1), bs[k - 1].transactions, spent_by_blocks(bs, k), bs[k - 1].transactions.len() as int);
    }
}

proof fn lemma_block_outs_wf(idx: Seq<EntryView>, txs: Seq<TxView>, spent: Seq<(Seq<char>, i32)>, m: int)
    requires
        entries_wf(idx),
    ensures
        entries_wf(block_outs(idx, txs, spent, m)),
    decreases m,
{
    if 0 < m <= txs.len() {
        lemma_block_outs_wf(idx, txs, spent, m - 1);
        lemma_add_outs_wf(block_outs(idx, txs, spent, m - 1), txs[m - 1], spent, txs[m - 1].vout.len() as int);
    }
}

proof fn lemma_ix_pos_range(ixs: Seq<i32>, n: i32, k: int)
    ensures
        ix_pos_from(ixs, n, k) matches Some(p) ==> k <= p < ixs.len() && ixs[p] == n,
    decreases ixs.len() - k,
{
    if 0 <= k < ixs.len() && ixs[k] != n {
        lemma_ix_pos_range(ixs, n, k + 1);
    }
}

proof fn lemma_spend_in_wf(idx: Seq<EntryView>, inp: InputView)
    requires
        entries_wf(idx),
    ensures
        spend_in(idx, inp) matches Some(r) ==> entries_wf(r),
{
    lemma_entry_pos_range(idx, inp.txid, 0);
    if let Some(i) = entry_pos_from(idx, inp.txid, 0) {
        lemma_ix_pos_range(idx[i].2, inp.vout, 0);
        assert(idx[i].1.len() == idx[i].2.len());
        let r = spend_in(idx, inp).unwrap();
        assert forall|k: int| 0 <= k < r.len() implies (#[trigger] r[k]).1.len() == r[k].2.len() by {
            if k < i {
                assert(r[k] == idx[k]);
            } else if k > i {
                assert(idx[k].1.len() == idx[k].2.len());
                assert(idx[k - 1].1.len() == idx[k - 1].2.len());
            }
        }
    }
}

proof fn lemma_spend_inputs_wf(idx: Seq<EntryView>, vin: Seq<InputView>, k: int)
    requires
        entries_wf(idx),
    ensures
        spend_inputs(idx, vin, k) matches Some(r) ==> entries_wf(r),
    decreases k,
{
    if 0 < k <= vin.len() {
        lemma_spend_inputs_wf(idx, vin, k - 1);
        if let Some(i2) = spend_inputs(idx, vin, k - 1) {
            lemma_spend_in_wf(i2, vin[k - 1]);
        }
    }
}

/// Updating keeps one output index for each unspent output.
pub proof fn lemma_apply_txs_wf(idx: Seq<EntryView>, txs: Seq<TxView>, k: int)
    requires
        entries_wf(idx),
    ensures
        apply_txs(idx, txs, k) matches Some(r) ==> entries_wf(r),
    decreases k,
{
    if 0 < k <= txs.len() {
        lemma_apply_txs_wf(idx, txs, k - 1);
        if let Some(i2) = apply_txs(idx, txs, k - 1) {
            let t = txs[k - 1];
            if !is_coinbase_view(t) {
                lemma_spend_inputs_wf(i2, t.vin, t.vin.len() as int);
            }
            let sp = if is_coinbase_view(t) { Some(i2) } else { spend_inputs(i2, t.vin, t.vin.len() as int) };
            if let Some(i3) = sp {
                lemma_entry_pos_range(i3, t.id, 0);
                if t.vout.len() == 0 {
                    assert(apply_txs(idx, txs, k) == Some(i3));
                }
                let r = set_entry(i3, t.id, t.vout);
                assert forall|j: int| 0 <= j < r.len() implies (#[trigger] r[j]).1.len() == r[j].2.len() by {
                    if j < i3.len() {
                        assert(i3[j].1.len() == i3[j].2.len());
                    }
                }
            }
        }
    }
}

/// The total value of a list of outputs.
pub open spec fn outs_value(s: Seq<OutputView>) -> int
    decreases s.len(),
{
    if s.len() == 0 {
        0
    } else {
        outs_value(s.drop_last()) + s.last().value
    }
}

proof fn lemma_outs_value_concat(a: Seq<OutputView>, b: Seq<OutputView>)
    ensures
        outs_value(a + b) == outs_value(a) + outs_value(b),
    decreases b.len(),
{
    if b.len() == 0 {
        assert(a + b =~= a);
    } else {
        lemma_outs_value_concat(a, b.drop_last());
        assert((a + b).drop_last() =~= a + b.drop_last());
    }
}

proof fn lemma_filter_value(s: Seq<OutputView>, pkh: Seq<u8>)
    ensures
        outs_value(s.filter(|o: OutputView| o.pub_key_hash == pkh)) == outs_sum(s, pkh),
    decreases s.len(),
{
    reveal(Seq::filter);
    if s.len() > 0 {
        lemma_filter_value(s.drop_last(), pkh);
        let f = s.drop_last().filter(|o: OutputView| o.pub_key_hash == pkh);
        if s.last().pub_key_hash == pkh {
            assert(f.push(s.last()).drop_last() =~= f);
        }
    }
}

/// UTXO correctness for the outputs handed out: the values of the unspent
/// outputs `find_UTXO` gives for a public-key hash add up to the value the
/// index locks to it, which after a rebuild is the unspent value on the chain.
pub proof fn lemma_matching_value(idx: Seq<EntryView>, pkh: Seq<u8>)
    ensures
        outs_value(matching_outs(idx, pkh)) == index_sum(idx, pkh),
    decreases idx.len(),
{
    if idx.len() > 0 {
        lemma_matching_value(idx.drop_last(), pkh);
        lemma_outs_value_concat(
            matching_outs(idx.drop_last(), pkh),
            idx.last().1.filter(|o: OutputView| o.pub_key_hash == pkh),
        );
        lemma_filter_value(idx.last().1, pkh);
    }
}

/// Output `j` of transaction `m` in block `k` of the walk `bs` is spent by
/// no input of a block at that block's height or above.
pub open spec fn unspent_at(bs: Seq<BlockView>, k: int, m: int, j: int) -> bool {
    &&& 0 <= k < bs.len()
    &&& 0 <= m < bs[k].transactions.len()
    &&& 0 <= j < bs[k].transactions[m].vout.len()
    &&& !spent_by_blocks(bs, k + 1).contains((bs[k].transactions[m].id, j as i32))
}

/// Output `p` of entry `e` is an unspent output of the walk `bs`, under its
/// transaction's id and with its own index.
pub open spec fn entry_output_unspent(bs: Seq<BlockView>, e: EntryView, p: int) -> bool {
    exists|k: int, m: int, j: int| {
        &&& #[trigger] unspent_at(bs, k, m, j)
        &&& bs[k].transactions[m].id == e.0
        &&& e.2[p] == j as i32
        &&& e.1[p] == bs[k].transactions[m].vout[j]
    }
}

/// Every output the index holds is an unspent output of the walk `bs`.
pub open spec fn index_sound(idx: Seq<EntryView>, bs: Seq<BlockView>) -> bool {
    forall|i: int, p: int|
        0 <= i < idx.len() && 0 <= p < idx[i].1.len() ==> #[trigger] entry_output_unspent(bs, idx[i], p)
}

proof fn lemma_insert_sound(idx: Seq<EntryView>, bs: Seq<BlockView>, k: int, m: int, j: int)
    requires
        entries_wf(idx),
        index_sound(idx, bs),
        unspent_at(bs, k, m, j),
    ensures
        index_sound(
            insert_out(idx, bs[k].transactions[m].id, bs[k].transactions[m].vout[j], j as i32),
            bs,
        ),
{
    let t = bs[k].transactions[m];
    let r = insert_out(idx, t.id, t.vout[j], j as i32);
    lemma_entry_pos_range(idx, t.id, 0);
    assert forall|i: int, p: int| 0 <= i < r.len() && 0 <= p < r[i].1.len() implies #[trigger] entry_output_unspent(bs, r[i], p) by {
        match entry_pos_from(idx, t.id, 0) {
            Some(q) => {
                if i == q && p == idx[q].1.len() {
                    assert(idx[q].1.len() == idx[q].2.len());
                    assert(unspent_at(bs, k, m, j));
                } else if i == q {
                    assert(idx[q].1.len() == idx[q].2.len());
                    assert(r[i].1[p] == idx[i].1[p] && r[i].2[p] == idx[i].2[p]);
                    assert(entry_output_unspent(bs, idx[i], p));
                    let (k2, m2, j2) = choose|k2: int, m2: int, j2: int| {
                        &&& #[trigger] unspent_at(bs, k2, m2, j2)
                        &&& bs[k2].transactions[m2].id == idx[i].0
                        &&& idx[i].2[p] == j2 as i32
                        &&& idx[i].1[p] == bs[k2].transactions[m2].vout[j2]
                    };
                    assert(unspent_at(bs, k2, m2, j2));
                } else {
                    assert(r[i] == idx[i]);
                }
            },
            None => {
                if i == idx.len() {
                    assert(unspent_at(bs, k, m, j));
                } else {
                    assert(r[i] == idx[i]);
                }
            },
        }
    }
}

proof fn lemma_add_outs_sound(idx: Seq<EntryView>, bs: Seq<BlockView>, k: int, m: int, n: int)
    requires
        0 <= k < bs.len(),
        0 <= m < bs[k].transactions.len(),
        n <= bs[k].transactions[m].vout.len(),
        entries_wf(idx),
        index_sound(idx, bs),
    ensures
        index_sound(add_outs(idx, bs[k].transactions[m], spent_by_blocks(bs, k + 1), n), bs),
        entries_wf(add_outs(idx, bs[k].transactions[m], spent_by_blocks(bs, k + 1), n)),
    decreases n,
{
    let t = bs[k].transactions[m];
    let sp = spent_by_blocks(bs, k + 1);
    lemma_add_outs_wf(idx, t, sp, n);
    if 0 < n {
        lemma_add_outs_sound(idx, bs, k, m, n - 1);
        lemma_add_outs_wf(idx, t, sp, n - 1);
        if !sp.contains((t.id, (n - 1) as i32)) {
            lemma_insert_sound(add_outs(idx, t, sp, n - 1), bs, k, m, n - 1);
        }
    }
}

proof fn lemma_block_outs_sound(idx: Seq<EntryView>, bs: Seq<BlockView>, k: int, n: int)
    requires
        0 <= k < bs.len(),
        n <= bs[k].transactions.len(),
        entries_wf(idx),
        index_sound(idx, bs),
    ensures
        index_sound(block_outs(idx, bs[k].transactions, spent_by_blocks(bs, k + 1), n), bs),
        entries_wf(block_outs(idx, bs[k].transactions, spent_by_blocks(bs, k + 1), n)),
    decreases n,
{
    if 0 < n {
        lemma_block_outs_sound(idx, bs, k, n - 1);
        lemma_add_outs_sound(
            block_outs(idx, bs[k].transactions, spent_by_blocks(bs, k + 1), n - 1),
            bs,
            k,
            n - 1,
            bs[k].transactions[n - 1].vout.len() as int,
        );
    }
}

/// The rebuilt index holds only unspent outputs: each output it holds is
/// output `j` of a transaction on the walk, recorded under that
/// transaction's id with index `j`, and no input of a block at the height of
/// that transaction's block or above spends it.
pub proof fn lemma_utxo_index_sound(bs: Seq<BlockView>, k: int)
    requires
        0 <= k <= bs.len(),
    ensures
        index_sound(utxo_index(bs, k), bs),
        entries_wf(utxo_index(bs, k)),
    decreases k,
{
    if k == 0 {
        assert(utxo_index(bs, 0) =~= Seq::<EntryView>::empty());
    } else {
        lemma_utxo_index_sound(bs, k - 1);
        lemma_block_outs_sound(utxo_index(bs, k - 1), bs, k - 1, bs[k - 1].transactions.len() as int);
    }
}

/// Output index `x` stands in entry `i` of the first `n` entries of the index,
/// next to an output locked to `pkh`, in the entry for `id`.
pub open spec fn held_for(idx: Seq<EntryView>, n: int, pkh: Seq<u8>, id: Seq<char>, x: i32) -> bool {
    exists|i: int, q: int|
        #![trigger idx[i].2[q]]
        0 <= i < n && i < idx.len() && 0 <= q < idx[i].1.len() && idx[i].0 == id && idx[i].2[q] == x
            && idx[i].1[q].pub_key_hash == pkh
}

proof fn lemma_pick_outs_held(outs: Seq<OutputView>, ixs: Seq<i32>, pkh: Seq<u8>, amount: int, acc: int, j: int)
    requires
        0 <= j <= outs.len(),
    ensures
        forall|u: int|
            0 <= u < pick_outs(outs, ixs, pkh, amount, acc, j).1.len() ==> exists|q: int|
                #![trigger ixs[q]]
                0 <= q < j && ixs[q] == #[trigger] pick_outs(outs, ixs, pkh, amount, acc, j).1[u]
                    && outs[q].pub_key_hash == pkh,
    decreases j,
{
    if j > 0 {
        lemma_pick_outs_held(outs, ixs, pkh, amount, acc, j - 1);
        let p = pick_outs(outs, ixs, pkh, amount, acc, j - 1);
        let r = pick_outs(outs, ixs, pkh, amount, acc, j);
        assert forall|u: int| 0 <= u < r.1.len() implies exists|q: int|
            #![trigger ixs[q]]
            0 <= q < j && ixs[q] == #[trigger] r.1[u] && outs[q].pub_key_hash == pkh by {
            if u < p.1.len() {
                assert(r.1[u] == p.1[u]);
                let q = choose|q: int| #![trigger ixs[q]] 0 <= q < j - 1 && ixs[q] == p.1[u] && outs[q].pub_key_hash == pkh;
                assert(ixs[q] == r.1[u]);
            } else {
                assert(ixs[j - 1] == r.1[u]);
            }
        }
    }
}

/// Every output `find_spendable_outputs` takes is an output the index holds,
/// locked to the payer's key hash, under the id and with the index it is
/// taken by; with `lemma_utxo_index_sound`, an unspent output of the chain.
pub proof fn lemma_pick_held(idx: Seq<EntryView>, pkh: Seq<u8>, amount: int, n: int)
    requires
        0 <= n <= idx.len(),
    ensures
        forall|t: int, u: int|
            0 <= t < pick(idx, pkh, amount, n).1.len() && 0 <= u < pick(idx, pkh, amount, n).1[t].1.len()
                ==> #[trigger] held_for(idx, n, pkh, pick(idx, pkh, amount, n).1[t].0, pick(idx, pkh, amount, n).1[t].1[u]),
    decreases n,
{
    if n > 0 {
        lemma_pick_held(idx, pkh, amount, n - 1);
        let p = pick(idx, pkh, amount, n - 1);
        let q = pick_outs(idx[n - 1].1, idx[n - 1].2, pkh, amount, p.0, idx[n - 1].1.len() as int);
        lemma_pick_outs_held(idx[n - 1].1, idx[n - 1].2, pkh, amount, p.0, idx[n - 1].1.len() as int);
        let r = pick(idx, pkh, amount, n);
        assert forall|t: int, u: int| 0 <= t < r.1.len() && 0 <= u < r.1[t].1.len()
            implies #[trigger] held_for(idx, n, pkh, r.1[t].0, r.1[t].1[u]) by {
            if t < p.1.len() {
                assert(r.1[t] == p.1[t]);
                assert(held_for(idx, n - 1, pkh, p.1[t].0, p.1[t].1[u]));
                let (i, w) = choose|i: int, w: int|
                    #![trigger idx[i].2[w]]
                    0 <= i < n - 1 && i < idx.len() && 0 <= w < idx[i].1.len() && idx[i].0 == p.1[t].0
                        && idx[i].2[w] == p.1[t].1[u] && idx[i].1[w].pub_key_hash == pkh;
                assert(idx[i].2[w] == r.1[t].1[u]);
            } else {
                assert(r.1[t] == (idx[n - 1].0, q.1));
                let w = choose|w: int| #![trigger idx[n - 1].2[w]] 0 <= w < idx[n - 1].1.len() && idx[n - 1].2[w] == q.1[u]
                    && idx[n - 1].1[w].pub_key_hash == pkh;
                assert(idx[n - 1].2[w] == r.1[t].1[u]);
            }
        }
    }
}

proof fn lemma_apply_none(idx: Seq<EntryView>, txs: Seq<TxView>, k: int)
    requires
        0 < k <= txs.len(),
        apply_txs(idx, txs, k) is None,
    ensures
        apply_txs(idx, txs, txs.len() as int) is None,
    decreases txs.len() - k,
{
    if k < txs.len() {
        lemma_apply_none(idx, txs, k + 1);
    }
}

proof fn lemma_spend_none(idx: Seq<EntryView>, vin: Seq<InputView>, k: int)
    requires
        0 < k <= vin.len(),
        spend_inputs(idx, vin, k) is None,
    ensures
        spend_inputs(idx, vin, vin.len() as int) is None,
    decreases vin.len() - k,
{
    if k < vin.len() {
        lemma_spend_none(idx, vin, k + 1);
    }
}

} // verus!
