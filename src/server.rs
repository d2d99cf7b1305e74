//! The gossip engine: a state machine from an inbound message to the next
//! state and the messages to send. Delivery is left to the caller.
use vstd::prelude::*;
use crate::block::{Block, BlockView, mined_from, nonce_works};
use crate::blockchain::{LedgerView, best_height, block_at, has_block, put_block, verify_result, walk};
use crate::error::LedgerError;
use crate::message::{Blockmsg, GetDatamsg, Invmsg, Message, MsgView, Outbound, Txmsg, Versionmsg, outbox_view, strings_view};
use crate::transaction::{Transaction, TxView, coinbase_spec, copy_transactions, lookup_tx, find_prev, tx_views};
use crate::tx::address_hash;
use crate::utxoset::UTXOSet;

verus! {

/// The protocol version this node announces.
pub const VERSION: i32 = 1;

pub open spec fn distinct(s: Seq<Seq<char>>) -> bool {
    forall|i: int, j: int| 0 <= i < s.len() && 0 <= j < s.len() && i != j ==> s[i] != s[j]
}

/// No two pooled transactions share an id.
pub open spec fn ids_distinct(pool: Seq<TxView>) -> bool {
    forall|i: int, j: int| 0 <= i < pool.len() && 0 <= j < pool.len() && i != j ==> pool[i].id != pool[j].id
}

/// `out` after sending `m` to `peer`: a message to the node itself is dropped.
pub open spec fn sent(out: Seq<(Seq<char>, MsgView)>, local: Seq<char>, peer: Seq<char>, m: MsgView) -> Seq<(Seq<char>, MsgView)> {
    if peer == local { out } else { out.push((peer, m)) }
}

/// `m` to each of `peers` in order, but the node itself and `skip`.
pub open spec fn broadcast(peers: Seq<Seq<char>>, local: Seq<char>, skip: Seq<char>, m: MsgView) -> Seq<(Seq<char>, MsgView)>
    decreases peers.len(),
{
    if peers.len() == 0 {
        Seq::empty()
    } else {
        let b = broadcast(peers.drop_last(), local, skip, m);
        if peers.last() == local || peers.last() == skip { b } else { b.push((peers.last(), m)) }
    }
}

/// Where the transaction with id `id` stands in a pool, looking from `k` on.
pub open spec fn tx_pos_from(pool: Seq<TxView>, id: Seq<char>, k: int) -> Option<int>
    decreases pool.len() - k,
{
    if k < 0 || k >= pool.len() {
        None
    } else if pool[k].id == id {
        Some(k)
    } else {
        tx_pos_from(pool, id, k + 1)
    }
}

/// The pool after receiving `t`: it replaces the entry with its id, or is added at the end.
pub open spec fn inserted(pool: Seq<TxView>, t: TxView) -> Seq<TxView> {
    match tx_pos_from(pool, t.id, 0) {
        Some(i) => pool.update(i, t),
        None => pool.push(t),
    }
}

/// The items of `s` other than `x`, in order.
pub open spec fn without(s: Seq<Seq<char>>, x: Seq<char>) -> Seq<Seq<char>>
    decreases s.len(),
{
    if s.len() == 0 {
        Seq::empty()
    } else {
        let w = without(s.drop_last(), x);
        if s.last() == x { w } else { w.push(s.last()) }
    }
}

/// The transactions of `pool` that verify against `v`, in order, or the
/// error of the first whose verification fails.
pub open spec fn scan_verify(v: LedgerView, pool: Seq<TxView>) -> Result<Seq<TxView>, LedgerError>
    decreases pool.len(),
{
    if pool.len() == 0 {
        Ok(Seq::empty())
    } else {
        match scan_verify(v, pool.drop_last()) {
            Err(e) => Err(e),
            Ok(s) => match verify_result(v, pool.last()) {
                Err(e) => Err(e),
                Ok(true) => Ok(s.push(pool.last())),
                Ok(false) => Ok(s),
            },
        }
    }
}

/// The transactions of `pool` whose id is not among `ids`, in order.
pub open spec fn without_ids(pool: Seq<TxView>, ids: Seq<Seq<char>>) -> Seq<TxView>
    decreases pool.len(),
{
    if pool.len() == 0 {
        Seq::empty()
    } else {
        let w = without_ids(pool.drop_last(), ids);
        if ids.contains(pool.last().id) { w } else { w.push(pool.last()) }
    }
}

pub open spec fn ids_of(txs: Seq<TxView>) -> Seq<Seq<char>> {
    txs.map_values(|t: TxView| t.id)
}

pub open spec fn inv_msg(kind: Seq<char>, items: Seq<Seq<char>>) -> MsgView {
    MsgView::Inv { kind, items }
}

/// The state the engine shares between messages.
pub struct ServerInner {
    pub known_peers: Vec<String>,
    pub utxo: UTXOSet,
    pub blocks_in_transit: Vec<String>,
    pub mempool: Vec<Transaction>,
}

/// A node: the address its mining rewards go to (empty for none), its own
/// peer identifier, and its state.
pub struct Server {
    pub wallet_address: String,
    pub local_peer: String,
    pub inner: ServerInner,
}

impl Server {
    pub open spec fn wf(&self) -> bool {
        &&& self.inner.utxo.blockchain.wf()
        &&& distinct(self.peers())
        &&& ids_distinct(self.pool())
    }

    pub open spec fn ledger(&self) -> LedgerView {
        self.inner.utxo.blockchain@
    }

    pub open spec fn peers(&self) -> Seq<Seq<char>> {
        strings_view(self.inner.known_peers@)
    }

    pub open spec fn in_transit(&self) -> Seq<Seq<char>> {
        strings_view(self.inner.blocks_in_transit@)
    }

    pub open spec fn pool(&self) -> Seq<TxView> {
        tx_views(self.inner.mempool@)
    }

    /// Everything but the ledger and its index is as in `o`.
    pub open spec fn same_but_ledger(&self, o: &Server) -> bool {
        &&& self.peers() == o.peers()
        &&& self.in_transit() == o.in_transit()
        &&& self.pool() == o.pool()
        &&& self.wallet_address@ == o.wallet_address@
        &&& self.local_peer@ == o.local_peer@
    }

    pub open spec fn unchanged(&self, o: &Server) -> bool {
        &&& self.same_but_ledger(o)
        &&& self.ledger() == o.ledger()
        &&& self.inner.utxo.index() == o.inner.utxo.index()
    }

    /// A node with no known peers, nothing in transit and an empty pool.
    pub fn new(local_peer: String, wallet_address: String, utxo: UTXOSet) -> (r: Server)
        requires
            utxo.blockchain.wf(),
        ensures
            r.wf(),
            r.ledger() == utxo.blockchain@,
            r.inner.utxo.index() == utxo.index(),
            r.peers().len() == 0 && r.in_transit().len() == 0 && r.pool().len() == 0,
            r.wallet_address@ == wallet_address@ && r.local_peer@ == local_peer@,
    {
        let r = Server {
            wallet_address,
            local_peer,
            inner: ServerInner { known_peers: Vec::new(), utxo, blocks_in_transit: Vec::new(), mempool: Vec::new() },
        };
        assert(r.peers() =~= Seq::<Seq<char>>::empty());
        assert(r.in_transit() =~= Seq::<Seq<char>>::empty());
        assert(r.pool() =~= Seq::<TxView>::empty());
        r
    }

    /// Records `peer_id` as known.
    pub fn add_node(&mut self, peer_id: &String)
        requires
            old(self).wf(),
        ensures
            final(self).wf(),
            final(self).ledger() == old(self).ledger(),
            final(self).inner.utxo.index() == old(self).inner.utxo.index(),
            final(self).in_transit() == old(self).in_transit(),
            final(self).pool() == old(self).pool(),
            final(self).wallet_address@ == old(self).wallet_address@,
            final(self).local_peer@ == old(self).local_peer@,
            old(self).peers().contains(peer_id@) ==> final(self).peers() == old(self).peers(),
            !old(self).peers().contains(peer_id@) ==> final(self).peers() == old(self).peers().push(peer_id@),
    {
        let ghost ps = self.peers();
        let mut k: usize = 0;
        while k < self.inner.known_peers.len()
            invariant
                *self == *old(self),
                self.wf(),
                ps == strings_view(self.inner.known_peers@),
                k <= ps.len(),
                forall|i: int| 0 <= i < k ==> ps[i] != peer_id@,
            decreases ps.len() - k,
        {
            if self.inner.known_peers[k] == *peer_id {
                assert(ps[k as int] == peer_id@);
                return;
            }
            k += 1;
        }
        self.inner.known_peers.push(peer_id.clone());
        assert(self.peers() =~= ps.push(peer_id@));
    }

    /// The known peers.
    pub fn get_known_nodes(&self) -> (r: Vec<String>)
        ensures
            strings_view(r@) == self.peers(),
    {
        let mut r: Vec<String> = Vec::new();
        let mut k: usize = 0;
        while k < self.inner.known_peers.len()
            invariant
                k <= self.inner.known_peers@.len(),
                r@.len() == k,
                forall|i: int| 0 <= i < k ==> (#[trigger] r@[i])@ == self.inner.known_peers@[i]@,
            decreases self.inner.known_peers@.len() - k,
        {
            r.push(self.inner.known_peers[k].clone());
            k += 1;
        }
        assert(strings_view(r@) =~= self.peers());
        r
    }

    /// Adds `tx` to the pool, replacing a transaction with the same id.
    pub fn insert_mempool(&mut self, tx: Transaction)
        ensures
            final(self).pool() == inserted(old(self).pool(), tx@),
            ids_distinct(old(self).pool()) ==> ids_distinct(final(self).pool()),
            final(self).ledger() == old(self).ledger(),
            final(self).inner.utxo.index() == old(self).inner.utxo.index(),
            final(self).inner.utxo.blockchain.wf() == old(self).inner.utxo.blockchain.wf(),
            final(self).peers() == old(self).peers(),
            final(self).in_transit() == old(self).in_transit(),
            final(self).wallet_address@ == old(self).wallet_address@,
            final(self).local_peer@ == old(self).local_peer@,
    {
        let ghost pool = self.pool();
        let mut k: usize = 0;
        while k < self.inner.mempool.len()
            invariant
                *self == *old(self),
                pool == tx_views(self.inner.mempool@),
                k <= pool.len(),
                tx_pos_from(pool, tx@.id, 0) == tx_pos_from(pool, tx@.id, k as int),
                forall|i: int| 0 <= i < k ==> pool[i].id != tx@.id,
            decreases pool.len() - k,
        {
            assert(pool[k as int] == self.inner.mempool@[k as int]@);
            if self.inner.mempool[k].id == tx.id {
                let ghost t = tx@;
                self.inner.mempool.set(k, tx);
                assert(self.pool() =~= pool.update(k as int, t));
                assert(ids_distinct(pool) ==> ids_distinct(self.pool())) by {
                    if ids_distinct(pool) {
                        assert forall|i: int, j: int| 0 <= i < self.pool().len() && 0 <= j < self.pool().len() && i != j
                            implies self.pool()[i].id != self.pool()[j].id by {
                            assert(self.pool()[i].id == pool[i].id);
                            assert(self.pool()[j].id == pool[j].id);
                        }
                    }
                }
                return;
            }
            k += 1;
        }
        let ghost t = tx@;
        self.inner.mempool.push(tx);
        assert(self.pool() =~= pool.push(t));
        assert(ids_distinct(pool) ==> ids_distinct(self.pool())) by {
            if ids_distinct(pool) {
                assert forall|i: int, j: int| 0 <= i < self.pool().len() && 0 <= j < self.pool().len() && i != j
                    implies self.pool()[i].id != self.pool()[j].id by {
                    if i < pool.len() && j < pool.len() {
                        assert(self.pool()[i] == pool[i] && self.pool()[j] == pool[j]);
                    } else if i == pool.len() {
                        assert(self.pool()[j] == pool[j]);
                    } else {
                        assert(self.pool()[i] == pool[i]);
                    }
                }
            }
        }
    }

    /// The pooled transaction with id `id`, if any.
    pub fn get_mempool_tx(&self, id: &String) -> (r: Option<Transaction>)
        ensures
            match lookup_tx(self.pool(), id@) {
                Some(t) => r matches Some(x) && x@ == t,
                None => r is None,
            },
    {
        match find_prev(&self.inner.mempool, id) {
            Some(k) => Some(self.inner.mempool[k].copy()),
            None => None,
        }
    }

    /// Empties the pool.
    pub fn clear_mempool(&mut self)
        ensures
            final(self).pool().len() == 0,
            final(self).ledger() == old(self).ledger(),
            final(self).inner.utxo.index() == old(self).inner.utxo.index(),
            final(self).inner.utxo.blockchain.wf() == old(self).inner.utxo.blockchain.wf(),
            final(self).peers() == old(self).peers(),
            final(self).in_transit() == old(self).in_transit(),
            final(self).wallet_address@ == old(self).wallet_address@,
            final(self).local_peer@ == old(self).local_peer@,
    {
        self.inner.mempool = Vec::new();
    }

    /// Queues `data` for `peer_id`; a message to the node itself is dropped.
    pub fn send_data(&self, peer_id: &String, data: Message, out: &mut Vec<Outbound>)
        ensures
            outbox_view(final(out)@) == sent(outbox_view(old(out)@), self.local_peer@, peer_id@, data@),
    {
        if *peer_id == self.local_peer {
            return;
        }
        let ghost before = outbox_view(out@);
        let ghost m = data@;
        out.push(Outbound { peer: peer_id.clone(), message: data });
        assert(outbox_view(out@) =~= before.push((peer_id@, m)));
    }

    /// Sends block `b` to `peer_id`.
    pub fn send_block(&self, peer_id: &String, b: &Block, out: &mut Vec<Outbound>)
        ensures
            outbox_view(final(out)@) == sent(outbox_view(old(out)@), self.local_peer@, peer_id@, MsgView::Block { block: b@ }),
    {
        self.send_data(peer_id, Message::Block(Blockmsg { block: b.copy() }), out);
    }

    /// Announces this node's height to `peer_id`.
    pub fn send_version(&self, peer_id: &String, best_height: i32, out: &mut Vec<Outbound>)
        ensures
            outbox_view(final(out)@) == sent(
                outbox_view(old(out)@),
                self.local_peer@,
                peer_id@,
                MsgView::Version { version: VERSION, best_height },
            ),
    {
        self.send_data(peer_id, Message::Version(Versionmsg { version: VERSION, best_height }), out);
    }

    /// Sends an inventory of `kind` with `items` to `peer_id`.
    pub fn send_inv(&self, peer_id: &String, kind: &str, items: Vec<String>, out: &mut Vec<Outbound>)
        ensures
            outbox_view(final(out)@) == sent(
                outbox_view(old(out)@),
                self.local_peer@,
                peer_id@,
                inv_msg(kind@, strings_view(items@)),
            ),
    {
        self.send_data(peer_id, Message::Inv(Invmsg { kind: kind.to_owned(), items }), out);
    }

    /// Asks `peer_id` for the item of `kind` with id `id`.
    pub fn send_get_data(&self, peer_id: &String, kind: &str, id: &str, out: &mut Vec<Outbound>)
        ensures
            outbox_view(final(out)@) == sent(
                outbox_view(old(out)@),
                self.local_peer@,
                peer_id@,
                MsgView::GetData { kind: kind@, id: id@ },
            ),
    {
        self.send_data(peer_id, Message::GetData(GetDatamsg { kind: kind.to_owned(), id: id.to_owned() }), out);
    }

    /// Asks `peer_id` for the hashes of all its blocks.
    pub fn send_get_blocks(&self, peer_id: &String, out: &mut Vec<Outbound>)
        ensures
            outbox_view(final(out)@) == sent(outbox_view(old(out)@), self.local_peer@, peer_id@, MsgView::GetBlock),
    {
        self.send_data(peer_id, Message::GetBlock, out);
    }

    /// Sends `tx` to `peer_id`.
    pub fn send_tx(&self, peer_id: &String, tx: &Transaction, out: &mut Vec<Outbound>)
        ensures
            outbox_view(final(out)@) == sent(outbox_view(old(out)@), self.local_peer@, peer_id@, MsgView::Tx { transaction: tx@ }),
    {
        self.send_data(peer_id, Message::Tx(Txmsg { transaction: tx.copy() }), out);
    }

    /// Sends `kind` and `items` as an inventory to every known peer but the
    /// node itself and `skip`.
    fn broadcast_inv(&self, skip: &String, kind: &String, items: &Vec<String>, out: &mut Vec<Outbound>)
        ensures
            outbox_view(final(out)@) == outbox_view(old(out)@)
                + broadcast(self.peers(), self.local_peer@, skip@, inv_msg(kind@, strings_view(items@))),
    {
        let ghost start = outbox_view(out@);
        let ghost ps = self.peers();
        let ghost m = inv_msg(kind@, strings_view(items@));
        let mut k: usize = 0;
        assert(start + broadcast(ps.subrange(0, 0), self.local_peer@, skip@, m) =~= start);
        while k < self.inner.known_peers.len()
            invariant
                ps == self.peers(),
                m == inv_msg(kind@, strings_view(items@)),
                k <= ps.len(),
                outbox_view(out@) == start + broadcast(ps.subrange(0, k as int), self.local_peer@, skip@, m),
            decreases ps.len() - k,
        {
            let node = &self.inner.known_peers[k];
            assert(ps.subrange(0, k + 1).drop_last() =~= ps.subrange(0, k as int));
            assert(ps.subrange(0, k + 1).last() == node@);
            if !(*node == self.local_peer) && !(*node == *skip) {
                let ghost before = outbox_view(out@);
                let msg = Message::Inv(Invmsg { kind: kind.clone(), items: copy_strings(items) });
                assert(msg@ == m);
                self.send_data(node, msg, out);
                assert(outbox_view(out@) =~= before.push((node@, m)));
            }
            k += 1;
        }
        assert(ps.subrange(0, ps.len() as int) =~= ps);
    }

    /// Asks each known peer but the node itself for the hashes of its blocks.
    pub fn request_blocks(&self, out: &mut Vec<Outbound>)
        ensures
            outbox_view(final(out)@) == outbox_view(old(out)@)
                + broadcast(self.peers(), self.local_peer@, self.local_peer@, MsgView::GetBlock),
    {
        let ghost start = outbox_view(out@);
        let ghost ps = self.peers();
        let mut k: usize = 0;
        assert(start + broadcast(ps.subrange(0, 0), self.local_peer@, self.local_peer@, MsgView::GetBlock) =~= start);
        while k < self.inner.known_peers.len()
            invariant
                ps == self.peers(),
                k <= ps.len(),
                outbox_view(out@) == start + broadcast(ps.subrange(0, k as int), self.local_peer@, self.local_peer@, MsgView::GetBlock),
            decreases ps.len() - k,
        {
            let node = &self.inner.known_peers[k];
            assert(ps.subrange(0, k + 1).drop_last() =~= ps.subrange(0, k as int));
            assert(ps.subrange(0, k + 1).last() == node@);
            let ghost before = outbox_view(out@);
            self.send_get_blocks(node, out);
            if *node == self.local_peer {
                assert(outbox_view(out@) == before);
            } else {
                assert(outbox_view(out@) =~= before.push((node@, MsgView::GetBlock)));
            }
            k += 1;
        }
        assert(ps.subrange(0, ps.len() as int) =~= ps);
    }
}

/// The hashes of the blocks on the walk from the tip.
pub open spec fn walk_hashes(v: LedgerView) -> Seq<Seq<char>> {
    walk(v).map_values(|b: BlockView| b.hash)
}

/// What a `Version` message with `best` from `peer` sends.
pub open spec fn version_reply(s: &Server, best: i32, peer: Seq<char>, out0: Seq<(Seq<char>, MsgView)>) -> Seq<(Seq<char>, MsgView)> {
    let my = best_height(s.ledger());
    if my < best {
        sent(out0, s.local_peer@, peer, MsgView::GetBlock)
    } else if my > best {
        sent(out0, s.local_peer@, peer, MsgView::Version { version: VERSION, best_height: my })
    } else {
        out0
    }
}

/// The step an `Inv` message of `kind` with `items` from `peer` makes.
pub open spec fn inv_step(
    s0: &Server,
    s1: &Server,
    kind: Seq<char>,
    items: Seq<Seq<char>>,
    peer: Seq<char>,
    out0: Seq<(Seq<char>, MsgView)>,
    out1: Seq<(Seq<char>, MsgView)>,
) -> bool {
    &&& s1.ledger() == s0.ledger()
    &&& s1.inner.utxo.index() == s0.inner.utxo.index()
    &&& s1.peers() == s0.peers()
    &&& s1.pool() == s0.pool()
    &&& s1.wallet_address@ == s0.wallet_address@
    &&& s1.local_peer@ == s0.local_peer@
    &&& if kind == "block"@ && items.len() > 0 {
        &&& out1 == sent(out0, s0.local_peer@, peer, MsgView::GetData { kind: "block"@, id: items[0] })
        &&& s1.in_transit() == without(items, items[0])
    } else if kind == "tx"@ && items.len() > 0 {
        &&& s1.in_transit() == s0.in_transit()
        &&& out1 == match lookup_tx(s0.pool(), items[0]) {
            Some(t) => if t.id.len() == 0 {
                sent(out0, s0.local_peer@, peer, MsgView::GetData { kind: "tx"@, id: items[0] })
            } else {
                out0
            },
            None => sent(out0, s0.local_peer@, peer, MsgView::GetData { kind: "tx"@, id: items[0] }),
        }
    } else {
        &&& s1.in_transit() == s0.in_transit()
        &&& out1 == out0
    }
}

/// What a `GetData` message of `kind` for `id` from `peer` gives.
pub open spec fn get_data_step(
    s: &Server,
    kind: Seq<char>,
    id: Seq<char>,
    peer: Seq<char>,
    out0: Seq<(Seq<char>, MsgView)>,
    out1: Seq<(Seq<char>, MsgView)>,
    r: Result<(), LedgerError>,
) -> bool {
    if kind == "block"@ {
        if has_block(s.ledger().blocks, id) {
            r is Ok && out1 == sent(out0, s.local_peer@, peer, MsgView::Block { block: block_at(s.ledger().blocks, id) })
        } else {
            r == Err::<(), LedgerError>(LedgerError::NotFound) && out1 == out0
        }
    } else if kind == "tx"@ {
        r is Ok && out1 == match lookup_tx(s.pool(), id) {
            Some(t) => sent(out0, s.local_peer@, peer, MsgView::Tx { transaction: t }),
            None => out0,
        }
    } else {
        r is Ok && out1 == out0
    }
}

/// The step a `Block` message with `b` from `peer` makes: the block is
/// appended; the next block in transit is asked for, or, with none left,
/// the index is rebuilt.
pub open spec fn block_step(
    s0: &Server,
    s1: &Server,
    b: BlockView,
    peer: Seq<char>,
    out0: Seq<(Seq<char>, MsgView)>,
    out1: Seq<(Seq<char>, MsgView)>,
) -> bool {
    &&& s1.wf()
    &&& s1.ledger() == crate::blockchain::appended(s0.ledger(), b)
    &&& s1.peers() == s0.peers()
    &&& s1.pool() == s0.pool()
    &&& s1.wallet_address@ == s0.wallet_address@
    &&& s1.local_peer@ == s0.local_peer@
    &&& if s0.in_transit().len() > 0 {
        &&& out1 == sent(out0, s0.local_peer@, peer, MsgView::GetData { kind: "block"@, id: s0.in_transit()[0] })
        &&& s1.in_transit() == s0.in_transit().drop_first()
        &&& s1.inner.utxo.index() == s0.inner.utxo.index()
    } else {
        &&& out1 == out0
        &&& s1.in_transit() == s0.in_transit()
        &&& s1.inner.utxo.fresh()
    }
}

/// The step one mining round over `pool` makes, where all of `pool`
/// verifies without error and `txs`, the ones that verify, are not empty.
pub open spec fn round_mined(
    s0: &Server,
    s1: &Server,
    txs: Seq<TxView>,
    pool0: Seq<TxView>,
    pool1: Seq<TxView>,
    now: u128,
    out0: Seq<(Seq<char>, MsgView)>,
    out1: Seq<(Seq<char>, MsgView)>,
) -> bool {
    let cb = coinbase_spec(s0.wallet_address@, Seq::empty(), address_hash(s0.wallet_address@).unwrap());
    let all = txs.push(cb);
    exists|b: BlockView| {
        &&& mined_from(b, all, s0.ledger().tip, (best_height(s0.ledger()) + 1) as i32, now)
        &&& #[trigger] s1.ledger() == (LedgerView { blocks: put_block(s0.ledger().blocks, b), tip: b.hash })
        &&& out1 == out0 + broadcast(s0.peers(), s0.local_peer@, s0.local_peer@, inv_msg("block"@, seq![b.hash]))
    }
        && s1.inner.utxo.fresh()
        && pool1 == without_ids(pool0, ids_of(all))
}

impl Server {
    /// Answers a peer's `Version`: asks for its blocks where it is higher,
    /// announces this node's height where this node is higher.
    pub fn handle_version(&self, msg: &Versionmsg, peer_id: &String, out: &mut Vec<Outbound>)
        requires
            self.wf(),
        ensures
            outbox_view(final(out)@) == version_reply(self, msg.best_height, peer_id@, outbox_view(old(out)@)),
    {
        let my_best_height = self.inner.utxo.blockchain.get_best_height();
        if my_best_height < msg.best_height {
            self.send_get_blocks(peer_id, out);
        } else if my_best_height > msg.best_height {
            self.send_version(peer_id, my_best_height, out);
        }
    }

    /// Answers `GetBlock` with the hashes of every block on the walk from the tip.
    pub fn handle_get_blocks(&self, peer_id: &String, out: &mut Vec<Outbound>)
        requires
            self.wf(),
        ensures
            outbox_view(final(out)@) == sent(
                outbox_view(old(out)@),
                self.local_peer@,
                peer_id@,
                inv_msg("block"@, walk_hashes(self.ledger())),
            ),
    {
        let block_hashs = self.inner.utxo.blockchain.get_block_hashs();
        assert(strings_view(block_hashs@) =~= walk_hashes(self.ledger()));
        self.send_inv(peer_id, "block", block_hashs, out);
    }

    /// Answers an inventory: asks for the first block and keeps the others
    /// in transit; or asks for a transaction this node does not hold.
    pub fn handle_inv(&mut self, msg: &Invmsg, peer_id: &String, out: &mut Vec<Outbound>)
        requires
            old(self).wf(),
        ensures
            final(self).wf(),
            inv_step(old(self), final(self), msg.kind@, strings_view(msg.items@), peer_id@, outbox_view(old(out)@), outbox_view(final(out)@)),
    {
        let ghost items = strings_view(msg.items@);
        if msg.kind == "block".to_owned() && msg.items.len() > 0 {
            let block_hash = &msg.items[0];
            self.send_get_data(peer_id, "block", block_hash.as_str(), out);
            let mut new_in_transit: Vec<String> = Vec::new();
            let mut k: usize = 0;
            assert(strings_view(new_in_transit@) =~= without(items.subrange(0, 0), items[0]));
            while k < msg.items.len()
                invariant
                    items == strings_view(msg.items@),
                    items.len() > 0,
                    block_hash@ == items[0],
                    k <= items.len(),
                    strings_view(new_in_transit@) == without(items.subrange(0, k as int), items[0]),
                decreases items.len() - k,
            {
                assert(items.subrange(0, k + 1).drop_last() =~= items.subrange(0, k as int));
                assert(items.subrange(0, k + 1).last() == msg.items@[k as int]@);
                if !(msg.items[k] == *block_hash) {
                    let ghost before = strings_view(new_in_transit@);
                    new_in_transit.push(msg.items[k].clone());
                    assert(strings_view(new_in_transit@) =~= before.push(msg.items@[k as int]@));
                }
                k += 1;
            }
            assert(items.subrange(0, items.len() as int) =~= items);
            self.inner.blocks_in_transit = new_in_transit;
        } else if msg.kind == "tx".to_owned() && msg.items.len() > 0 {
            let txid = &msg.items[0];
            match self.get_mempool_tx(txid) {
                Some(tx) => {
                    if tx.id.as_str().is_empty() {
                        self.send_get_data(peer_id, "tx", txid.as_str(), out);
                    }
                },
                None => {
                    self.send_get_data(peer_id, "tx", txid.as_str(), out);
                },
            }
        }
    }

    /// Answers a request for a block or a pooled transaction.
    pub fn handle_get_data(&self, msg: &GetDatamsg, peer_id: &String, out: &mut Vec<Outbound>) -> (r: Result<(), LedgerError>)
        requires
            self.wf(),
        ensures
            get_data_step(self, msg.kind@, msg.id@, peer_id@, outbox_view(old(out)@), outbox_view(final(out)@), r),
    {
        if msg.kind == "block".to_owned() {
            match self.inner.utxo.blockchain.get_block(&msg.id) {
                Ok(block) => {
                    self.send_block(peer_id, &block, out);
                    Ok(())
                },
                Err(e) => Err(e),
            }
        } else if msg.kind == "tx".to_owned() {
            match self.get_mempool_tx(&msg.id) {
                Some(transaction) => {
                    self.send_tx(peer_id, &transaction, out);
                    Ok(())
                },
                None => Ok(()),
            }
        } else {
            Ok(())
        }
    }

    /// Takes in a block from a peer: appends it, then asks for the next block
    /// in transit, or rebuilds the index when none is left.
    pub fn handle_block(&mut self, msg: Blockmsg, peer_id: &String, out: &mut Vec<Outbound>)
        requires
            old(self).wf(),
        ensures
            block_step(old(self), final(self), msg.block@, peer_id@, outbox_view(old(out)@), outbox_view(final(out)@)),
    {
        let _ = self.inner.utxo.blockchain.add_block(msg.block);
        if self.inner.blocks_in_transit.len() > 0 {
            let block_hash = self.inner.blocks_in_transit.remove(0);
            self.send_get_data(peer_id, "block", block_hash.as_str(), out);
            assert(self.in_transit() =~= old(self).in_transit().drop_first());
        } else {
            self.inner.utxo.reindex();
        }
    }
}

/// `a` is a prefix of `b`.
pub open spec fn prefix_of(a: Seq<(Seq<char>, MsgView)>, b: Seq<(Seq<char>, MsgView)>) -> bool {
    a.len() <= b.len() && forall|i: int| 0 <= i < a.len() ==> #[trigger] b[i] == a[i]
}

/// `states` is a run of mining rounds: each round, started with at least two
/// transactions in its pool, mined as `round_mined` says, and every state
/// keeps the peers, the wallet address and the node's identifier.
pub open spec fn mining_run(
    states: Seq<Server>,
    pools: Seq<Seq<TxView>>,
    outs: Seq<Seq<(Seq<char>, MsgView)>>,
    now: u128,
) -> bool {
    &&& states.len() >= 1
    &&& pools.len() == states.len()
    &&& outs.len() == states.len()
    &&& forall|r: int|
        0 <= r < states.len() ==> (#[trigger] states[r]).peers() == states[0].peers()
            && states[r].wallet_address@ == states[0].wallet_address@
            && states[r].local_peer@ == states[0].local_peer@
    &&& forall|r: int|
        0 <= r < states.len() - 1 ==> (#[trigger] pools[r]).len() >= 2 && round_mined(
            &states[r],
            &states[r + 1],
            scan_verify(states[r].ledger(), pools[r]).unwrap(),
            pools[r],
            pools[r + 1],
            now,
            outs[r],
            outs[r + 1],
        )
}

/// Why a mining round from `s0` over transactions `txs` that verify fails:
/// the tip is at the largest height, or no nonce works for the block of
/// `txs` and the coinbase paying the node on the tip.
pub open spec fn round_failure(s0: &Server, txs: Seq<TxView>, now: u128, e: LedgerError) -> bool {
    let cb = coinbase_spec(s0.wallet_address@, Seq::empty(), address_hash(s0.wallet_address@).unwrap());
    ||| e == LedgerError::HeightOverflow && best_height(s0.ledger()) == i32::MAX
    ||| e == LedgerError::NonceExhausted && best_height(s0.ledger()) < i32::MAX && forall|m: i32|
        0 <= m ==> !#[trigger] nonce_works(s0.ledger().tip, txs.push(cb), now, m)
}

/// A mining round from `s` over `pool` that mines nothing, with outcome `r`:
/// a verification error, nothing that verifies, an address that does not
/// decode, or a failure to mine.
pub open spec fn round_stops(s: &Server, pool: Seq<TxView>, now: u128, r: Result<(), LedgerError>) -> bool {
    match scan_verify(s.ledger(), pool) {
        Err(e) => r == Err::<(), LedgerError>(e),
        Ok(txs) => if txs.len() == 0 {
            r is Ok
        } else if address_hash(s.wallet_address@) is None {
            r == Err::<(), LedgerError>(LedgerError::InvalidAddress)
        } else {
            r matches Err(e) && round_failure(s, txs, now, e)
        },
    }
}

/// Mining from `s0` with `pool0`, after `relay` was sent, ran rounds while
/// at least two transactions were left and each round mined; it ended with
/// the ledger and index of `s1` and all that was sent being `out1`. Either
/// fewer than two transactions were left and the pool was emptied, or a
/// round stopped as `round_stops` says and the pool was kept.
pub open spec fn mining_outcome(
    s0: &Server,
    pool0: Seq<TxView>,
    now: u128,
    relay: Seq<(Seq<char>, MsgView)>,
    s1: &Server,
    out1: Seq<(Seq<char>, MsgView)>,
    r: Result<(), LedgerError>,
) -> bool {
    exists|states: Seq<Server>, pools: Seq<Seq<TxView>>, outs: Seq<Seq<(Seq<char>, MsgView)>>| {
        &&& #[trigger] mining_run(states, pools, outs, now)
        &&& states[0].ledger() == s0.ledger()
        &&& states[0].inner.utxo.index() == s0.inner.utxo.index()
        &&& states[0].peers() == s0.peers()
        &&& states[0].wallet_address@ == s0.wallet_address@
        &&& states[0].local_peer@ == s0.local_peer@
        &&& pools[0] == pool0
        &&& outs[0] == relay
        &&& states.last().ledger() == s1.ledger()
        &&& states.last().inner.utxo.index() == s1.inner.utxo.index()
        &&& outs.last() == out1
        &&& if pools.last().len() < 2 {
            states.len() >= 2 && r is Ok && s1.pool().len() == 0
        } else {
            s1.pool() == pool0 && round_stops(&states.last(), pools.last(), now, r)
        }
    }
}

/// What receiving transaction `t` from `peer` does before any mining: the
/// pool takes it in and every other known peer is told of its id.
pub open spec fn tx_step(
    s0: &Server,
    s1: &Server,
    t: TxView,
    peer: Seq<char>,
    now: u128,
    out0: Seq<(Seq<char>, MsgView)>,
    out1: Seq<(Seq<char>, MsgView)>,
    r: Result<(), LedgerError>,
) -> bool {
    let pool0 = inserted(s0.pool(), t);
    let relay = out0 + broadcast(s0.peers(), s0.local_peer@, peer, inv_msg("tx"@, seq![t.id]));
    &&& s1.wf()
    &&& s1.peers() == s0.peers()
    &&& s1.in_transit() == s0.in_transit()
    &&& s1.wallet_address@ == s0.wallet_address@
    &&& s1.local_peer@ == s0.local_peer@
    &&& prefix_of(relay, out1)
    &&& if pool0.len() >= 2 && s0.wallet_address@.len() > 0 {
        &&& s1.pool() == pool0 || s1.pool().len() == 0
        &&& mining_outcome(s0, pool0, now, relay, s1, out1, r)
        &&& scan_verify(s0.ledger(), pool0) == Ok::<Seq<TxView>, LedgerError>(Seq::empty()) ==> {
            &&& r is Ok
            &&& s1.pool() == pool0
            &&& s1.ledger() == s0.ledger()
            &&& s1.inner.utxo.index() == s0.inner.utxo.index()
            &&& out1 == relay
        }
    } else {
        &&& r is Ok
        &&& s1.pool() == pool0
        &&& s1.ledger() == s0.ledger()
        &&& s1.inner.utxo.index() == s0.inner.utxo.index()
        &&& out1 == relay
    }
}

/// The transactions of `pool` whose id is not among `ids`; shorter than
/// `pool` where the id of `pool[must]` is among them.
fn remove_ids(pool: &Vec<Transaction>, ids: &Vec<String>, must: usize) -> (r: Vec<Transaction>)
    ensures
        tx_views(r@) == without_ids(tx_views(pool@), strings_view(ids@)),
        must < pool@.len() && strings_view(ids@).contains(pool@[must as int].id@) ==> r@.len() < pool@.len(),
{
    let ghost pv = tx_views(pool@);
    let ghost iv = strings_view(ids@);
    let mut r: Vec<Transaction> = Vec::new();
    let mut k: usize = 0;
    assert(tx_views(r@) =~= without_ids(pv.subrange(0, 0), iv));
    while k < pool.len()
        invariant
            pv == tx_views(pool@),
            iv == strings_view(ids@),
            k <= pool@.len(),
            tx_views(r@) == without_ids(pv.subrange(0, k as int), iv),
            r@.len() <= k,
            must < k && iv.contains(pv[must as int].id) ==> r@.len() < k,
        decreases pool@.len() - k,
    {
        assert(pv.subrange(0, k + 1).drop_last() =~= pv.subrange(0, k as int));
        assert(pv.subrange(0, k + 1).last() == pool@[k as int]@);
        let id = &pool[k].id;
        let mut found = false;
        let mut j: usize = 0;
        while j < ids.len()
            invariant
                iv == strings_view(ids@),
                j <= ids@.len(),
                found == exists|i: int| 0 <= i < j && iv[i] == id@,
            decreases ids@.len() - j,
        {
            assert(iv[j as int] == ids@[j as int]@);
            if ids[j] == *id {
                found = true;
            }
            j += 1;
        }
        if !found {
            let ghost before = tx_views(r@);
            let c = pool[k].copy();
            r.push(c);
            assert(tx_views(r@) =~= before.push(pv[k as int]));
        }
        k += 1;
    }
    assert(pv.subrange(0, pool@.len() as int) =~= pv);
    r
}

impl Server {
    /// One mining round over `pool`: the transactions that verify against the
    /// ledger, then a coinbase paying this node, go into a block mined on the
    /// tip; they leave `pool`, the index is rebuilt and every other peer is
    /// told of the block. Gives `false`, changing nothing, where none verifies.
    #[verifier::rlimit(40)]
    pub fn mine_round(&mut self, pool: &mut Vec<Transaction>, now: u128, out: &mut Vec<Outbound>) -> (r: Result<bool, LedgerError>)
        requires
            old(self).wf(),
        ensures
            final(self).wf(),
            final(self).same_but_ledger(old(self)),
            prefix_of(outbox_view(old(out)@), outbox_view(final(out)@)),
            r == Ok::<bool, LedgerError>(true) ==> final(pool)@.len() < old(pool)@.len(),
            match scan_verify(old(self).ledger(), tx_views(old(pool)@)) {
                Err(e) => r == Err::<bool, LedgerError>(e) && final(self).unchanged(old(self))
                    && final(pool)@ == old(pool)@ && final(out)@ == old(out)@,
                Ok(txs) => if txs.len() == 0 {
                    r == Ok::<bool, LedgerError>(false) && final(self).unchanged(old(self))
                        && final(pool)@ == old(pool)@ && final(out)@ == old(out)@
                } else if address_hash(old(self).wallet_address@) is None {
                    r == Err::<bool, LedgerError>(LedgerError::InvalidAddress) && final(self).unchanged(old(self))
                        && final(pool)@ == old(pool)@ && final(out)@ == old(out)@
                } else {
                    match r {
                        Ok(mined) => mined && round_mined(
                            old(self),
                            final(self),
                            txs,
                            tx_views(old(pool)@),
                            tx_views(final(pool)@),
                            now,
                            outbox_view(old(out)@),
                            outbox_view(final(out)@),
                        ),
                        Err(e) => final(self).unchanged(old(self)) && final(out)@ == old(out)@
                            && final(pool)@ == old(pool)@ && round_failure(old(self), txs, now, e),
                    }
                },
            },
    {
        let ghost v0 = self.ledger();
        let ghost pv = tx_views(pool@);
        let mut txs: Vec<Transaction> = Vec::new();
        let mut first: usize = 0;
        let mut k: usize = 0;
        assert(pv.subrange(0, 0) =~= Seq::<TxView>::empty());
        assert(tx_views(txs@) =~= Seq::<TxView>::empty());
        while k < pool.len()
            invariant
                *self == *old(self),
                self.wf(),
                v0 == self.ledger(),
                pool@ == old(pool)@,
                pv == tx_views(pool@),
                k <= pool@.len(),
                scan_verify(v0, pv.subrange(0, k as int)) == Ok::<Seq<TxView>, LedgerError>(tx_views(txs@)),
                forall|j: int| 0 <= j < txs@.len() ==> verify_result(v0, #[trigger] tx_views(txs@)[j]) == Ok::<bool, LedgerError>(true),
                txs@.len() > 0 ==> first < k && tx_views(txs@)[0] == pv[first as int],
            decreases pool@.len() - k,
        {
            assert(pv.subrange(0, k + 1).drop_last() =~= pv.subrange(0, k as int));
            assert(pv.subrange(0, k + 1).last() == pool@[k as int]@);
            match self.inner.utxo.blockchain.verify_transaction(&pool[k]) {
                Err(e) => {
                    proof { lemma_scan_err(v0, pv, k as int + 1, e); }
                    assert(pv.subrange(0, pool@.len() as int) =~= pv);
                    return Err(e);
                },
                Ok(true) => {
                    if txs.len() == 0 {
                        first = k;
                    }
                    let ghost before = tx_views(txs@);
                    txs.push(pool[k].copy());
                    assert(tx_views(txs@) =~= before.push(pv[k as int]));
                },
                Ok(false) => {},
            }
            k += 1;
        }
        assert(pv.subrange(0, pool@.len() as int) =~= pv);
        if txs.len() == 0 {
            return Ok(false);
        }
        let cbtx = match Transaction::new_coinbase(self.wallet_address.clone(), String::new()) {
            Ok(t) => t,
            Err(e) => return Err(e),
        };
        let ghost found = tx_views(txs@);
        txs.push(cbtx);
        let ghost all = tx_views(txs@);
        assert(all =~= found.push(cbtx@));
        let mut ids: Vec<String> = Vec::new();
        let mut j: usize = 0;
        while j < txs.len()
            invariant
                all == tx_views(txs@),
                j <= txs@.len(),
                ids@.len() == j,
                forall|i: int| 0 <= i < j ==> (#[trigger] ids@[i])@ == all[i].id,
            decreases txs@.len() - j,
        {
            ids.push(txs[j].id.clone());
            j += 1;
        }
        assert(strings_view(ids@) =~= ids_of(all));
        assert(strings_view(ids@)[0] == pv[first as int].id);
        let remaining = remove_ids(pool, &ids, first);
        assert(crate::blockchain::all_verify(v0, all, all.len() as int)) by {
            assert forall|i: int| 0 <= i < all.len() implies #[trigger] verify_result(v0, all[i]) == Ok::<bool, LedgerError>(true) by {
                if i < found.len() {
                    assert(all[i] == found[i]);
                } else {
                    assert(all[i] == cbtx@);
                }
            }
        }
        let new_block = match self.inner.utxo.blockchain.mine_block(txs, now) {
            Ok(b) => b,
            Err(e) => return Err(e),
        };
        *pool = remaining;
        self.inner.utxo.reindex();
        let mut items: Vec<String> = Vec::new();
        items.push(new_block.get_hash());
        assert(strings_view(items@) =~= seq![new_block@.hash]);
        let kind = "block".to_owned();
        let local = self.local_peer.clone();
        self.broadcast_inv(&local, &kind, &items, out);
        assert(round_mined(old(self), self, found, pv, tx_views(pool@), now, outbox_view(old(out)@), outbox_view(out@)));
        Ok(true)
    }

    /// Takes in a transaction from a peer: pools it, tells every other known
    /// peer of it, and, where this node mines and at least two transactions
    /// are pooled, mines rounds until fewer than two are left, then empties
    /// the pool.
    #[verifier::rlimit(40)]
    pub fn handle_tx(&mut self, msg: Txmsg, peer_id: &String, now: u128, out: &mut Vec<Outbound>) -> (r: Result<(), LedgerError>)
        requires
            old(self).wf(),
        ensures
            tx_step(old(self), final(self), msg.transaction@, peer_id@, now, outbox_view(old(out)@), outbox_view(final(out)@), r),
    {
        let id = msg.transaction.id.clone();
        let ghost t = msg.transaction@;
        self.insert_mempool(msg.transaction);
        let mut items: Vec<String> = Vec::new();
        items.push(id);
        assert(strings_view(items@) =~= seq![t.id]);
        let kind = "tx".to_owned();
        self.broadcast_inv(peer_id, &kind, &items, out);
        let ghost relay = outbox_view(out@);
        assert(relay == outbox_view(old(out)@) + broadcast(old(self).peers(), old(self).local_peer@, peer_id@, inv_msg("tx"@, seq![t.id])));
        assert(self.pool() == inserted(old(self).pool(), t));
        assert(self.pool().len() == self.inner.mempool@.len());
        assert(prefix_of(relay, outbox_view(out@)));
        if self.inner.mempool.len() >= 2 && !self.wallet_address.as_str().is_empty() {
            let ghost s1 = *self;
            let mut pool = copy_transactions(&self.inner.mempool);
            let ghost first_round = true;
            let ghost mut states: Seq<Server> = seq![*self];
            let ghost mut pools: Seq<Seq<TxView>> = seq![tx_views(pool@)];
            let ghost mut outs: Seq<Seq<(Seq<char>, MsgView)>> = seq![relay];
            loop
                invariant_except_break
                    self.wf(),
                    self.same_but_ledger(&s1),
                    s1.ledger() == old(self).ledger(),
                    s1.pool() == inserted(old(self).pool(), t),
                    s1.pool().len() >= 2 && s1.wallet_address@.len() > 0,
                    s1.peers() == old(self).peers(),
                    s1.in_transit() == old(self).in_transit(),
                    s1.wallet_address@ == old(self).wallet_address@,
                    s1.local_peer@ == old(self).local_peer@,
                    s1.inner.utxo.index() == old(self).inner.utxo.index(),
                    t == msg.transaction@,
                    relay == outbox_view(old(out)@) + broadcast(old(self).peers(), old(self).local_peer@, peer_id@, inv_msg("tx"@, seq![t.id])),
                    prefix_of(relay, outbox_view(out@)),
                    first_round ==> self.unchanged(&s1) && tx_views(pool@) == s1.pool() && outbox_view(out@) == relay,
                    !first_round ==> scan_verify(s1.ledger(), s1.pool()) != Ok::<Seq<TxView>, LedgerError>(Seq::empty()),
                    mining_run(states, pools, outs, now),
                    states[0] == s1,
                    pools[0] == s1.pool(),
                    outs[0] == relay,
                    states.last() == *self,
                    pools.last() == tx_views(pool@),
                    outs.last() == outbox_view(out@),
                    tx_views(pool@).len() >= 2,
                    first_round <==> states.len() == 1,
                ensures
                    self.wf(),
                    self.same_but_ledger(&s1),
                    s1.ledger() == old(self).ledger(),
                    s1.pool() == inserted(old(self).pool(), t),
                    s1.pool().len() >= 2 && s1.wallet_address@.len() > 0,
                    s1.peers() == old(self).peers(),
                    s1.in_transit() == old(self).in_transit(),
                    s1.wallet_address@ == old(self).wallet_address@,
                    s1.local_peer@ == old(self).local_peer@,
                    s1.inner.utxo.index() == old(self).inner.utxo.index(),
                    t == msg.transaction@,
                    relay == outbox_view(old(out)@) + broadcast(old(self).peers(), old(self).local_peer@, peer_id@, inv_msg("tx"@, seq![t.id])),
                    prefix_of(relay, outbox_view(out@)),
                    scan_verify(s1.ledger(), s1.pool()) != Ok::<Seq<TxView>, LedgerError>(Seq::empty()),
                    mining_run(states, pools, outs, now),
                    states.len() >= 2,
                    states[0] == s1,
                    pools[0] == s1.pool(),
                    outs[0] == relay,
                    states.last().ledger() == self.ledger(),
                    states.last().inner.utxo.index() == self.inner.utxo.index(),
                    pools.last().len() < 2,
                    outs.last() == outbox_view(out@),
                decreases pool@.len(),
            {
                let ghost before = *self;
                let ghost before_pool = tx_views(pool@);
                let res = self.mine_round(&mut pool, now, out);
                match res {
                    Err(e) => {
                        assert(round_stops(&before, before_pool, now, Err::<(), LedgerError>(e)));
                        assert(mining_outcome(old(self), s1.pool(), now, relay, self, outbox_view(out@), Err::<(), LedgerError>(e))) by {
                            assert(pools.last() == tx_views(pool@));
                        }
                        return Err(e);
                    },
                    Ok(false) => {
                        assert(round_stops(&before, before_pool, now, Ok::<(), LedgerError>(())));
                        assert(mining_outcome(old(self), s1.pool(), now, relay, self, outbox_view(out@), Ok::<(), LedgerError>(()))) by {
                            assert(pools.last() == tx_views(pool@));
                        }
                        return Ok(());
                    },
                    Ok(true) => {},
                }
                proof {
                    let n = states.len();
                    let old_states = states;
                    let old_pools = pools;
                    let old_outs = outs;
                    states = states.push(*self);
                    pools = pools.push(tx_views(pool@));
                    outs = outs.push(outbox_view(out@));
                    assert forall|r: int| 0 <= r < states.len() implies (#[trigger] states[r]).peers() == states[0].peers()
                        && states[r].wallet_address@ == states[0].wallet_address@
                        && states[r].local_peer@ == states[0].local_peer@ by {
                        if r < n {
                            assert(states[r] == old_states[r]);
                        }
                    }
                    assert forall|r: int| 0 <= r < states.len() - 1 implies (#[trigger] pools[r]).len() >= 2 && round_mined(
                        &states[r],
                        &states[r + 1],
                        scan_verify(states[r].ledger(), pools[r]).unwrap(),
                        pools[r],
                        pools[r + 1],
                        now,
                        outs[r],
                        outs[r + 1],
                    ) by {
                        if r < n - 1 {
                            assert(states[r] == old_states[r] && states[r + 1] == old_states[r + 1]);
                            assert(pools[r] == old_pools[r] && pools[r + 1] == old_pools[r + 1]);
                            assert(outs[r] == old_outs[r] && outs[r + 1] == old_outs[r + 1]);
                            assert(old_pools[r].len() >= 2);
                        } else {
                            assert(states[r] == old_states.last() && pools[r] == old_pools.last() && outs[r] == old_outs.last());
                        }
                    }
                    assert(mining_run(states, pools, outs, now));
                    first_round = false;
                }
                if pool.len() < 2 {
                    break;
                }
            }
            self.clear_mempool();
            assert(mining_outcome(old(self), s1.pool(), now, relay, self, outbox_view(out@), Ok::<(), LedgerError>(())));
        } else {
            assert(self.wf());
            assert(outbox_view(out@) == relay);
        }
        Ok(())
    }

    /// Handles one message from `peer_id`, received at `now`.
    #[verifier::rlimit(40)]
    pub fn handle_message(&mut self, message: Message, peer_id: &String, now: u128, out: &mut Vec<Outbound>) -> (r: Result<(), LedgerError>)
        requires
            old(self).wf(),
        ensures
            final(self).wf(),
            match message@ {
                MsgView::Version { version, best_height } => r is Ok && final(self).unchanged(old(self))
                    && outbox_view(final(out)@) == version_reply(old(self), best_height, peer_id@, outbox_view(old(out)@)),
                MsgView::Tx { transaction } => tx_step(old(self), final(self), transaction, peer_id@, now, outbox_view(old(out)@), outbox_view(final(out)@), r),
                MsgView::GetData { kind, id } => final(self).unchanged(old(self))
                    && get_data_step(old(self), kind, id, peer_id@, outbox_view(old(out)@), outbox_view(final(out)@), r),
                MsgView::GetBlock => r is Ok && final(self).unchanged(old(self))
                    && outbox_view(final(out)@) == sent(outbox_view(old(out)@), old(self).local_peer@, peer_id@, inv_msg("block"@, walk_hashes(old(self).ledger()))),
                MsgView::Inv { kind, items } => r is Ok
                    && inv_step(old(self), final(self), kind, items, peer_id@, outbox_view(old(out)@), outbox_view(final(out)@)),
                MsgView::Block { block } => r is Ok
                    && block_step(old(self), final(self), block, peer_id@, outbox_view(old(out)@), outbox_view(final(out)@)),
            },
    {
        match message {
            Message::Tx(data) => self.handle_tx(data, peer_id, now, out),
            Message::Version(data) => {
                self.handle_version(&data, peer_id, out);
                Ok(())
            },
            Message::Block(data) => {
                self.handle_block(data, peer_id, out);
                Ok(())
            },
            Message::GetBlock => {
                self.handle_get_blocks(peer_id, out);
                Ok(())
            },
            Message::GetData(data) => self.handle_get_data(&data, peer_id, out),
            Message::Inv(data) => {
                self.handle_inv(&data, peer_id, out);
                Ok(())
            },
        }
    }
}

proof fn lemma_scan_err(v: LedgerView, pool: Seq<TxView>, k: int, e: LedgerError)
    requires
        0 < k <= pool.len(),
        scan_verify(v, pool.subrange(0, k)) == Err::<Seq<TxView>, LedgerError>(e),
    ensures
        scan_verify(v, pool) == Err::<Seq<TxView>, LedgerError>(e),
    decreases pool.len() - k,
{
    if k < pool.len() {
        assert(pool.subrange(0, k + 1).drop_last() =~= pool.subrange(0, k));
        lemma_scan_err(v, pool, k + 1, e);
    } else {
        assert(pool.subrange(0, k) =~= pool);
    }
}

/// A copy of a list of strings.
pub fn copy_strings(v: &Vec<String>) -> (r: Vec<String>)
    ensures
        strings_view(r@) == strings_view(v@),
{
    let mut r: Vec<String> = Vec::new();
    let mut k: usize = 0;
    while k < v.len()
        invariant
            k <= v@.len(),
            r@.len() == k,
            forall|i: int| 0 <= i < k ==> (#[trigger] r@[i])@ == v@[i]@,
        decreases v@.len() - k,
    {
        r.push(v[k].clone());
        k += 1;
    }
    assert(strings_view(r@) =~= strings_view(v@));
    r
}

} // verus!
