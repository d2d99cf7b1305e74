//! Transactions: canonical id, coinbase construction, per-input signing and
//! verification.
use vstd::prelude::*;
use vstd::utf8::encode_utf8;
use crate::digest::{ed25519_accepts, ed25519_sign, ed25519_signature_of, ed25519_verify, sha256_hex, sha256_of, hex_lower};
use crate::encoding::{bytes_field, i32_le, push_bytes, push_i32, push_str, push_u64, str_field, u64_le};
use crate::error::LedgerError;
use crate::tx::{copy_bytes, InputView, OutputView, TXInput, TXOutput, address_hash};

verus! {

/// The value of a block reward.
pub const SUBSIDY: i32 = 100;

/// The mathematical value of a transaction.
pub struct TxView {
    pub id: Seq<char>,
    pub vin: Seq<InputView>,
    pub vout: Seq<OutputView>,
}

/// A transaction: its id, the outputs it spends and the outputs it creates.
#[derive(Debug, Clone)]
pub struct Transaction {
    pub id: String,
    pub vin: Vec<TXInput>,
    pub vout: Vec<TXOutput>,
}

impl View for Transaction {
    type V = TxView;

    open spec fn view(&self) -> TxView {
        TxView {
            id: self.id@,
            vin: self.vin@.map_values(|i: TXInput| i@),
            vout: self.vout@.map_values(|o: TXOutput| o@),
        }
    }
}

pub open spec fn tx_views(s: Seq<Transaction>) -> Seq<TxView> {
    s.map_values(|t: Transaction| t@)
}

pub open spec fn enc_input(i: InputView) -> Seq<u8> {
    str_field(i.txid) + i32_le(i.vout) + bytes_field(i.signature) + bytes_field(i.pub_key)
}

pub open spec fn enc_output(o: OutputView) -> Seq<u8> {
    i32_le(o.value) + bytes_field(o.pub_key_hash)
}

pub open spec fn enc_inputs(s: Seq<InputView>) -> Seq<u8>
    decreases s.len(),
{
    if s.len() == 0 {
        Seq::empty()
    } else {
        enc_inputs(s.drop_last()) + enc_input(s.last())
    }
}

pub open spec fn enc_outputs(s: Seq<OutputView>) -> Seq<u8>
    decreases s.len(),
{
    if s.len() == 0 {
        Seq::empty()
    } else {
        enc_outputs(s.drop_last()) + enc_output(s.last())
    }
}

/// The canonical bytes of a transaction.
pub open spec fn enc_tx(t: TxView) -> Seq<u8> {
    str_field(t.id) + u64_le(t.vin.len() as u64) + enc_inputs(t.vin) + u64_le(t.vout.len() as u64)
        + enc_outputs(t.vout)
}

/// The id of a transaction: the hex SHA-256 of its canonical bytes with the id cleared.
pub open spec fn tx_id_of(t: TxView) -> Seq<char> {
    hex_lower(sha256_of(enc_tx(TxView { id: Seq::empty(), ..t })))
}

pub open spec fn is_coinbase_view(t: TxView) -> bool {
    t.vin.len() == 1 && t.vin[0].txid.len() == 0 && t.vin[0].vout == -1
}

/// The text that a coinbase input carries after the free-form data.
pub open spec fn reward_note() -> Seq<char> {
    "Reward to : "@
}

/// The coinbase that pays the subsidy to the address `to`, whose text
/// decodes to `body`, carrying `data`.
pub open spec fn coinbase_spec(to: Seq<char>, data: Seq<char>, body: Seq<u8>) -> TxView {
    let t = TxView {
        id: Seq::empty(),
        vin: seq![InputView {
            txid: Seq::empty(),
            vout: -1i32,
            signature: Seq::empty(),
            pub_key: encode_utf8(data) + encode_utf8(reward_note()) + encode_utf8(to),
        }],
        vout: seq![OutputView { value: SUBSIDY, pub_key_hash: body }],
    };
    TxView { id: tx_id_of(t), ..t }
}

/// The first transaction of `prev`, from position `k` on, whose id is `txid`.
pub open spec fn lookup_from(prev: Seq<TxView>, txid: Seq<char>, k: int) -> Option<TxView>
    decreases prev.len() - k,
{
    if k < 0 || k >= prev.len() {
        None
    } else if prev[k].id == txid {
        Some(prev[k])
    } else {
        lookup_from(prev, txid, k + 1)
    }
}

pub open spec fn lookup_tx(prev: Seq<TxView>, txid: Seq<char>) -> Option<TxView> {
    lookup_from(prev, txid, 0)
}

/// The lock of the output that `inp` spends, where `prev` holds it.
pub open spec fn spent_lock(prev: Seq<TxView>, inp: InputView) -> Option<Seq<u8>> {
    match lookup_tx(prev, inp.txid) {
        Some(p) => if p.id.len() > 0 && 0 <= inp.vout < p.vout.len() {
            Some(p.vout[inp.vout as int].pub_key_hash)
        } else {
            None
        },
        None => None,
    }
}

/// Every input of `t` spends an output that `prev` holds.
pub open spec fn prevs_known(t: TxView, prev: Seq<TxView>) -> bool {
    forall|i: int| 0 <= i < t.vin.len() ==> (#[trigger] spent_lock(prev, t.vin[i])) is Some
}

pub open spec fn trimmed_input(i: InputView) -> InputView {
    InputView { signature: Seq::empty(), pub_key: Seq::empty(), ..i }
}

pub open spec fn trim_view(t: TxView) -> TxView {
    TxView { vin: t.vin.map_values(|i: InputView| trimmed_input(i)), ..t }
}

/// The copy of `t` whose id is signed for input `i`: no signatures, no keys,
/// and in input `i` the lock of the output it spends.
pub open spec fn signing_copy(t: TxView, i: int, lock: Seq<u8>) -> TxView {
    let trimmed = trim_view(t);
    TxView {
        vin: trimmed.vin.update(i, InputView { pub_key: lock, ..trimmed.vin[i] }),
        ..trimmed
    }
}

/// The message that input `i` of `t` signs.
pub open spec fn signing_message(t: TxView, prev: Seq<TxView>, i: int) -> Seq<u8> {
    encode_utf8(tx_id_of(signing_copy(t, i, spent_lock(prev, t.vin[i]).unwrap())))
}

/// Input `i` of `t` carries a valid signature of its message under its own key.
pub open spec fn input_verifies(t: TxView, prev: Seq<TxView>, i: int) -> bool {
    &&& t.vin[i].pub_key.len() >= 32
    &&& t.vin[i].signature.len() >= 64
    &&& ed25519_accepts(signing_message(t, prev, i), t.vin[i].pub_key, t.vin[i].signature)
}

/// `t` after every input has been signed with `key`.
pub open spec fn signed_view(t: TxView, prev: Seq<TxView>, key: Seq<u8>) -> TxView {
    TxView {
        vin: Seq::new(
            t.vin.len(),
            |i: int| InputView { signature: ed25519_signature_of(signing_message(t, prev, i), key), ..t.vin[i] },
        ),
        ..t
    }
}

fn encode_inputs(out: &mut Vec<u8>, vin: &Vec<TXInput>)
    ensures
        final(out)@ == old(out)@ + u64_le(vin@.len() as u64) + enc_inputs(vin@.map_values(|i: TXInput| i@)),
{
    push_u64(out, vin.len() as u64);
    let ghost start = out@;
    let ghost vs = vin@.map_values(|i: TXInput| i@);
    let mut k: usize = 0;
    while k < vin.len()
        invariant
            k <= vin@.len(),
            vs == vin@.map_values(|i: TXInput| i@),
            out@ == start + enc_inputs(vs.subrange(0, k as int)),
        decreases vin@.len() - k,
    {
        let inp = &vin[k];
        push_str(out, inp.txid.as_str());
        push_i32(out, inp.vout);
        push_bytes(out, inp.signature.as_slice());
        push_bytes(out, inp.pub_key.as_slice());
        k += 1;
        assert(vs.subrange(0, k as int).drop_last() == vs.subrange(0, k - 1));
    }
    assert(vs.subrange(0, vin@.len() as int) == vs);
}

fn encode_outputs(out: &mut Vec<u8>, vout: &Vec<TXOutput>)
    ensures
        final(out)@ == old(out)@ + u64_le(vout@.len() as u64) + enc_outputs(vout@.map_values(|o: TXOutput| o@)),
{
    push_u64(out, vout.len() as u64);
    let ghost start = out@;
    let ghost vs = vout@.map_values(|o: TXOutput| o@);
    let mut k: usize = 0;
    while k < vout.len()
        invariant
            k <= vout@.len(),
            vs == vout@.map_values(|o: TXOutput| o@),
            out@ == start + enc_outputs(vs.subrange(0, k as int)),
        decreases vout@.len() - k,
    {
        push_i32(out, vout[k].value);
        push_bytes(out, vout[k].pub_key_hash.as_slice());
        k += 1;
        assert(vs.subrange(0, k as int).drop_last() == vs.subrange(0, k - 1));
    }
    assert(vs.subrange(0, vout@.len() as int) == vs);
}

/// A copy of a list of inputs.
pub fn copy_inputs(v: &Vec<TXInput>) -> (r: Vec<TXInput>)
    ensures
        r@.map_values(|i: TXInput| i@) == v@.map_values(|i: TXInput| i@),
{
    let mut r: Vec<TXInput> = Vec::new();
    let mut k: usize = 0;
    while k < v.len()
        invariant
            k <= v@.len(),
            r@.len() == k,
            forall|j: int| 0 <= j < k ==> (#[trigger] r@[j])@ == v@[j]@,
        decreases v@.len() - k,
    {
        r.push(v[k].copy());
        k += 1;
    }
    assert(r@.map_values(|i: TXInput| i@) =~= v@.map_values(|i: TXInput| i@));
    r
}

impl Transaction {
    /// A copy of this transaction.
    pub fn copy(&self) -> (r: Transaction)
        ensures
            r@ == self@,
    {
        Transaction {
            id: self.id.clone(),
            vin: copy_inputs(&self.vin),
            vout: crate::tx::copy_outputs(&self.vout),
        }
    }

    /// The canonical bytes of this transaction.
    pub fn encode(&self) -> (r: Vec<u8>)
        ensures
            r@ == enc_tx(self@),
    {
        let mut out: Vec<u8> = Vec::new();
        push_str(&mut out, self.id.as_str());
        encode_inputs(&mut out, &self.vin);
        encode_outputs(&mut out, &self.vout);
        out
    }

    /// The id of this transaction: the hex SHA-256 of its canonical bytes, the id field cleared.
    pub fn hash(&self) -> (r: String)
        ensures
            r@ == tx_id_of(self@),
            r@.len() == 64,
    {
        let mut out: Vec<u8> = Vec::new();
        push_u64(&mut out, 0);
        encode_inputs(&mut out, &self.vin);
        encode_outputs(&mut out, &self.vout);
        assert(encode_utf8(Seq::<char>::empty()) =~= Seq::<u8>::empty());
        assert(out@ =~= enc_tx(TxView { id: Seq::empty(), ..self@ }));
        sha256_hex(out.as_slice())
    }

    /// Whether this is a coinbase: one input, with an empty id and index -1.
    pub fn is_coinbase(&self) -> (r: bool)
        ensures
            r == is_coinbase_view(self@),
    {
        self.vin.len() == 1 && self.vin[0].txid.as_str().is_empty() && self.vin[0].vout == -1
    }

    /// The reward transaction of a block: one input carrying `data` and a note
    /// naming `to`, one output of the subsidy locked to `to`.
    pub fn new_coinbase(to: String, data: String) -> (r: Result<Transaction, LedgerError>)
        ensures
            match address_hash(to@) {
                Some(b) => r matches Ok(t) && t@ == coinbase_spec(to@, data@, b) && is_coinbase_view(t@)
                    && t@.id.len() == 64,
                None => r == Err::<Transaction, LedgerError>(LedgerError::InvalidAddress),
            },
    {
        let mut note: Vec<u8> = Vec::new();
        append_bytes(&mut note, data.as_str().as_bytes());
        append_bytes(&mut note, "Reward to : ".as_bytes());
        append_bytes(&mut note, to.as_str().as_bytes());
        let out = match TXOutput::new(SUBSIDY, to) {
            Ok(o) => o,
            Err(e) => return Err(e),
        };
        let input = TXInput { txid: String::new(), vout: -1, signature: Vec::new(), pub_key: note };
        let mut vin: Vec<TXInput> = Vec::new();
        vin.push(input);
        let mut vout: Vec<TXOutput> = Vec::new();
        vout.push(out);
        let mut tx = Transaction { id: String::new(), vin, vout };
        assert(tx@.vin =~= seq![input@]);
        assert(tx@.vout =~= seq![out@]);
        tx.id = tx.hash();
        assert(tx@ =~= coinbase_spec(to@, data@, address_hash(to@).unwrap()));
        Ok(tx)
    }

    /// A copy with every input's signature and public key cleared.
    pub fn trim_copy(&self) -> (r: Transaction)
        ensures
            r@ == trim_view(self@),
    {
        let mut vin: Vec<TXInput> = Vec::new();
        let mut k: usize = 0;
        while k < self.vin.len()
            invariant
                k <= self.vin@.len(),
                vin@.len() == k,
                forall|j: int| 0 <= j < k ==> (#[trigger] vin@[j])@ == trimmed_input(self.vin@[j]@),
            decreases self.vin@.len() - k,
        {
            let v = &self.vin[k];
            vin.push(TXInput { txid: v.txid.clone(), vout: v.vout, signature: Vec::new(), pub_key: Vec::new() });
            k += 1;
        }
        let r = Transaction { id: self.id.clone(), vin, vout: crate::tx::copy_outputs(&self.vout) };
        assert(r@.vin =~= trim_view(self@).vin);
        r
    }

    /// The copy whose id input `i` signs, given the lock of the output it spends.
    fn signing_copy(&self, i: usize, lock: &Vec<u8>) -> (r: Transaction)
        requires
            i < self.vin@.len(),
        ensures
            r@ == signing_copy(self@, i as int, lock@),
    {
        let mut r = self.trim_copy();
        assert(r@.vin.len() == self@.vin.len());
        let mut vin: Vec<TXInput> = Vec::new();
        let mut k: usize = 0;
        while k < r.vin.len()
            invariant
                r@ == trim_view(self@),
                i < r.vin@.len(),
                k <= r.vin@.len(),
                vin@.len() == k,
                forall|j: int| 0 <= j < k ==> (#[trigger] vin@[j])@ == signing_copy(self@, i as int, lock@).vin[j],
            decreases r.vin@.len() - k,
        {
            assert(r@.vin[k as int] == r.vin@[k as int]@);
            if k == i {
                let v = &r.vin[k];
                vin.push(TXInput { txid: v.txid.clone(), vout: v.vout, signature: Vec::new(), pub_key: copy_bytes(lock) });
            } else {
                vin.push(r.vin[k].copy());
            }
            k += 1;
        }
        r.vin = vin;
        assert(r@.vin =~= signing_copy(self@, i as int, lock@).vin);
        r
    }
}

/// Appends the bytes of `b` to `out`.
pub fn append_bytes(out: &mut Vec<u8>, b: &[u8])
    ensures
        final(out)@ == old(out)@ + b@,
{
    let ghost start = out@;
    let mut i: usize = 0;
    while i < b.len()
        invariant
            i <= b@.len(),
            out@ == start + b@.subrange(0, i as int),
        decreases b@.len() - i,
    {
        out.push(b[i]);
        i += 1;
        assert(b@.subrange(0, i as int) == b@.subrange(0, i - 1) + seq![b@[i - 1]]);
    }
    assert(b@.subrange(0, b@.len() as int) == b@);
}


/// Position of the first transaction of `prev` whose id is `txid`.
pub fn find_prev(prev: &Vec<Transaction>, txid: &String) -> (r: Option<usize>)
    ensures
        match r {
            Some(k) => k < prev@.len() && lookup_tx(tx_views(prev@), txid@) == Some(prev@[k as int]@),
            None => lookup_tx(tx_views(prev@), txid@) is None,
        },
{
    let ghost ps = tx_views(prev@);
    let mut k: usize = 0;
    while k < prev.len()
        invariant
            k <= prev@.len(),
            ps == tx_views(prev@),
            lookup_tx(ps, txid@) == lookup_from(ps, txid@, k as int),
        decreases prev@.len() - k,
    {
        assert(ps[k as int] == prev@[k as int]@);
        if prev[k].id == *txid {
            return Some(k);
        }
        k += 1;
    }
    None
}

/// The lock of the output that `inp` spends, where `prev` holds it.
pub fn find_spent_lock(prev: &Vec<Transaction>, inp: &TXInput) -> (r: Option<Vec<u8>>)
    ensures
        match r {
            Some(l) => spent_lock(tx_views(prev@), inp@) == Some(l@),
            None => spent_lock(tx_views(prev@), inp@) is None,
        },
{
    match find_prev(prev, &inp.txid) {
        Some(k) => {
            let p = &prev[k];
            if p.id.as_str().is_empty() || inp.vout < 0 || inp.vout as usize >= p.vout.len() {
                None
            } else {
                assert(p@.vout[inp.vout as int] == p.vout@[inp.vout as int]@);
                Some(copy_bytes(&p.vout[inp.vout as usize].pub_key_hash))
            }
        },
        None => None,
    }
}

/// The locks of the outputs that the inputs of `t` spend, or `None` where one is not known.
fn find_spent_locks(t: &Transaction, prev: &Vec<Transaction>) -> (r: Option<Vec<Vec<u8>>>)
    ensures
        r is Some <==> prevs_known(t@, tx_views(prev@)),
        r matches Some(ls) ==> ls@.len() == t.vin@.len() && forall|i: int|
            0 <= i < ls@.len() ==> spent_lock(tx_views(prev@), t@.vin[i]) == Some((#[trigger] ls@[i])@),
{
    let mut locks: Vec<Vec<u8>> = Vec::new();
    let mut k: usize = 0;
    while k < t.vin.len()
        invariant
            k <= t.vin@.len(),
            locks@.len() == k,
            forall|i: int| 0 <= i < k ==> spent_lock(tx_views(prev@), t@.vin[i]) == Some((#[trigger] locks@[i])@),
        decreases t.vin@.len() - k,
    {
        assert(t@.vin[k as int] == t.vin@[k as int]@);
        match find_spent_lock(prev, &t.vin[k]) {
            Some(l) => locks.push(l),
            None => {
                assert(!prevs_known(t@, tx_views(prev@))) by {
                    assert(spent_lock(tx_views(prev@), t@.vin[k as int]) is None);
                }
                return None;
            },
        }
        k += 1;
    }
    assert(prevs_known(t@, tx_views(prev@))) by {
        assert forall|i: int| 0 <= i < t@.vin.len() implies (#[trigger] spent_lock(tx_views(prev@), t@.vin[i])) is Some by {
            assert(spent_lock(tx_views(prev@), t@.vin[i]) == Some(locks@[i]@));
        }
    }
    Some(locks)
}

impl Transaction {
    /// Signs every input with `private_key` (seed, then public key). A coinbase
    /// is left as it is. Fails, changing nothing, where an input spends an
    /// output that `prev_txs` does not hold.
    pub fn sign(&mut self, private_key: &[u8], prev_txs: &Vec<Transaction>) -> (r: Result<(), LedgerError>)
        requires
            !is_coinbase_view(old(self)@) ==> private_key@.len() >= 64,
        ensures
            is_coinbase_view(old(self)@) ==> r is Ok && final(self)@ == old(self)@,
            !is_coinbase_view(old(self)@) ==> (r is Ok <==> prevs_known(old(self)@, tx_views(prev_txs@))),
            !is_coinbase_view(old(self)@) && r is Ok ==> final(self)@ == signed_view(
                old(self)@,
                tx_views(prev_txs@),
                private_key@,
            ),
            r is Err ==> r == Err::<(), LedgerError>(LedgerError::MissingPreviousTransaction)
                && final(self)@ == old(self)@,
    {
        if self.is_coinbase() {
            return Ok(());
        }
        let locks = match find_spent_locks(self, prev_txs) {
            Some(ls) => ls,
            None => return Err(LedgerError::MissingPreviousTransaction),
        };
        let ghost t = self@;
        let ghost ps = tx_views(prev_txs@);
        let mut vin: Vec<TXInput> = Vec::new();
        let mut k: usize = 0;
        while k < self.vin.len()
            invariant
                self@ == t,
                private_key@.len() >= 64,
                locks@.len() == self.vin@.len(),
                forall|i: int| 0 <= i < locks@.len() ==> spent_lock(ps, t.vin[i]) == Some((#[trigger] locks@[i])@),
                ps == tx_views(prev_txs@),
                k <= self.vin@.len(),
                vin@.len() == k,
                forall|j: int| 0 <= j < k ==> (#[trigger] vin@[j])@ == signed_view(t, ps, private_key@).vin[j],
            decreases self.vin@.len() - k,
        {
            let copy = self.signing_copy(k, &locks[k]);
            let id = copy.hash();
            let signature = ed25519_sign(id.as_str().as_bytes(), private_key);
            assert(spent_lock(ps, t.vin[k as int]) == Some(locks@[k as int]@));
            let v = &self.vin[k];
            assert(t.vin[k as int] == v@);
            vin.push(TXInput { txid: v.txid.clone(), vout: v.vout, signature, pub_key: copy_bytes(&v.pub_key) });
            k += 1;
        }
        self.vin = vin;
        assert(self@.vin =~= signed_view(t, ps, private_key@).vin);
        Ok(())
    }

    /// Whether every input carries a valid signature under its own public key
    /// (always for a coinbase). Fails where an input spends an output that
    /// `prev_txs` does not hold.
    pub fn verify(&self, prev_txs: &Vec<Transaction>) -> (r: Result<bool, LedgerError>)
        ensures
            is_coinbase_view(self@) ==> r == Ok::<bool, LedgerError>(true),
            !is_coinbase_view(self@) ==> (r is Ok <==> prevs_known(self@, tx_views(prev_txs@))),
            !is_coinbase_view(self@) && r is Ok ==> r == Ok::<bool, LedgerError>(
                forall|i: int| 0 <= i < self@.vin.len() ==> #[trigger] input_verifies(self@, tx_views(prev_txs@), i),
            ),
            r is Err ==> r == Err::<bool, LedgerError>(LedgerError::MissingPreviousTransaction),
    {
        if self.is_coinbase() {
            return Ok(true);
        }
        let locks = match find_spent_locks(self, prev_txs) {
            Some(ls) => ls,
            None => return Err(LedgerError::MissingPreviousTransaction),
        };
        let ghost ps = tx_views(prev_txs@);
        let mut k: usize = 0;
        while k < self.vin.len()
            invariant
                locks@.len() == self.vin@.len(),
                forall|i: int| 0 <= i < locks@.len() ==> spent_lock(ps, self@.vin[i]) == Some((#[trigger] locks@[i])@),
                ps == tx_views(prev_txs@),
                prevs_known(self@, ps),
                k <= self.vin@.len(),
                forall|j: int| 0 <= j < k ==> #[trigger] input_verifies(self@, ps, j),
            decreases self.vin@.len() - k,
        {
            let copy = self.signing_copy(k, &locks[k]);
            let id = copy.hash();
            let v = &self.vin[k];
            assert(self@.vin[k as int] == v@);
            assert(spent_lock(ps, self@.vin[k as int]) == Some(locks@[k as int]@));
            if v.pub_key.len() < 32 || v.signature.len() < 64 {
                assert(!input_verifies(self@, ps, k as int));
                return Ok(false);
            }
            if !ed25519_verify(id.as_str().as_bytes(), v.pub_key.as_slice(), v.signature.as_slice()) {
                assert(!input_verifies(self@, ps, k as int));
                return Ok(false);
            }
            k += 1;
        }
        Ok(true)
    }
}

/// Signing changes no signed message: each input of the signed transaction
/// has the message it had before, since messages are computed with every
/// signature cleared.
pub proof fn lemma_signing_keeps_messages(t: TxView, prev: Seq<TxView>, key: Seq<u8>)
    requires
        prevs_known(t, prev),
    ensures
        prevs_known(signed_view(t, prev, key), prev),
        is_coinbase_view(signed_view(t, prev, key)) == is_coinbase_view(t),
        forall|i: int|
            0 <= i < t.vin.len() ==> #[trigger] signing_message(signed_view(t, prev, key), prev, i)
                == signing_message(t, prev, i),
{
    let s = signed_view(t, prev, key);
    assert(trim_view(s).vin =~= trim_view(t).vin);
    assert(trim_view(s) == trim_view(t));
    assert forall|i: int| 0 <= i < s.vin.len() implies (#[trigger] spent_lock(prev, s.vin[i])) is Some by {
        assert(spent_lock(prev, t.vin[i]) is Some);
        assert(s.vin[i].txid == t.vin[i].txid && s.vin[i].vout == t.vin[i].vout);
    }
    assert forall|i: int| 0 <= i < t.vin.len() implies #[trigger] signing_message(s, prev, i) == signing_message(t, prev, i) by {
        assert(s.vin[i].txid == t.vin[i].txid && s.vin[i].vout == t.vin[i].vout);
        assert(spent_lock(prev, s.vin[i]) == spent_lock(prev, t.vin[i]));
    }
}

/// Verifying a freshly signed transaction checks, input by input, exactly
/// that Ed25519 accepts the signature `key` made of the input's message under
/// the input's public key: signing and verifying agree on every message.
pub proof fn lemma_sign_then_verify(t: TxView, prev: Seq<TxView>, key: Seq<u8>)
    requires
        !is_coinbase_view(t),
        prevs_known(t, prev),
    ensures
        !is_coinbase_view(signed_view(t, prev, key)),
        prevs_known(signed_view(t, prev, key), prev),
        forall|i: int|
            0 <= i < t.vin.len() ==> (#[trigger] input_verifies(signed_view(t, prev, key), prev, i) <==> {
                let m = signing_message(t, prev, i);
                &&& t.vin[i].pub_key.len() >= 32
                &&& ed25519_signature_of(m, key).len() >= 64
                &&& ed25519_accepts(m, t.vin[i].pub_key, ed25519_signature_of(m, key))
            }),
{
    lemma_signing_keeps_messages(t, prev, key);
    let s = signed_view(t, prev, key);
    assert forall|i: int| 0 <= i < t.vin.len() implies (#[trigger] input_verifies(s, prev, i) <==> {
        let m = signing_message(t, prev, i);
        &&& t.vin[i].pub_key.len() >= 32
        &&& ed25519_signature_of(m, key).len() >= 64
        &&& ed25519_accepts(m, t.vin[i].pub_key, ed25519_signature_of(m, key))
    }) by {
        assert(signing_message(s, prev, i) == signing_message(t, prev, i));
    }
}

/// A copy of a list of transactions.
pub fn copy_transactions(v: &Vec<Transaction>) -> (r: Vec<Transaction>)
    ensures
        tx_views(r@) == tx_views(v@),
{
    let mut r: Vec<Transaction> = Vec::new();
    let mut k: usize = 0;
    while k < v.len()
        invariant
            k <= v@.len(),
            r@.len() == k,
            forall|j: int| 0 <= j < k ==> (#[trigger] r@[j])@ == v@[j]@,
        decreases v@.len() - k,
    {
        r.push(v[k].copy());
        k += 1;
    }
    assert(tx_views(r@) =~= tx_views(v@));
    r
}

} // verus!
