//! Transaction inputs and outputs.
use vstd::prelude::*;
use vstd::string::*;
use crate::digest::{ripemd160_digest, ripemd160_of, sha256_digest, sha256_of};
use crate::error::LedgerError;

verus! {

/// What the decoding of an address text yields: the public-key hash it
/// carries, or nothing where the text is no valid address.
pub uninterp spec fn address_body_of(address: Seq<char>) -> Option<Seq<u8>>;

/// Relies on bitcoincash_addr::Address::decode (CashAddr, else Base58): the
/// body bytes. Its CashAddr decoder panics on a prefix with a valid checksum
/// and at most nine characters after the `:`, so such text is left out.
#[verifier::external_body]
fn decode_address(address: &str) -> (r: Option<Vec<u8>>)
    requires
        !short_after_colon(address@),
    ensures
        match r {
            Some(b) => address_body_of(address@) == Some(b@),
            None => address_body_of(address@) is None,
        },
{
    match bitcoincash_addr::Address::decode(address) {
        Ok(a) => Some(a.body),
        Err(_) => None,
    }
}

/// `s` holds a `:` with at most nine characters after it. No such text is
/// an address: a CashAddr payload carries a version byte and an eight-
/// character checksum, and Base58 text holds no `:`.
pub open spec fn short_after_colon(s: Seq<char>) -> bool {
    exists|i: int| 0 <= i < s.len() && s[i] == ':' && s.len() - i <= 10
}

/// The public-key hash that the address text `s` carries, if it is one.
pub open spec fn address_hash(s: Seq<char>) -> Option<Seq<u8>> {
    if short_after_colon(s) { None } else { address_body_of(s) }
}

/// Decodes the address text `address` to the public-key hash it carries.
pub fn decode(address: &str) -> (r: Option<Vec<u8>>)
    ensures
        match r {
            Some(b) => address_hash(address@) == Some(b@),
            None => address_hash(address@) is None,
        },
{
    let n = address.unicode_len();
    let mut i: usize = if n >= 10 { n - 10 } else { 0 };
    while i < n
        invariant
            n == address@.len(),
            i <= n,
            n - i <= 10,
            forall|k: int| 0 <= k < i && address@[k] == ':' ==> address@.len() - k > 10,
        decreases n - i,
    {
        if address.get_char(i) == ':' {
            assert(address@[i as int] == ':' && address@.len() - i <= 10);
            assert(short_after_colon(address@));
            return None;
        }
        i += 1;
    }
    decode_address(address)
}

/// The hash that locks an output to the owner of `pub_key`.
pub open spec fn pub_key_hash_of(pub_key: Seq<u8>) -> Seq<u8> {
    ripemd160_of(sha256_of(pub_key))
}

/// The public-key hash of `pub_key`: RIPEMD-160 over its SHA-256 digest.
pub fn hash_pub_key(pub_key: &[u8]) -> (r: Vec<u8>)
    ensures
        r@ == pub_key_hash_of(pub_key@),
{
    let d = sha256_digest(pub_key);
    ripemd160_digest(d.as_slice())
}

/// Whether two byte strings are equal.
pub fn bytes_eq(a: &[u8], b: &[u8]) -> (r: bool)
    ensures
        r == (a@ == b@),
{
    if a.len() != b.len() {
        return false;
    }
    let mut i: usize = 0;
    while i < a.len()
        invariant
            a@.len() == b@.len(),
            i <= a@.len(),
            forall|k: int| 0 <= k < i ==> a@[k] == b@[k],
        decreases a@.len() - i,
    {
        if a[i] != b[i] {
            return false;
        }
        i += 1;
    }
    assert(a@ =~= b@);
    true
}

/// A copy of a byte string.
pub fn copy_bytes(v: &Vec<u8>) -> (r: Vec<u8>)
    ensures
        r@ == v@,
{
    let r = v.clone();
    assert(r@ =~= v@);
    r
}

/// The mathematical value of an input.
pub struct InputView {
    pub txid: Seq<char>,
    pub vout: i32,
    pub signature: Seq<u8>,
    pub pub_key: Seq<u8>,
}

/// The mathematical value of an output.
pub struct OutputView {
    pub value: i32,
    pub pub_key_hash: Seq<u8>,
}

/// An input: the output it spends, named by transaction id and index, the
/// signature over the transaction, and the spender's public key.
#[derive(Debug, Clone)]
pub struct TXInput {
    pub txid: String,
    pub vout: i32,
    pub signature: Vec<u8>,
    pub pub_key: Vec<u8>,
}

/// An output: an amount, locked to a public-key hash.
#[derive(Debug, Clone)]
pub struct TXOutput {
    pub value: i32,
    pub pub_key_hash: Vec<u8>,
}

/// The outputs of one transaction that are still unspent.
#[derive(Debug, Clone)]
pub struct TXOutputs {
    pub outputs: Vec<TXOutput>,
}

impl View for TXInput {
    type V = InputView;

    open spec fn view(&self) -> InputView {
        InputView {
            txid: self.txid@,
            vout: self.vout,
            signature: self.signature@,
            pub_key: self.pub_key@,
        }
    }
}

impl View for TXOutput {
    type V = OutputView;

    open spec fn view(&self) -> OutputView {
        OutputView { value: self.value, pub_key_hash: self.pub_key_hash@ }
    }
}

impl View for TXOutputs {
    type V = Seq<OutputView>;

    open spec fn view(&self) -> Seq<OutputView> {
        self.outputs@.map_values(|o: TXOutput| o@)
    }
}

impl TXInput {
    /// A copy of this input.
    pub fn copy(&self) -> (r: TXInput)
        ensures
            r@ == self@,
    {
        TXInput {
            txid: self.txid.clone(),
            vout: self.vout,
            signature: copy_bytes(&self.signature),
            pub_key: copy_bytes(&self.pub_key),
        }
    }

    /// Whether this input was made by the owner of `unlocking_data`, a public-key hash.
    pub fn can_unlock_output_with(&self, unlocking_data: &[u8]) -> (r: bool)
        ensures
            r == (pub_key_hash_of(self.pub_key@) == unlocking_data@),
    {
        let pub_key_hash = hash_pub_key(self.pub_key.as_slice());
        bytes_eq(pub_key_hash.as_slice(), unlocking_data)
    }
}

impl TXOutput {
    /// A copy of this output.
    pub fn copy(&self) -> (r: TXOutput)
        ensures
            r@ == self@,
    {
        TXOutput { value: self.value, pub_key_hash: copy_bytes(&self.pub_key_hash) }
    }

    /// Whether this output is locked to the public-key hash `unlocking_data`.
    pub fn can_be_unlock_with(&self, unlocking_data: &[u8]) -> (r: bool)
        ensures
            r == (self.pub_key_hash@ == unlocking_data@),
    {
        bytes_eq(self.pub_key_hash.as_slice(), unlocking_data)
    }

    /// Locks this output to the public-key hash that `address` carries.
    fn lock(&mut self, address: &str) -> (r: Result<(), LedgerError>)
        ensures
            match address_hash(address@) {
                Some(b) => r is Ok && final(self)@ == (OutputView { pub_key_hash: b, ..old(self)@ }),
                None => r == Err::<(), LedgerError>(LedgerError::InvalidAddress) && final(self)@ == old(self)@,
            },
    {
        match decode(address) {
            Some(body) => {
                self.pub_key_hash = body;
                Ok(())
            },
            None => Err(LedgerError::InvalidAddress),
        }
    }

    /// An output of `value` locked to `address`; fails where the address does not decode.
    pub fn new(value: i32, address: String) -> (r: Result<TXOutput, LedgerError>)
        ensures
            match address_hash(address@) {
                Some(b) => r matches Ok(o) && o@ == (OutputView { value, pub_key_hash: b }),
                None => r == Err::<TXOutput, LedgerError>(LedgerError::InvalidAddress),
            },
    {
        let mut txo = TXOutput { value, pub_key_hash: Vec::new() };
        match txo.lock(address.as_str()) {
            Ok(()) => Ok(txo),
            Err(e) => Err(e),
        }
    }
}

impl TXOutputs {
    /// A copy of these outputs.
    pub fn copy(&self) -> (r: TXOutputs)
        ensures
            r@ == self@,
    {
        TXOutputs { outputs: copy_outputs(&self.outputs) }
    }
}

/// A copy of a list of outputs.
pub fn copy_outputs(v: &Vec<TXOutput>) -> (r: Vec<TXOutput>)
    ensures
        r@.map_values(|o: TXOutput| o@) == v@.map_values(|o: TXOutput| o@),
{
    let mut r: Vec<TXOutput> = Vec::new();
    let mut i: usize = 0;
    while i < v.len()
        invariant
            i <= v@.len(),
            r@.len() == i,
            forall|k: int| 0 <= k < i ==> (#[trigger] r@[k])@ == v@[k]@,
        decreases v@.len() - i,
    {
        r.push(v[i].copy());
        i += 1;
    }
    assert(r@.map_values(|o: TXOutput| o@) =~= v@.map_values(|o: TXOutput| o@));
    r
}

} // verus!
