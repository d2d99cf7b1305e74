//! Hashing and signatures, computed by outside crates.
//!
//! Each function here names what the outside code returns: a SHA-256 digest,
//! its hex text, a Merkle root, an Ed25519 signature and its check. Nothing
//! else is assumed of them.
use vstd::prelude::*;
use crypto::digest::Digest;
use merkle_cbt::merkle_tree::Merge;

verus! {

/// The 32 bytes of the SHA-256 digest of `data`.
pub uninterp spec fn sha256_of(data: Seq<u8>) -> Seq<u8>;

/// The lowercase hex digit for `n` (below 16).
pub open spec fn hex_digit(n: int) -> char {
    "0123456789abcdef"@[n]
}

/// Lowercase hex text of `b`: two digits per byte, high half first.
pub open spec fn hex_lower(b: Seq<u8>) -> Seq<char> {
    Seq::new(2 * b.len(), |i: int| if i % 2 == 0 { hex_digit(b[i / 2] as int / 16) } else { hex_digit(b[i / 2] as int % 16) })
}

/// The 20 bytes of the RIPEMD-160 digest of `data`.
pub uninterp spec fn ripemd160_of(data: Seq<u8>) -> Seq<u8>;

/// Node `i` of the complete binary Merkle tree over `leaves`, stored as an
/// array: the last `leaves.len()` nodes are the leaves, and node `i` before
/// them is the SHA-256 digest of nodes `2i + 1` and `2i + 2` concatenated.
pub open spec fn merkle_node(leaves: Seq<Seq<u8>>, i: int) -> Seq<u8>
    decreases 2 * leaves.len() - i,
{
    if i < 0 || i >= 2 * leaves.len() - 1 {
        Seq::empty()
    } else if i >= leaves.len() - 1 {
        leaves[i - (leaves.len() - 1)]
    } else {
        sha256_of(merkle_node(leaves, 2 * i + 1) + merkle_node(leaves, 2 * i + 2))
    }
}

/// The root of that tree: node 0, or nothing where there are no leaves.
pub open spec fn merkle_root_of(leaves: Seq<Seq<u8>>) -> Seq<u8> {
    if leaves.len() == 0 { Seq::empty() } else { merkle_node(leaves, 0) }
}

/// The Ed25519 signature of `message` under the 64-byte `secret_key`.
pub uninterp spec fn ed25519_signature_of(message: Seq<u8>, secret_key: Seq<u8>) -> Seq<u8>;

/// Whether `signature` is a valid Ed25519 signature of `message` under `public_key`.
pub uninterp spec fn ed25519_accepts(message: Seq<u8>, public_key: Seq<u8>, signature: Seq<u8>) -> bool;

/// Relies on crypto::sha2::Sha256 (input, then result): the 32-byte digest.
#[verifier::external_body]
pub(crate) fn sha256_digest(data: &[u8]) -> (r: Vec<u8>)
    ensures
        r@ == sha256_of(data@),
        r@.len() == 32,
{
    let mut hasher = crypto::sha2::Sha256::new();
    hasher.input(data);
    let mut out: Vec<u8> = vec![0u8; 32];
    hasher.result(&mut out);
    out
}

/// Relies on crypto::sha2::Sha256 (input, then result_str, which is
/// rustc-serialize's lowercase to_hex of the 32-byte digest).
#[verifier::external_body]
pub(crate) fn sha256_hex(data: &[u8]) -> (r: String)
    ensures
        r@ == hex_lower(sha256_of(data@)),
        r@.len() == 64,
{
    let mut hasher = crypto::sha2::Sha256::new();
    hasher.input(data);
    hasher.result_str()
}

/// Relies on crypto::ripemd160::Ripemd160 (input, then result): the 20-byte digest.
#[verifier::external_body]
pub(crate) fn ripemd160_digest(data: &[u8]) -> (r: Vec<u8>)
    ensures
        r@ == ripemd160_of(data@),
        r@.len() == 20,
{
    let mut hasher = crypto::ripemd160::Ripemd160::new();
    hasher.input(data);
    let mut out: Vec<u8> = vec![0u8; 20];
    hasher.result(&mut out);
    out
}

/// Inner node of the transaction Merkle tree: SHA-256 over both children.
pub struct MergeSha256;

impl Merge for MergeSha256 {
    type Item = Vec<u8>;

    fn merge(left: &Vec<u8>, right: &Vec<u8>) -> Vec<u8> {
        merge_nodes(left, right)
    }
}

/// The digest of two Merkle nodes: SHA-256 over `left` followed by `right`.
pub fn merge_nodes(left: &Vec<u8>, right: &Vec<u8>) -> (r: Vec<u8>)
    ensures
        r@ == sha256_of(left@ + right@),
{
    let mut data: Vec<u8> = left.clone();
    let mut i: usize = 0;
    while i < right.len()
        invariant
            i <= right@.len(),
            data@ == left@ + right@.subrange(0, i as int),
        decreases right@.len() - i,
    {
        data.push(right[i]);
        i += 1;
        assert(right@.subrange(0, i as int) == right@.subrange(0, i - 1) + seq![right@[i - 1]]);
    }
    assert(right@.subrange(0, right@.len() as int) == right@);
    sha256_digest(data.as_slice())
}

/// Relies on merkle_cbt's CBMT::build_merkle_tree (nodes[i] = merge of
/// nodes[2i+1] and nodes[2i+2], leaves last) and MerkleTree::root (nodes[0],
/// or an empty value for no leaves), with `MergeSha256` as the merge.
#[verifier::external_body]
pub(crate) fn merkle_root(leaves: &Vec<Vec<u8>>) -> (r: Vec<u8>)
    ensures
        r@ == merkle_root_of(leaves@.map_values(|l: Vec<u8>| l@)),
{
    merkle_cbt::merkle_tree::CBMT::<Vec<u8>, MergeSha256>::build_merkle_tree(leaves.as_slice()).root()
}

/// Relies on crypto::ed25519::signature; the key holds the seed and then the public key.
#[verifier::external_body]
pub(crate) fn ed25519_sign(message: &[u8], secret_key: &[u8]) -> (r: Vec<u8>)
    requires
        secret_key@.len() >= 64,
    ensures
        r@ == ed25519_signature_of(message@, secret_key@),
        r@.len() == 64,
{
    crypto::ed25519::signature(message, secret_key).to_vec()
}

/// Relies on crypto::ed25519::verify.
#[verifier::external_body]
pub(crate) fn ed25519_verify(message: &[u8], public_key: &[u8], signature: &[u8]) -> (r: bool)
    requires
        public_key@.len() >= 32,
        signature@.len() >= 64,
    ensures
        r == ed25519_accepts(message@, public_key@, signature@),
{
    crypto::ed25519::verify(message, public_key, signature)
}

} // verus!
