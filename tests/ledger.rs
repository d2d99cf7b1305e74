use bitcoincash_addr::{Address, HashType, Network, Scheme};
use crypto::digest::Digest;
use ledger_node::block::Block;
use ledger_node::blockchain::Blockchain;
use ledger_node::cli::{cmd_get_balance, cmd_reindex, Cli};
use ledger_node::digest::merge_nodes;
use ledger_node::encoding::{push_bytes, push_i32, push_u128, push_u64};
use ledger_node::error::LedgerError;
use ledger_node::transaction::Transaction;
use ledger_node::tx::{hash_pub_key, TXInput, TXOutput};
use ledger_node::utxoset::UTXOSet;

struct Wallet {
    secret: Vec<u8>,
    public: Vec<u8>,
    pkh: Vec<u8>,
    address: String,
}

fn wallet(seed: u8) -> Wallet {
    let (secret, public) = crypto::ed25519::keypair(&[seed; 32]);
    let pkh = hash_pub_key(&public);
    let address = Address::new(pkh.clone(), Scheme::CashAddr, HashType::Key, Network::Main)
        .encode()
        .unwrap();
    Wallet { secret: secret.to_vec(), public: public.to_vec(), pkh, address }
}

fn genesis_for(w: &Wallet) -> UTXOSet {
    let bc = Blockchain::create_blockchain(w.address.clone(), 1_700_000_000_000).unwrap();
    UTXOSet::new(bc)
}

#[test]
fn test_blockchain() {
    let b = Blockchain::new();
    println!("{:?}", b);
    assert_eq!(b.get_best_height(), -1);
    assert!(b.get_block_hashs().is_empty());
}

#[test]
fn genesis_pays_reward_at_height_zero() {
    let a = wallet(1);
    let utxo = genesis_for(&a);
    assert_eq!(utxo.balance(&a.pkh), 100);
    assert_eq!(utxo.blockchain.get_best_height(), 0);
    assert_eq!(utxo.blockchain.get_block_hashs().len(), 1);
    let genesis = utxo.blockchain.get_block(&utxo.blockchain.get_tip_hash()).unwrap();
    assert_eq!(genesis.get_prev_hash(), "");
    assert_eq!(genesis.get_transaction().len(), 1);
    assert!(genesis.get_transaction()[0].is_coinbase());
}

#[test]
fn payment_moves_value_and_returns_change() {
    let a = wallet(1);
    let b = wallet(2);
    let miner = wallet(3);
    let mut utxo = genesis_for(&a);
    let tx = Transaction::new_UTXO(&a.address, &b.address, 40, &a.public, &a.secret, &utxo).unwrap();
    assert_eq!(tx.vout.len(), 2);
    assert_eq!(tx.vout[0].value, 40);
    assert_eq!(tx.vout[0].pub_key_hash, b.pkh);
    assert_eq!(tx.vout[1].value, 60);
    assert_eq!(tx.vout[1].pub_key_hash, a.pkh);
    let mut unsigned = tx.copy();
    for i in unsigned.vin.iter_mut() {
        i.signature.clear();
    }
    assert_eq!(tx.id, unsigned.hash());
    let cb = Transaction::new_coinbase(miner.address.clone(), String::new()).unwrap();
    let block = utxo.blockchain.mine_block(vec![tx, cb], 1_700_000_000_100).unwrap();
    assert_eq!(block.get_height(), 1);
    utxo.reindex();
    assert_eq!(utxo.balance(&a.pkh), 60);
    assert_eq!(utxo.balance(&b.pkh), 40);
    assert_eq!(utxo.balance(&miner.pkh), 100);
}

#[test]
fn payment_beyond_balance_is_refused() {
    let a = wallet(1);
    let b = wallet(2);
    let utxo = genesis_for(&a);
    let r = Transaction::new_UTXO(&a.address, &b.address, 101, &a.public, &a.secret, &utxo);
    assert!(matches!(r, Err(LedgerError::InsufficientFunds)));
    assert_eq!(utxo.balance(&a.pkh), 100);
}

#[test]
fn exact_payment_has_no_change() {
    let a = wallet(1);
    let b = wallet(2);
    let utxo = genesis_for(&a);
    let tx = Transaction::new_UTXO(&a.address, &b.address, 100, &a.public, &a.secret, &utxo).unwrap();
    assert_eq!(tx.vout.len(), 1);
    assert_eq!(tx.vin.len(), 1);
}

#[test]
fn signed_payment_verifies_and_tampering_fails() {
    let a = wallet(1);
    let b = wallet(2);
    let utxo = genesis_for(&a);
    let tx = Transaction::new_UTXO(&a.address, &b.address, 30, &a.public, &a.secret, &utxo).unwrap();
    assert_eq!(tx.vin[0].signature.len(), 64);
    assert_eq!(utxo.blockchain.verify_transaction(&tx), Ok(true));

    let mut bad_sig = tx.copy();
    bad_sig.vin[0].signature[5] ^= 1;
    assert_eq!(utxo.blockchain.verify_transaction(&bad_sig), Ok(false));

    let mut bad_lock = tx.copy();
    bad_lock.vout[0].pub_key_hash[0] ^= 1;
    assert_eq!(utxo.blockchain.verify_transaction(&bad_lock), Ok(false));
}

#[test]
fn unknown_previous_transaction_is_reported() {
    let a = wallet(1);
    let utxo = genesis_for(&a);
    let mut tx = Transaction {
        id: String::new(),
        vin: vec![TXInput { txid: "feed".to_string(), vout: 0, signature: Vec::new(), pub_key: a.public.clone() }],
        vout: vec![TXOutput { value: 1, pub_key_hash: a.pkh.clone() }],
    };
    tx.id = tx.hash();
    assert_eq!(utxo.blockchain.verify_transaction(&tx), Err(LedgerError::MissingPreviousTransaction));
    assert_eq!(
        utxo.blockchain.sign_transaction(&mut tx, &a.secret),
        Err(LedgerError::MissingPreviousTransaction)
    );
    assert!(tx.vin[0].signature.is_empty());
}

#[test]
fn mining_refuses_a_transaction_that_does_not_verify() {
    let a = wallet(1);
    let b = wallet(2);
    let mut utxo = genesis_for(&a);
    let mut tx = Transaction::new_UTXO(&a.address, &b.address, 30, &a.public, &a.secret, &utxo).unwrap();
    tx.vin[0].signature[0] ^= 0x80;
    let tip = utxo.blockchain.get_tip_hash();
    let r = utxo.blockchain.mine_block(vec![tx], 5);
    assert!(matches!(r, Err(LedgerError::InvalidTransaction)));
    assert_eq!(utxo.blockchain.get_tip_hash(), tip);
}

#[test]
fn mined_block_hash_starts_with_zeros() {
    let a = wallet(1);
    let cb = Transaction::new_coinbase(a.address.clone(), "data".to_string()).unwrap();
    let block = Block::new_block(vec![cb], "abc".to_string(), 7, 42).unwrap();
    let h = block.get_hash();
    assert_eq!(h.len(), 64);
    assert!(h.starts_with("0000"));
    assert_eq!(block.get_height(), 7);
    assert_eq!(block.get_prev_hash(), "abc");
    assert!(block.nonce >= 0);
}

#[test]
fn block_hash_is_digest_of_header() {
    let a = wallet(1);
    let cb = Transaction::new_coinbase(a.address.clone(), String::new()).unwrap();
    let block = Block::new_genesis_block(cb, 99).unwrap();
    let root = block.get_root_hash_merkle_tree_transactions();
    let mut data = Vec::new();
    push_bytes(&mut data, b"");
    push_bytes(&mut data, &root);
    push_u128(&mut data, 99);
    push_u64(&mut data, 4);
    push_i32(&mut data, block.nonce);
    let mut hasher = crypto::sha2::Sha256::new();
    hasher.input(&data);
    assert_eq!(block.get_hash(), hasher.result_str());
}

#[test]
fn chain_links_each_block_to_the_one_below() {
    let a = wallet(1);
    let b = wallet(2);
    let mut utxo = genesis_for(&a);
    for t in 0..2u128 {
        let cb = Transaction::new_coinbase(b.address.clone(), format!("round {}", t)).unwrap();
        utxo.blockchain.mine_block(vec![cb], 10 + t).unwrap();
    }
    let blocks = utxo.blockchain.walk_blocks();
    assert_eq!(blocks.len(), 3);
    for blk in &blocks {
        if blk.get_prev_hash().is_empty() {
            assert_eq!(blk.get_height(), 0);
        } else {
            let prev = utxo.blockchain.get_block(&blk.get_prev_hash()).unwrap();
            assert_eq!(prev.get_height(), blk.get_height() - 1);
        }
    }
    let mut it = utxo.blockchain.iter();
    let mut heights = Vec::new();
    while let Some(blk) = it.next() {
        heights.push(blk.get_height());
    }
    assert_eq!(heights, vec![2, 1, 0]);
}

#[test]
fn appending_the_same_block_twice_changes_nothing_more() {
    let a = wallet(1);
    let base = genesis_for(&a).blockchain;
    let mut source = Blockchain::create_blockchain(a.address.clone(), 1).unwrap();
    let cb = Transaction::new_coinbase(a.address.clone(), "x".to_string()).unwrap();
    let block = source.mine_block(vec![cb], 2).unwrap();
    let mut bc = base;
    bc.add_block(block.copy()).unwrap();
    let tip = bc.get_tip_hash();
    let n = bc.stored_blocks().len();
    bc.add_block(block.copy()).unwrap();
    assert_eq!(bc.get_tip_hash(), tip);
    assert_eq!(bc.stored_blocks().len(), n);
    assert_eq!(n, 2);
}

#[test]
fn lower_block_is_stored_without_moving_the_tip() {
    let a = wallet(1);
    let mut bc = Blockchain::create_blockchain(a.address.clone(), 1).unwrap();
    let cb = Transaction::new_coinbase(a.address.clone(), "y".to_string()).unwrap();
    bc.mine_block(vec![cb], 2).unwrap();
    let tip = bc.get_tip_hash();
    let cb2 = Transaction::new_coinbase(a.address.clone(), "z".to_string()).unwrap();
    let side = Block::new_block(vec![cb2], "elsewhere".to_string(), 1, 3).unwrap();
    bc.add_block(side.copy()).unwrap();
    assert_eq!(bc.get_tip_hash(), tip);
    assert_eq!(bc.stored_blocks().len(), 3);
    assert!(bc.get_block(&side.get_hash()).is_ok());
}

#[test]
fn unknown_block_is_not_found() {
    let a = wallet(1);
    let utxo = genesis_for(&a);
    assert!(matches!(utxo.blockchain.get_block(&"nothing".to_string()), Err(LedgerError::NotFound)));
    assert!(matches!(utxo.blockchain.find_transaction(&"nothing".to_string()), Err(LedgerError::NotFound)));
}

#[test]
fn bad_address_is_refused() {
    assert!(matches!(TXOutput::new(5, "not an address".to_string()), Err(LedgerError::InvalidAddress)));
    assert!(matches!(Blockchain::create_blockchain("nope".to_string(), 0), Err(LedgerError::InvalidAddress)));
    assert!(matches!(Transaction::new_coinbase("nope".to_string(), String::new()), Err(LedgerError::InvalidAddress)));
}

#[test]
fn output_lock_is_the_decoded_hash() {
    let a = wallet(4);
    let o = TXOutput::new(9, a.address.clone()).unwrap();
    assert_eq!(o.pub_key_hash, a.pkh);
    assert_eq!(o.pub_key_hash.len(), 20);
    assert!(o.can_be_unlock_with(&a.pkh));
    assert!(!o.can_be_unlock_with(a.address.as_bytes()));
}

#[test]
fn input_unlocks_with_its_key_hash() {
    let a = wallet(5);
    let b = wallet(6);
    let i = TXInput { txid: "t".to_string(), vout: 0, signature: Vec::new(), pub_key: a.public.clone() };
    assert!(i.can_unlock_output_with(&a.pkh));
    assert!(!i.can_unlock_output_with(&b.pkh));
    assert_ne!(hash_pub_key(&a.public), a.public);
}

#[test]
fn height_at_the_limit_cannot_be_extended() {
    let a = wallet(1);
    let mut bc = Blockchain::create_blockchain(a.address.clone(), 1).unwrap();
    let top = Block {
        timestamp: 0,
        transactions: Vec::new(),
        prev_block_hash: String::new(),
        hash: "top".to_string(),
        height: i32::MAX,
        nonce: 0,
    };
    bc.add_block(top).unwrap();
    assert_eq!(bc.get_best_height(), i32::MAX);
    let cb = Transaction::new_coinbase(a.address.clone(), String::new()).unwrap();
    assert!(matches!(bc.mine_block(vec![cb], 3), Err(LedgerError::HeightOverflow)));
}

#[test]
fn spendable_outputs_stop_once_covered() {
    let a = wallet(1);
    let mut utxo = genesis_for(&a);
    for t in 0..2u128 {
        let cb = Transaction::new_coinbase(a.address.clone(), format!("r{}", t)).unwrap();
        utxo.blockchain.mine_block(vec![cb], 20 + t).unwrap();
    }
    utxo.reindex();
    assert_eq!(utxo.count_transactions(), 3);
    assert_eq!(utxo.balance(&a.pkh), 300);
    let (acc, taken) = utxo.find_spendable_outputs(&a.pkh, 150);
    assert_eq!(acc, 200);
    assert_eq!(taken.len(), 2);
    assert_eq!(taken[0].1, vec![0]);
    assert_eq!(utxo.find_UTXO(&a.pkh).outputs.len(), 3);
    let (none, empty) = utxo.find_spendable_outputs(&wallet(9).pkh, 1);
    assert_eq!(none, 0);
    assert!(empty.is_empty());
}

#[test]
fn balance_is_value_locked_minus_value_spent() {
    let a = wallet(1);
    let b = wallet(2);
    let c = wallet(3);
    let mut utxo = genesis_for(&a);
    let t1 = Transaction::new_UTXO(&a.address, &b.address, 70, &a.public, &a.secret, &utxo).unwrap();
    let cb1 = Transaction::new_coinbase(c.address.clone(), "1".to_string()).unwrap();
    utxo.blockchain.mine_block(vec![t1, cb1], 50).unwrap();
    utxo.reindex();
    let t2 = Transaction::new_UTXO(&b.address, &a.address, 25, &b.public, &b.secret, &utxo).unwrap();
    let cb2 = Transaction::new_coinbase(c.address.clone(), "2".to_string()).unwrap();
    utxo.blockchain.mine_block(vec![t2, cb2], 51).unwrap();
    utxo.reindex();
    // locked to A: 100 (genesis) + 30 (change) + 25; spent: 100
    assert_eq!(utxo.balance(&a.pkh), 55);
    // locked to B: 70 + 45 (change); spent: 70
    assert_eq!(utxo.balance(&b.pkh), 45);
    assert_eq!(utxo.balance(&c.pkh), 200);
    assert_eq!(cmd_get_balance(&utxo, &a.address), Ok(55));
    assert_eq!(cmd_get_balance(&utxo, "junk"), Err(LedgerError::InvalidAddress));
    let _cli = Cli::new();
    assert_eq!(cmd_reindex(&mut utxo), 4);
}

#[test]
fn transaction_id_is_digest_of_encoding_without_id() {
    let tx = Transaction {
        id: "ignored".to_string(),
        vin: Vec::new(),
        vout: vec![TXOutput { value: 1, pub_key_hash: vec![7] }],
    };
    let mut expected = vec![0u8; 8];
    expected.extend_from_slice(&[0; 8]);
    expected.extend_from_slice(&[1, 0, 0, 0, 0, 0, 0, 0]);
    expected.extend_from_slice(&[1, 0, 0, 0]);
    expected.extend_from_slice(&[1, 0, 0, 0, 0, 0, 0, 0, 7]);
    let mut cleared = tx.copy();
    cleared.id = String::new();
    assert_eq!(cleared.encode(), expected);
    let mut hasher = crypto::sha2::Sha256::new();
    hasher.input(&expected);
    assert_eq!(tx.hash(), hasher.result_str());
    assert_eq!(tx.hash().len(), 64);
}

#[test]
fn coinbase_carries_data_and_note() {
    let a = wallet(1);
    let cb = Transaction::new_coinbase(a.address.clone(), "hello ".to_string()).unwrap();
    assert!(cb.is_coinbase());
    assert_eq!(cb.vin[0].vout, -1);
    assert_eq!(cb.vin[0].pub_key, format!("hello Reward to : {}", a.address).into_bytes());
    assert_eq!(cb.vout[0].value, 100);
    assert_eq!(cb.id, cb.hash());
    // signing a coinbase changes nothing, and it always verifies
    let mut copy = cb.copy();
    copy.sign(&a.secret, &Vec::new()).unwrap();
    assert_eq!(copy.vin[0].signature.len(), 0);
    assert_eq!(cb.verify(&Vec::new()), Ok(true));
}

#[test]
fn merkle_root_of_two_merges_both_leaves() {
    let a = wallet(1);
    let c1 = Transaction::new_coinbase(a.address.clone(), "p".to_string()).unwrap();
    let c2 = Transaction::new_coinbase(a.address.clone(), "q".to_string()).unwrap();
    let l1 = c1.hash().into_bytes();
    let l2 = c2.hash().into_bytes();
    let block = Block { timestamp: 0, transactions: vec![c1, c2], prev_block_hash: String::new(), hash: String::new(), height: 0, nonce: 0 };
    let root = block.get_root_hash_merkle_tree_transactions();
    assert_eq!(root.len(), 32);
    assert_eq!(root, merge_nodes(&l1, &l2));
    let mut both = l1.clone();
    both.extend_from_slice(&l2);
    let mut hasher = crypto::sha2::Sha256::new();
    hasher.input(&both);
    let mut d = vec![0u8; 32];
    hasher.result(&mut d);
    assert_eq!(root, d);
}

#[test]
fn integers_encode_little_endian() {
    let mut out = Vec::new();
    push_u64(&mut out, 0x0102_0304_0506_0708);
    assert_eq!(out, vec![8, 7, 6, 5, 4, 3, 2, 1]);
    let mut out = Vec::new();
    push_i32(&mut out, -2);
    assert_eq!(out, vec![0xfe, 0xff, 0xff, 0xff]);
    let mut out = Vec::new();
    push_u128(&mut out, 1u128 << 64);
    assert_eq!(out, vec![0, 0, 0, 0, 0, 0, 0, 0, 1, 0, 0, 0, 0, 0, 0, 0]);
    let mut out = Vec::new();
    push_bytes(&mut out, &[9, 9]);
    assert_eq!(out, vec![2, 0, 0, 0, 0, 0, 0, 0, 9, 9]);
}

#[test]
fn incremental_update_agrees_with_rebuild() {
    let a = wallet(1);
    let b = wallet(2);
    let c = wallet(3);
    let mut utxo = genesis_for(&a);
    let tx = Transaction::new_UTXO(&a.address, &b.address, 40, &a.public, &a.secret, &utxo).unwrap();
    let cb = Transaction::new_coinbase(c.address.clone(), String::new()).unwrap();
    let block = utxo.blockchain.mine_block(vec![tx, cb], 60).unwrap();
    utxo.update(&block).unwrap();
    assert_eq!(utxo.count_transactions(), 2);
    assert_eq!(utxo.balance(&a.pkh), 60);
    assert_eq!(utxo.balance(&b.pkh), 40);
    assert_eq!(utxo.balance(&c.pkh), 100);
    utxo.reindex();
    assert_eq!(utxo.count_transactions(), 2);
    assert_eq!(utxo.balance(&a.pkh), 60);
    assert_eq!(utxo.balance(&b.pkh), 40);
}

#[test]
fn update_naming_an_unknown_transaction_changes_nothing() {
    let a = wallet(1);
    let mut utxo = genesis_for(&a);
    let bad = Transaction {
        id: "bad".to_string(),
        vin: vec![TXInput { txid: "zzz".to_string(), vout: 0, signature: Vec::new(), pub_key: Vec::new() }],
        vout: vec![TXOutput { value: 5, pub_key_hash: a.pkh.clone() }],
    };
    let block = Block { timestamp: 0, transactions: vec![bad], prev_block_hash: String::new(), hash: "h".to_string(), height: 1, nonce: 0 };
    assert_eq!(utxo.update(&block), Err(LedgerError::NotFound));
    assert_eq!(utxo.count_transactions(), 1);
    assert_eq!(utxo.balance(&a.pkh), 100);
}

#[test]
fn walk_ends_after_the_first_block() {
    let a = wallet(1);
    let utxo = genesis_for(&a);
    let mut it = utxo.blockchain.iter();
    assert!(it.next().is_some());
    assert!(it.next().is_none());
    assert!(it.next().is_none());
}

#[test]
fn unspent_transactions_of_an_owner() {
    let a = wallet(1);
    let b = wallet(2);
    let c = wallet(3);
    let mut utxo = genesis_for(&a);
    let pay = Transaction::new_UTXO(&a.address, &b.address, 40, &a.public, &a.secret, &utxo).unwrap();
    let cb = Transaction::new_coinbase(c.address.clone(), String::new()).unwrap();
    let pay_id = pay.id.clone();
    let cb_id = cb.id.clone();
    utxo.blockchain.mine_block(vec![pay, cb], 70).unwrap();
    let for_a = utxo.blockchain.find_unspent_transactions(&a.pkh);
    assert_eq!(for_a.len(), 1);
    assert_eq!(for_a[0].id, pay_id);
    let for_b = utxo.blockchain.find_unspent_transactions(&b.pkh);
    assert_eq!(for_b.len(), 1);
    assert_eq!(for_b[0].id, pay_id);
    let for_c = utxo.blockchain.find_unspent_transactions(&c.pkh);
    assert_eq!(for_c.len(), 1);
    assert_eq!(for_c[0].id, cb_id);
    assert!(utxo.blockchain.find_unspent_transactions(&wallet(8).pkh).is_empty());
}

#[test]
fn spending_takes_output_indices_not_positions() {
    let a = wallet(1);
    let b = wallet(2);
    let c = wallet(3);
    let mut utxo = genesis_for(&a);
    // P pays 40 to B (output 0) and 60 back to A (output 1)
    let p = Transaction::new_UTXO(&a.address, &b.address, 40, &a.public, &a.secret, &utxo).unwrap();
    let p_id = p.id.clone();
    let cb = Transaction::new_coinbase(c.address.clone(), "1".to_string()).unwrap();
    let blk = utxo.blockchain.mine_block(vec![p, cb], 80).unwrap();
    utxo.update(&blk).unwrap();
    // B spends (P, 0)
    let q = Transaction::new_UTXO(&b.address, &c.address, 40, &b.public, &b.secret, &utxo).unwrap();
    assert_eq!((q.vin[0].txid.clone(), q.vin[0].vout), (p_id.clone(), 0));
    let cb2 = Transaction::new_coinbase(c.address.clone(), "2".to_string()).unwrap();
    let blk2 = utxo.blockchain.mine_block(vec![q, cb2], 81).unwrap();
    utxo.update(&blk2).unwrap();
    // A's spendable output is (P, 1)
    let (acc, taken) = utxo.find_spendable_outputs(&a.pkh, 10);
    assert_eq!(acc, 60);
    assert_eq!(taken, vec![(p_id.clone(), vec![1])]);
    let r = Transaction::new_UTXO(&a.address, &c.address, 10, &a.public, &a.secret, &utxo).unwrap();
    assert_eq!((r.vin[0].txid.clone(), r.vin[0].vout), (p_id.clone(), 1));
    assert_eq!(utxo.blockchain.verify_transaction(&r), Ok(true));
    let cb3 = Transaction::new_coinbase(c.address.clone(), "3".to_string()).unwrap();
    let blk3 = utxo.blockchain.mine_block(vec![r, cb3], 82).unwrap();
    // update drops P's entry, as a rebuild does
    utxo.update(&blk3).unwrap();
    let updated: Vec<String> = utxo.utxos.iter().map(|e| e.0.clone()).collect();
    assert!(!updated.contains(&p_id));
    let a_bal = utxo.balance(&a.pkh);
    utxo.reindex();
    assert_eq!(utxo.balance(&a.pkh), a_bal);
    assert_eq!(a_bal, 50);
    let rebuilt: Vec<String> = utxo.utxos.iter().map(|e| e.0.clone()).collect();
    assert_eq!(updated.len(), rebuilt.len());
}

#[test]
fn short_text_after_a_colon_is_no_address() {
    assert!(matches!(TXOutput::new(1, "bitcoincash:qqqqqqqq".to_string()), Err(LedgerError::InvalidAddress)));
    assert!(matches!(TXOutput::new(1, "bitcoincash:".to_string()), Err(LedgerError::InvalidAddress)));
}

fn one_block_spending_within_itself() -> Block {
    let a = Transaction {
        id: "a".to_string(),
        vin: vec![TXInput { txid: String::new(), vout: -1, signature: Vec::new(), pub_key: vec![1] }],
        vout: vec![TXOutput { value: 5, pub_key_hash: Vec::new() }],
    };
    let b = Transaction {
        id: "b".to_string(),
        vin: vec![TXInput { txid: "a".to_string(), vout: 0, signature: Vec::new(), pub_key: Vec::new() }],
        vout: Vec::new(),
    };
    Block { timestamp: 0, transactions: vec![a, b], prev_block_hash: String::new(), hash: "h".to_string(), height: 0, nonce: 0 }
}

#[test]
fn output_spent_in_its_own_block_leaves_the_index() {
    let mut bc = Blockchain::new();
    bc.add_block(one_block_spending_within_itself()).unwrap();
    assert!(bc.find_UTXO().is_empty());
    let utxo = UTXOSet::new(bc);
    assert_eq!(utxo.balance(&[]), 0);
    assert!(utxo.find_UTXO(&[]).outputs.is_empty());
    let (acc, taken) = utxo.find_spendable_outputs(&[], 5);
    assert_eq!(acc, 0);
    assert!(taken.is_empty());
}

#[test]
fn update_and_rebuild_agree_on_a_block_spending_within_itself() {
    let block = one_block_spending_within_itself();
    let mut utxo = UTXOSet::new(Blockchain::new());
    utxo.update(&block).unwrap();
    assert_eq!(utxo.count_transactions(), 0);
    utxo.blockchain.add_block(block).unwrap();
    utxo.reindex();
    assert_eq!(utxo.count_transactions(), 0);
}

#[test]
fn encoding_matches_bincode_of_the_same_values() {
    let tx = Transaction {
        id: "id-é".to_string(),
        vin: vec![TXInput { txid: "prev".to_string(), vout: -3, signature: vec![1, 2, 3], pub_key: vec![9; 5] }],
        vout: vec![TXOutput { value: 40, pub_key_hash: vec![7; 20] }, TXOutput { value: -1, pub_key_hash: Vec::new() }],
    };
    let as_tuple = (
        tx.id.clone(),
        tx.vin.iter().map(|i| (i.txid.clone(), i.vout, i.signature.clone(), i.pub_key.clone())).collect::<Vec<_>>(),
        tx.vout.iter().map(|o| (o.value, o.pub_key_hash.clone())).collect::<Vec<_>>(),
    );
    assert_eq!(tx.encode(), bincode::serialize(&as_tuple).unwrap());

    let a = wallet(1);
    let cb = Transaction::new_coinbase(a.address.clone(), String::new()).unwrap();
    let block = Block::new_block(vec![cb], "prev".to_string(), 3, 77).unwrap();
    let root = block.get_root_hash_merkle_tree_transactions();
    let header = ("prev".to_string(), root.clone(), 77u128, 4usize, block.nonce);
    let mut data = Vec::new();
    push_bytes(&mut data, b"prev");
    push_bytes(&mut data, &root);
    push_u128(&mut data, 77);
    push_u64(&mut data, 4);
    push_i32(&mut data, block.nonce);
    assert_eq!(data, bincode::serialize(&header).unwrap());
    let mut hasher = crypto::sha2::Sha256::new();
    hasher.input(&bincode::serialize(&header).unwrap());
    assert_eq!(block.get_hash(), hasher.result_str());
}
