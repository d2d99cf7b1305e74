use bitcoincash_addr::{Address, HashType, Network, Scheme};
use ledger_node::block::Block;
use ledger_node::blockchain::Blockchain;
use ledger_node::message::{Blockmsg, GetDatamsg, Invmsg, Message, Outbound, Txmsg, Versionmsg};
use ledger_node::error::LedgerError;
use ledger_node::server::Server;
use ledger_node::transaction::Transaction;
use ledger_node::tx::hash_pub_key;
use ledger_node::utxoset::UTXOSet;

struct Wallet {
    secret: Vec<u8>,
    public: Vec<u8>,
    pkh: Vec<u8>,
    address: String,
}

fn wallet(seed: u8) -> Wallet {
    let (secret, public) = crypto::ed25519::keypair(&[seed; 32]);
    let pkh = hash_pub_key(&public);
    let address = Address::new(pkh.clone(), Scheme::CashAddr, HashType::Key, Network::Main)
        .encode()
        .unwrap();
    Wallet { secret: secret.to_vec(), public: public.to_vec(), pkh, address }
}

fn get_data_of(o: &Outbound) -> (String, String, String) {
    match &o.message {
        Message::GetData(GetDatamsg { kind, id }) => (o.peer.clone(), kind.clone(), id.clone()),
        other => panic!("expected a data request, got {:?}", other),
    }
}

fn inv_of(o: &Outbound) -> (String, String, Vec<String>) {
    match &o.message {
        Message::Inv(Invmsg { kind, items }) => (o.peer.clone(), kind.clone(), items.clone()),
        other => panic!("expected an inventory, got {:?}", other),
    }
}

/// A chain of a first block and three more, all paying `w`.
fn chain_of_four(w: &Wallet) -> (Blockchain, Vec<Block>) {
    let mut bc = Blockchain::create_blockchain(w.address.clone(), 1000).unwrap();
    let mut mined = Vec::new();
    for t in 0..3u128 {
        let cb = Transaction::new_coinbase(w.address.clone(), format!("b{}", t)).unwrap();
        mined.push(bc.mine_block(vec![cb], 1001 + t).unwrap());
    }
    (bc, mined)
}

fn node_with_genesis_of(source: &Blockchain, name: &str, wallet_address: &str) -> Server {
    let genesis = source.walk_blocks().pop().unwrap();
    let mut bc = Blockchain::new();
    bc.add_block(genesis).unwrap();
    Server::new(name.to_string(), wallet_address.to_string(), UTXOSet::new(bc))
}

#[test]
fn inventory_of_blocks_is_fetched_one_by_one() {
    let a = wallet(1);
    let (source, mined) = chain_of_four(&a);
    let hashes: Vec<String> = mined.iter().map(|b| b.get_hash()).collect();
    let mut node = node_with_genesis_of(&source, "B", "");
    let peer = "A".to_string();
    assert_eq!(node.inner.utxo.count_transactions(), 1);

    let mut out = Vec::new();
    let inv = Message::Inv(Invmsg { kind: "block".to_string(), items: hashes.clone() });
    node.handle_message(inv, &peer, 0, &mut out).unwrap();
    assert_eq!(out.len(), 1);
    assert_eq!(get_data_of(&out[0]), ("A".to_string(), "block".to_string(), hashes[0].clone()));
    assert_eq!(node.inner.blocks_in_transit, vec![hashes[1].clone(), hashes[2].clone()]);

    let mut out = Vec::new();
    node.handle_message(Message::Block(Blockmsg { block: mined[0].copy() }), &peer, 0, &mut out).unwrap();
    assert_eq!(out.len(), 1);
    assert_eq!(get_data_of(&out[0]), ("A".to_string(), "block".to_string(), hashes[1].clone()));
    assert_eq!(node.inner.blocks_in_transit, vec![hashes[2].clone()]);
    assert_eq!(node.inner.utxo.blockchain.get_tip_hash(), hashes[0]);

    let mut out = Vec::new();
    node.handle_message(Message::Block(Blockmsg { block: mined[1].copy() }), &peer, 0, &mut out).unwrap();
    assert_eq!(get_data_of(&out[0]).2, hashes[2]);
    assert!(node.inner.blocks_in_transit.is_empty());
    assert_eq!(node.inner.utxo.count_transactions(), 1);

    let mut out = Vec::new();
    node.handle_message(Message::Block(Blockmsg { block: mined[2].copy() }), &peer, 0, &mut out).unwrap();
    assert!(out.is_empty());
    assert_eq!(node.inner.utxo.blockchain.get_best_height(), 3);
    assert_eq!(node.inner.utxo.count_transactions(), 4);
    assert_eq!(node.inner.utxo.balance(&a.pkh), 400);
}

#[test]
fn version_from_a_higher_peer_asks_for_its_blocks() {
    let a = wallet(1);
    let (source, _) = chain_of_four(&a);
    let mut node = node_with_genesis_of(&source, "B", "");
    let peer = "A".to_string();

    let mut out = Vec::new();
    node.handle_message(Message::Version(Versionmsg { version: 1, best_height: 3 }), &peer, 0, &mut out).unwrap();
    assert_eq!(out.len(), 1);
    assert!(matches!(out[0].message, Message::GetBlock));
    assert_eq!(out[0].peer, "A");

    let mut out = Vec::new();
    node.handle_message(Message::Version(Versionmsg { version: 1, best_height: -1 }), &peer, 0, &mut out).unwrap();
    assert_eq!(out.len(), 1);
    assert!(matches!(out[0].message, Message::Version(Versionmsg { version: 1, best_height: 0 })));

    let mut out = Vec::new();
    node.handle_message(Message::Version(Versionmsg { version: 1, best_height: 0 }), &peer, 0, &mut out).unwrap();
    assert!(out.is_empty());
}

#[test]
fn request_for_blocks_is_answered_with_every_hash() {
    let a = wallet(1);
    let (source, mined) = chain_of_four(&a);
    let mut node = Server::new("A".to_string(), String::new(), UTXOSet::new(source));
    let mut out = Vec::new();
    node.handle_message(Message::GetBlock, &"B".to_string(), 0, &mut out).unwrap();
    let (peer, kind, items) = inv_of(&out[0]);
    assert_eq!(peer, "B");
    assert_eq!(kind, "block");
    assert_eq!(items.len(), 4);
    assert_eq!(items[0], mined[2].get_hash());
    assert_eq!(items[2], mined[0].get_hash());
}

#[test]
fn data_requests_send_what_is_held() {
    let a = wallet(1);
    let (source, mined) = chain_of_four(&a);
    let mut node = Server::new("A".to_string(), String::new(), UTXOSet::new(source));
    let peer = "B".to_string();

    let mut out = Vec::new();
    let ask = GetDatamsg { kind: "block".to_string(), id: mined[1].get_hash() };
    node.handle_message(Message::GetData(ask), &peer, 0, &mut out).unwrap();
    match &out[0].message {
        Message::Block(Blockmsg { block }) => assert_eq!(block.get_hash(), mined[1].get_hash()),
        other => panic!("expected a block, got {:?}", other),
    }

    let mut out = Vec::new();
    let ask = GetDatamsg { kind: "block".to_string(), id: "missing".to_string() };
    assert_eq!(node.handle_message(Message::GetData(ask), &peer, 0, &mut out), Err(LedgerError::NotFound));
    assert!(out.is_empty());

    let mut out = Vec::new();
    let ask = GetDatamsg { kind: "tx".to_string(), id: "missing".to_string() };
    node.handle_message(Message::GetData(ask), &peer, 0, &mut out).unwrap();
    assert!(out.is_empty());
}

#[test]
fn messages_to_self_are_dropped() {
    let a = wallet(1);
    let (source, _) = chain_of_four(&a);
    let node = Server::new("A".to_string(), String::new(), UTXOSet::new(source));
    let mut out = Vec::new();
    node.send_data(&"A".to_string(), Message::GetBlock, &mut out);
    assert!(out.is_empty());
    node.send_data(&"B".to_string(), Message::GetBlock, &mut out);
    assert_eq!(out.len(), 1);
}

#[test]
fn transaction_is_pooled_and_relayed_to_other_peers() {
    let a = wallet(1);
    let b = wallet(2);
    let bc = Blockchain::create_blockchain(a.address.clone(), 7).unwrap();
    let utxo = UTXOSet::new(bc);
    let tx = Transaction::new_UTXO(&a.address, &b.address, 5, &a.public, &a.secret, &utxo).unwrap();
    let mut node = Server::new("N".to_string(), String::new(), utxo);
    for p in ["P", "Q", "N"] {
        node.add_node(&p.to_string());
    }
    node.add_node(&"Q".to_string());
    assert_eq!(node.get_known_nodes().len(), 3);

    let mut out = Vec::new();
    node.handle_message(Message::Tx(Txmsg { transaction: tx.copy() }), &"P".to_string(), 0, &mut out).unwrap();
    assert_eq!(out.len(), 1);
    assert_eq!(inv_of(&out[0]), ("Q".to_string(), "tx".to_string(), vec![tx.id.clone()]));
    assert_eq!(node.inner.mempool.len(), 1);
    assert!(node.get_mempool_tx(&tx.id).is_some());

    let mut out = Vec::new();
    let inv = Message::Inv(Invmsg { kind: "tx".to_string(), items: vec![tx.id.clone()] });
    node.handle_message(inv, &"P".to_string(), 0, &mut out).unwrap();
    assert!(out.is_empty());

    let mut out = Vec::new();
    let inv = Message::Inv(Invmsg { kind: "tx".to_string(), items: vec!["other".to_string()] });
    node.handle_message(inv, &"P".to_string(), 0, &mut out).unwrap();
    assert_eq!(get_data_of(&out[0]), ("P".to_string(), "tx".to_string(), "other".to_string()));

    let mut out = Vec::new();
    let ask = GetDatamsg { kind: "tx".to_string(), id: tx.id.clone() };
    node.handle_message(Message::GetData(ask), &"P".to_string(), 0, &mut out).unwrap();
    match &out[0].message {
        Message::Tx(Txmsg { transaction }) => assert_eq!(transaction.id, tx.id),
        other => panic!("expected a transaction, got {:?}", other),
    }

    let mut out = Vec::new();
    let inv = Message::Inv(Invmsg { kind: "block".to_string(), items: Vec::new() });
    node.handle_message(inv, &"P".to_string(), 0, &mut out).unwrap();
    assert!(out.is_empty());
}

#[test]
fn two_pooled_transactions_are_mined_into_a_block() {
    let a = wallet(1);
    let b = wallet(2);
    let c = wallet(3);
    let m = wallet(4);
    let mut bc = Blockchain::create_blockchain(a.address.clone(), 7).unwrap();
    let cb = Transaction::new_coinbase(b.address.clone(), "to b".to_string()).unwrap();
    bc.mine_block(vec![cb], 8).unwrap();
    let utxo = UTXOSet::new(bc);
    let t1 = Transaction::new_UTXO(&a.address, &c.address, 10, &a.public, &a.secret, &utxo).unwrap();
    let t2 = Transaction::new_UTXO(&b.address, &c.address, 15, &b.public, &b.secret, &utxo).unwrap();
    let mut node = Server::new("N".to_string(), m.address.clone(), utxo);
    node.add_node(&"P".to_string());
    let peer = "P".to_string();

    let mut out = Vec::new();
    node.handle_message(Message::Tx(Txmsg { transaction: t1 }), &peer, 9, &mut out).unwrap();
    assert!(out.is_empty());
    assert_eq!(node.inner.mempool.len(), 1);
    assert_eq!(node.inner.utxo.blockchain.get_best_height(), 1);

    let mut out = Vec::new();
    node.handle_message(Message::Tx(Txmsg { transaction: t2 }), &peer, 9, &mut out).unwrap();
    assert_eq!(node.inner.utxo.blockchain.get_best_height(), 2);
    assert!(node.inner.mempool.is_empty());
    assert_eq!(out.len(), 1);
    let tip = node.inner.utxo.blockchain.get_tip_hash();
    assert_eq!(inv_of(&out[0]), ("P".to_string(), "block".to_string(), vec![tip.clone()]));
    let block = node.inner.utxo.blockchain.get_block(&tip).unwrap();
    assert_eq!(block.get_transaction().len(), 3);
    assert!(block.get_transaction()[2].is_coinbase());
    assert_eq!(node.inner.utxo.balance(&c.pkh), 25);
    assert_eq!(node.inner.utxo.balance(&m.pkh), 100);
    assert_eq!(node.inner.utxo.balance(&a.pkh), 90);
    assert_eq!(node.inner.utxo.balance(&b.pkh), 85);
}

#[test]
fn pooled_transactions_that_do_not_verify_are_not_mined() {
    let a = wallet(1);
    let b = wallet(2);
    let m = wallet(4);
    let bc = Blockchain::create_blockchain(a.address.clone(), 7).unwrap();
    let utxo = UTXOSet::new(bc);
    let mut t1 = Transaction::new_UTXO(&a.address, &b.address, 10, &a.public, &a.secret, &utxo).unwrap();
    let mut t2 = Transaction::new_UTXO(&a.address, &b.address, 20, &a.public, &a.secret, &utxo).unwrap();
    t1.vin[0].signature[1] ^= 4;
    t2.vin[0].signature[2] ^= 4;
    let mut node = Server::new("N".to_string(), m.address.clone(), utxo);
    let peer = "P".to_string();
    let mut out = Vec::new();
    node.handle_message(Message::Tx(Txmsg { transaction: t1 }), &peer, 9, &mut out).unwrap();
    node.handle_message(Message::Tx(Txmsg { transaction: t2 }), &peer, 9, &mut out).unwrap();
    assert!(out.is_empty());
    assert_eq!(node.inner.mempool.len(), 2);
    assert_eq!(node.inner.utxo.blockchain.get_best_height(), 0);
}

#[test]
fn sending_a_transaction_queues_it_for_the_peer() {
    let a = wallet(1);
    let cb = Transaction::new_coinbase(a.address.clone(), String::new()).unwrap();
    let bc = Blockchain::create_blockchain(a.address.clone(), 7).unwrap();
    let node = Server::new("N".to_string(), String::new(), UTXOSet::new(bc));
    let mut out = Vec::new();
    node.send_tx(&"P".to_string(), &cb, &mut out);
    match &out[0].message {
        Message::Tx(Txmsg { transaction }) => assert_eq!(transaction.id, cb.id),
        other => panic!("expected a transaction, got {:?}", other),
    }
    let mut out = Vec::new();
    node.request_blocks(&mut out);
    assert!(out.is_empty());
}

#[test]
fn block_requests_go_to_every_other_peer() {
    let a = wallet(1);
    let bc = Blockchain::create_blockchain(a.address.clone(), 7).unwrap();
    let mut node = Server::new("N".to_string(), String::new(), UTXOSet::new(bc));
    node.add_node(&"P".to_string());
    node.add_node(&"N".to_string());
    node.add_node(&"Q".to_string());
    let mut out = Vec::new();
    node.request_blocks(&mut out);
    assert_eq!(out.len(), 2);
    assert_eq!(out[0].peer, "P");
    assert_eq!(out[1].peer, "Q");
    assert!(out.iter().all(|o| matches!(o.message, Message::GetBlock)));
}
