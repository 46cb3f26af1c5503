//! End-to-end scenarios driven through the node's decision core.

use ishishnet::address::Address;
use ishishnet::blockchain::{validate_pow, IshIshTransaction};
use ishishnet::codec::{deserialize_chain, serialize_chain, IshIshBlockchainEvent};
use ishishnet::mining::proof_of_work;
use ishishnet::node::Node;

fn a1() -> Address {
    Address::from_bytes([0xa1; 20])
}

fn a2() -> Address {
    Address::from_bytes([0xa2; 20])
}

/// Mines the node's current candidate and feeds the block back,
/// returning the next candidate.
fn mine_once(node: &mut Node) {
    let candidate = node.start_command().expect("signer is open");
    let mined = proof_of_work(candidate, node.difficulty).expect("nonce space exhausted");
    node.process_block(mined).expect("mined block must append");
}

#[test]
fn cold_start_mining() {
    let mut node = Node::new(1);
    node.open_signer(a1());
    let candidate = node.start_command().expect("signer is open");
    assert_eq!(candidate.header.number, 0);
    assert_eq!(candidate.header.coinbase.bytes, [0xa1; 20]);
    assert_eq!(candidate.header.prev_hash, [0u8; 32]);
    let mined = proof_of_work(candidate, 1).expect("nonce space exhausted");
    assert!(validate_pow(&mined, 1));
    node.process_block(mined).expect("mined block must append");
    assert_eq!(node.blockchain.blocks.len(), 1);
    assert_eq!(node.get_balance(a1()), 1);
    assert!(node.blockchain.verify_chain().is_ok());
}

#[test]
fn two_blocks_in_sequence() {
    let mut node = Node::new(1);
    node.open_signer(a1());
    mine_once(&mut node);
    mine_once(&mut node);
    assert_eq!(node.blockchain.blocks.len(), 2);
    assert_eq!(
        node.blockchain.blocks[1].header.prev_hash,
        node.blockchain.blocks[0].header.cur_hash
    );
    assert_eq!(node.get_balance(a1()), 2);
    assert!(node.blockchain.verify_chain().is_ok());
}

#[test]
fn transaction_flow() {
    let mut node = Node::new(1);
    node.open_signer(a1());
    mine_once(&mut node);
    mine_once(&mut node);
    assert_eq!(node.get_balance(a1()), 2);

    let tx = IshIshTransaction { from: a1(), to: a2(), amount: 1 };
    let frame = ishishnet::codec::tra_frame(&tx);
    assert_eq!(&frame[..3], b"TRA");
    node.on_new_transaction(tx);
    assert_eq!(node.transactions.len(), 1);

    mine_once(&mut node);
    assert_eq!(node.transactions.len(), 0);
    assert_eq!(node.get_balance(a1()), 2);
    assert_eq!(node.get_balance(a2()), 1);
}

#[test]
fn fork_choice_accept() {
    let mut local = Node::new(1);
    local.open_signer(a1());
    mine_once(&mut local);
    mine_once(&mut local);
    assert_eq!(local.blockchain.blocks.len(), 2);

    let mut peer = Node::new(1);
    peer.open_signer(a2());
    mine_once(&mut peer);
    mine_once(&mut peer);
    mine_once(&mut peer);
    assert_eq!(peer.blockchain.blocks.len(), 3);

    let frame = ishishnet::codec::nbm_frame(&peer.blockchain);
    let event = IshIshBlockchainEvent::try_from(&frame).expect("frame is well formed");
    let payload = match event {
        IshIshBlockchainEvent::NewBlockMined(p) => p,
        _ => panic!("expected a chain announcement"),
    };
    let received = deserialize_chain(&payload).expect("payload is a chain");
    let candidate = local.on_new_chain(received);
    assert_eq!(local.blockchain.blocks.len(), 3);
    assert_eq!(local.get_balance(a2()), 3);
    assert_eq!(local.get_balance(a1()), 0);
    let candidate = candidate.expect("signer is open");
    assert_eq!(candidate.header.number, 3);
    assert_eq!(
        candidate.header.prev_hash,
        local.blockchain.blocks[2].header.cur_hash
    );
}

#[test]
fn fork_choice_reject() {
    let mut local = Node::new(1);
    local.open_signer(a1());
    mine_once(&mut local);
    mine_once(&mut local);
    let before = serialize_chain(&local.blockchain);

    // An equal-length chain is ignored.
    let mut peer = Node::new(1);
    peer.open_signer(a2());
    mine_once(&mut peer);
    mine_once(&mut peer);
    local.on_new_chain(peer.blockchain);
    assert_eq!(serialize_chain(&local.blockchain), before);

    // A longer chain with a tampered link is ignored.
    let mut peer = Node::new(1);
    peer.open_signer(a2());
    for _ in 0..5 {
        mine_once(&mut peer);
    }
    let mut tampered = peer.blockchain;
    tampered.blocks[3].header.prev_hash = [7u8; 32];
    local.on_new_chain(tampered);
    assert_eq!(serialize_chain(&local.blockchain), before);
    assert_eq!(local.get_balance(a2()), 0);
}

#[test]
fn fork_choice_rule() {
    // The pure fork choice: strictly longer and verifying wins, anything
    // else keeps the current chain.
    let mut a = Node::new(1);
    a.open_signer(a1());
    mine_once(&mut a);
    let mut b = Node::new(1);
    b.open_signer(a2());
    mine_once(&mut b);
    mine_once(&mut b);

    let longer = ishishnet::node::process_new_blockchain(b.blockchain, a.blockchain);
    assert_eq!(longer.blocks.len(), 2);
    assert_eq!(longer.blocks[0].header.coinbase.bytes, [0xa2; 20]);

    let mut c = Node::new(1);
    c.open_signer(a1());
    mine_once(&mut c);
    // Equal length: the current chain stays.
    let mut d = Node::new(1);
    d.open_signer(a1());
    mine_once(&mut d);
    mine_once(&mut d);
    let kept = ishishnet::node::process_new_blockchain(c.blockchain, longer);
    assert_eq!(kept.blocks.len(), 2);

    // Longer but failing verification: the current chain stays.
    let mut e = Node::new(1);
    e.open_signer(a2());
    mine_once(&mut e);
    mine_once(&mut e);
    mine_once(&mut e);
    let mut tampered = e.blockchain;
    tampered.blocks[1].header.prev_hash = [3u8; 32];
    let kept = ishishnet::node::process_new_blockchain(tampered, kept);
    assert_eq!(kept.blocks.len(), 2);
}

#[test]
fn proposal_carries_at_most_three_transactions() {
    let mut node = Node::new(1);
    node.open_signer(a1());
    for amount in 1..=4 {
        node.on_new_transaction(IshIshTransaction { from: a1(), to: a2(), amount });
    }
    let candidate = node.start_command().expect("signer is open");
    assert_eq!(candidate.content.len(), 3);
    assert_eq!(candidate.content[0].amount, 1);
    assert_eq!(candidate.content[2].amount, 3);
}

#[test]
fn debit_saturates_at_zero() {
    // An uncovered transfer drains the sender to zero instead of
    // underflowing.
    let mut node = Node::new(1);
    node.open_signer(a1());
    mine_once(&mut node);
    assert_eq!(node.get_balance(a1()), 1);
    let tx = IshIshTransaction { from: a1(), to: a2(), amount: 5 };
    node.on_new_transaction(tx);
    mine_once(&mut node);
    // The coinbase reward lands first (balance 2), then the debit of 5
    // saturates the sender at zero while the receiver is credited in
    // full.
    assert_eq!(node.get_balance(a1()), 0);
    assert_eq!(node.get_balance(a2()), 5);
}
