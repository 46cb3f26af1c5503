//! Chain verification and append: the errors and the cases they cover.

use ishishnet::address::Address;
use ishishnet::blockchain::{IshIshBlockchain, IshIshError};
use ishishnet::mining::proof_of_work;
use ishishnet::node::Node;

fn a1() -> Address {
    Address::from_bytes([0xa1; 20])
}

/// Mines `n` blocks at the node's difficulty.
fn grow(node: &mut Node, n: usize) {
    for _ in 0..n {
        let candidate = node.start_command().unwrap();
        let mined = proof_of_work(candidate, node.difficulty).unwrap();
        node.process_block(mined).unwrap();
    }
}

#[test]
fn append_rejects_invalid_proof_of_work() {
    let mut node = Node::new(4);
    node.open_signer(a1());
    // The unmined candidate (nonce 0) does not satisfy difficulty 4.
    let candidate = node.start_command().unwrap();
    let mut chain = IshIshBlockchain::new();
    assert_eq!(chain.append(candidate).unwrap_err(), IshIshError::InvalidProofOfWork);
    assert_eq!(chain.blocks.len(), 0);
}

#[test]
fn append_rejects_broken_link() {
    // Difficulty 0 makes every block's proof of work pass, isolating the
    // link check.
    let mut node = Node::new(0);
    node.open_signer(a1());
    grow(&mut node, 1);

    let mut other = Node::new(0);
    other.open_signer(a1());
    let foreign = proof_of_work(other.start_command().unwrap(), 0).unwrap();
    // A genesis-shaped block does not link to the existing tip.
    assert_eq!(
        node.blockchain.append(foreign).unwrap_err(),
        IshIshError::PrevHashMismatch
    );
    assert_eq!(node.blockchain.blocks.len(), 1);
}

#[test]
fn verify_chain_reports_broken_link() {
    let mut node = Node::new(0);
    node.open_signer(a1());
    grow(&mut node, 2);
    assert!(node.blockchain.verify_chain().is_ok());

    let mut tampered = node.blockchain;
    tampered.blocks[1].header.prev_hash = [9u8; 32];
    // Difficulty 0 keeps every proof of work valid, so the broken link
    // is what verification reports.
    assert_eq!(tampered.verify_chain().unwrap_err(), IshIshError::PrevHashMismatch);
}

#[test]
fn verify_chain_reports_invalid_proof_of_work() {
    let mut node = Node::new(1);
    node.open_signer(a1());
    grow(&mut node, 2);

    let mut tampered = node.blockchain;
    // Raising the stored difficulty invalidates the block's own proof.
    tampered.blocks[1].header.difficulty = 32;
    assert_eq!(
        tampered.verify_chain().unwrap_err(),
        IshIshError::InvalidProofOfWork
    );
}

#[test]
fn empty_chain_verifies() {
    let chain = IshIshBlockchain::new();
    assert!(chain.verify_chain().is_ok());
}
