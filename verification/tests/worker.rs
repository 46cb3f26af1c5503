//! The mining worker's state machine: command handling, cancellation,
//! and one-shot emission.

use ishishnet::address::Address;
use ishishnet::mining::{IshIshCommand, MinerState};
use ishishnet::node::Node;

fn candidate_at_difficulty_one() -> ishishnet::blockchain::IshIshBlock {
    let mut node = Node::new(1);
    node.open_signer(Address::from_bytes([0xa1; 20]));
    node.start_command().expect("signer is open")
}

#[test]
fn worker_cancellation() {
    let mut worker = MinerState::new();
    let candidate = candidate_at_difficulty_one();
    worker.handle_command(IshIshCommand::MineBlock(candidate));
    worker.handle_command(IshIshCommand::Start);
    worker.handle_command(IshIshCommand::Stop);

    // Stopped: no block comes out, however long we let it try.
    for _ in 0..16 {
        assert!(worker.mine_step(4096).is_none());
    }
    assert!(worker.current.is_some());

    // Start again: the search resumes from the most recent candidate.
    worker.handle_command(IshIshCommand::Start);
    let mut mined = None;
    while mined.is_none() {
        mined = worker.mine_step(4096);
    }
    let mined = mined.unwrap();
    assert_eq!(mined.header.number, 0);
    assert_eq!(mined.header.coinbase.bytes, [0xa1; 20]);
    assert_eq!(mined.header.difficulty, 1);
    // One shot per candidate: the worker dropped it on success.
    assert!(worker.current.is_none());
    assert!(worker.mine_step(4096).is_none());
}

#[test]
fn worker_without_candidate_is_idle() {
    let mut worker = MinerState::new();
    worker.handle_command(IshIshCommand::Start);
    assert!(worker.mine_step(4096).is_none());
}

#[test]
fn mine_block_replaces_candidate() {
    let mut worker = MinerState::new();
    let first = candidate_at_difficulty_one();
    worker.handle_command(IshIshCommand::MineBlock(first));

    // A superseding candidate from a different coinbase.
    let mut node = Node::new(1);
    node.open_signer(Address::from_bytes([0xb2; 20]));
    let second = node.start_command().expect("signer is open");
    worker.handle_command(IshIshCommand::MineBlock(second));
    worker.handle_command(IshIshCommand::Restart);

    let mut mined = None;
    while mined.is_none() {
        mined = worker.mine_step(4096);
    }
    // The emitted block corresponds to the superseding candidate.
    assert_eq!(mined.unwrap().header.coinbase.bytes, [0xb2; 20]);
}
