//! Settlement details: per-occurrence pool eviction and the sealed
//! hash a mined block carries.

use ishishnet::address::Address;
use ishishnet::blockchain::{compute_block_hash, IshIshBlock, IshIshTransaction};
use ishishnet::mining::proof_of_work;
use ishishnet::node::Node;
use ishishnet::settlement::{get_address_balance, progress_state, Ledger};

fn a1() -> Address {
    Address::from_bytes([0xa1; 20])
}

fn a2() -> Address {
    Address::from_bytes([0xa2; 20])
}

#[test]
fn eviction_removes_one_occurrence_per_block_entry() {
    // The pool holds the same transaction twice; a block settling it
    // once evicts exactly the first copy.
    let tx = IshIshTransaction { from: a1(), to: a2(), amount: 3 };
    let single = vec![tx];
    let block = IshIshBlock::no_prev(a2(), &single, 0);
    assert_eq!(block.content.len(), 1);

    let mut pool = vec![tx, tx];
    let mut ledger = Ledger::new();
    progress_state(&mut ledger, &block, &mut pool);
    assert_eq!(pool.len(), 1);
    assert_eq!(pool[0], tx);

    // And the balances settled: the reward to the coinbase, the
    // transfer from sender (saturating at zero) to receiver.
    assert_eq!(get_address_balance(&ledger, a1()), 0);
    assert_eq!(get_address_balance(&ledger, a2()), 4);
}

#[test]
fn eviction_keeps_unmatched_entries_in_order() {
    let t1 = IshIshTransaction { from: a1(), to: a2(), amount: 1 };
    let t2 = IshIshTransaction { from: a1(), to: a2(), amount: 2 };
    let t3 = IshIshTransaction { from: a1(), to: a2(), amount: 3 };
    let settled = vec![t2];
    let block = IshIshBlock::no_prev(a2(), &settled, 0);

    let mut pool = vec![t1, t2, t3];
    let mut ledger = Ledger::new();
    progress_state(&mut ledger, &block, &mut pool);
    assert_eq!(pool, vec![t1, t3]);
}

#[test]
fn mined_block_carries_its_own_hash() {
    let empty: Vec<IshIshTransaction> = Vec::new();
    let candidate = IshIshBlock::no_prev(a1(), &empty, 1);
    let mined = proof_of_work(candidate, 1).expect("nonce space exhausted");
    // The stored hash is the recomputed hash, and it satisfies the
    // difficulty.
    assert_eq!(compute_block_hash(&mined), mined.header.cur_hash);
    assert_eq!(mined.header.cur_hash[0], 0);
}
