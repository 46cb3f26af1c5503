//! The mining worker's decision core: its command-driven state machine
//! and the nonce search itself.

use vstd::prelude::*;

use crate::blockchain::{
    compute_block_hash, copy_block, hash_prefix_zero, pow_at, spec_block_hash, with_zero_cur,
    BlockView, HeaderView, IshIshBlock, IshIshError,
};
use vstd::arithmetic::div_mod::{lemma_mod_multiples_vanish, lemma_small_mod};

verus! {

/// What the node loop can ask of the mining worker.
pub enum IshIshCommand {
    MineBlock(IshIshBlock),
    Start,
    Restart,
    Stop,
}

/// A mined block corresponds to its candidate: everything agrees except
/// the nonce found and the hash written back.
pub open spec fn corresponds(m: BlockView, c: BlockView) -> bool {
    m.header.coinbase == c.header.coinbase && m.header.number == c.header.number
        && m.header.difficulty == c.header.difficulty && m.header.prev_hash == c.header.prev_hash
        && m.content == c.content
}

/// A block whose stored `cur_hash` really is its own hash.
pub open spec fn sealed(m: BlockView) -> bool {
    m.header.cur_hash == spec_block_hash(m)
}

/// The block with its nonce replaced.
pub open spec fn with_nonce(b: BlockView, n: u64) -> BlockView {
    BlockView {
        header: HeaderView { nonce: n, ..b.header },
        content: b.content,
    }
}

/// The nonce the search tries at step `k` from starting point `start`:
/// the sweep wraps around the whole 64-bit space.
pub open spec fn nonce_at(start: u64, k: u128) -> u64 {
    (((start as int) + (k as int)) % 0x10000000000000000) as u64
}

/// Tries `attempts` nonces from a random starting point. On success the
/// returned block carries the successful nonce and its own hash.
pub fn try_nonces(block: &IshIshBlock, difficulty: u8, attempts: u64) -> (r: Option<IshIshBlock>)
    ensures
        match r {
            Some(m) => corresponds(m@, block@) && pow_at(m@, difficulty) && sealed(m@),
            None => true,
        },
{
    let mut b = copy_block(block);
    let start = crate::crypto::random_u64();
    let mut k: u64 = 0;
    while k < attempts
        invariant
            corresponds(b@, block@),
        decreases attempts - k,
    {
        let nonce: u64 = ((start as u128 + k as u128) % 0x10000000000000000u128) as u64;
        b.header.nonce = nonce;
        let hash = compute_block_hash(&b);
        if hash_prefix_zero(&hash, difficulty) {
            let ghost prev = b@;
            b.header.cur_hash = hash;
            proof {
                assert(with_zero_cur(b@) =~= with_zero_cur(prev));
                assert(spec_block_hash(b@) == spec_block_hash(prev));
            }
            return Some(b);
        }
        k += 1;
    }
    None
}

/// Searches every nonce for one that satisfies the difficulty, starting
/// from a random point. `MiningError` comes only once the sweep has
/// exhausted all 2^64 nonces, so on failure no nonce at all satisfies
/// the difficulty for this block.
#[verifier::loop_isolation(false)]
pub fn proof_of_work(block: IshIshBlock, difficulty: u8) -> (r: Result<IshIshBlock, IshIshError>)
    ensures
        match r {
            Ok(m) => corresponds(m@, block@) && pow_at(m@, difficulty) && sealed(m@),
            Err(e) => e == IshIshError::MiningError && (forall|n: u64|
                !pow_at(with_nonce(block@, n), difficulty)),
        },
{
    let ghost orig = block@;
    let mut b = block;
    let start = crate::crypto::random_u64();
    let mut k: u128 = 0;
    while k < 0x10000000000000000u128
        invariant
            k <= 0x10000000000000000u128,
            corresponds(b@, orig),
            forall|j: u128|
                j < k ==> !pow_at(with_nonce(orig, #[trigger] nonce_at(start, j)), difficulty),
        decreases 0x10000000000000000u128 - k,
    {
        let nonce: u64 = ((start as u128 + k) % 0x10000000000000000u128) as u64;
        b.header.nonce = nonce;
        proof {
            assert(nonce == nonce_at(start, k));
        }
        let hash = compute_block_hash(&b);
        if hash_prefix_zero(&hash, difficulty) {
            let ghost prev = b@;
            b.header.cur_hash = hash;
            proof {
                assert(with_zero_cur(b@) =~= with_zero_cur(prev));
                assert(spec_block_hash(b@) == spec_block_hash(prev));
            }
            return Ok(b);
        }
        proof {
            assert(with_zero_cur(b@) =~= with_zero_cur(with_nonce(orig, nonce)));
            assert(spec_block_hash(b@) == spec_block_hash(with_nonce(orig, nonce)));
            assert(!pow_at(with_nonce(orig, nonce_at(start, k)), difficulty));
        }
        k += 1;
    }
    proof {
        assert forall|n: u64| !pow_at(with_nonce(orig, n), difficulty) by {
            let j: u128 = if n as u128 >= start as u128 {
                (n as u128 - start as u128) as u128
            } else {
                (n as u128 + 0x10000000000000000u128 - start as u128) as u128
            };
            assert(j < 0x10000000000000000u128);
            assert(nonce_at(start, j) == n) by {
                if n as u128 >= start as u128 {
                    lemma_small_mod(n as nat, 0x10000000000000000nat);
                } else {
                    assert((start as int) + (j as int) == 0x10000000000000000 * 1 + (n as int));
                    lemma_mod_multiples_vanish(1, n as int, 0x10000000000000000);
                    lemma_small_mod(n as nat, 0x10000000000000000nat);
                }
            }
            assert(!pow_at(with_nonce(orig, nonce_at(start, j)), difficulty));
        }
    }
    Err(IshIshError::MiningError)
}

/// The worker's internal state: the candidate it owns and whether the
/// search is running.
pub struct MinerState {
    pub current: Option<IshIshBlock>,
    pub running: bool,
}

impl MinerState {
    /// Whether the worker would search right now.
    pub open spec fn should_mine(self) -> bool {
        self.running && self.current is Some
    }

    /// A fresh worker: no candidate, not running.
    pub fn new() -> (r: MinerState)
        ensures
            r.current is None,
            !r.running,
    {
        MinerState { current: None, running: false }
    }

    /// One command transition: `MineBlock` replaces the candidate and
    /// leaves the running flag alone; `Start`/`Restart` set it; `Stop`
    /// clears it.
    pub fn handle_command(&mut self, cmd: IshIshCommand)
        ensures
            match cmd {
                IshIshCommand::MineBlock(b) => final(self).current == Some(b)
                    && final(self).running == old(self).running,
                IshIshCommand::Start => final(self).running
                    && final(self).current == old(self).current,
                IshIshCommand::Restart => final(self).running
                    && final(self).current == old(self).current,
                IshIshCommand::Stop => !final(self).running
                    && final(self).current == old(self).current,
            },
    {
        match cmd {
            IshIshCommand::MineBlock(block) => {
                self.current = Some(block);
            },
            IshIshCommand::Stop => {
                self.running = false;
            },
            IshIshCommand::Start => {
                self.running = true;
            },
            IshIshCommand::Restart => {
                self.running = true;
            },
        }
    }

    /// One bounded slice of the search. A stopped or candidate-less
    /// worker does nothing; a successful slice hands the mined block out
    /// and clears the candidate (one shot per candidate).
    pub fn mine_step(&mut self, attempts: u64) -> (r: Option<IshIshBlock>)
        ensures
            final(self).running == old(self).running,
            !old(self).should_mine() ==> r is None && *final(self) == *old(self),
            match r {
                Some(m) => old(self).should_mine() && corresponds(m@, old(self).current->0@)
                    && pow_at(m@, old(self).current->0@.header.difficulty) && sealed(m@)
                    && final(self).current is None,
                None => final(self).current == old(self).current,
            },
    {
        if !self.running {
            return None;
        }
        let found = match &self.current {
            None => {
                return None;
            },
            Some(candidate) => {
                let difficulty = candidate.header.difficulty;
                try_nonces(candidate, difficulty, attempts)
            },
        };
        match found {
            Some(mined) => {
                self.current = None;
                Some(mined)
            },
            None => None,
        }
    }
}

} // verus!
