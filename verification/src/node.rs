//! The node's decision core: one owner of chain, ledger, pool and
//! signer, with one method per event the node loop can see. Every
//! method preserves the node invariant: the chain verifies, and the
//! ledger equals the deterministic replay of the chain from genesis.

use vstd::prelude::*;

use crate::address::Address;
use crate::blockchain::{
    chain_valid, pow_ok, proposed_content, spec_block_hash, zero_hash, BlockView, HeaderView,
    IshIshBlock, IshIshBlockchain, IshIshError, IshIshTransaction, TxView,
};
use crate::blockchain::copy_block;
use crate::settlement::{
    get_address_balance, ledger_of_chain, p64, progress_state, refresh_state, spec_evict,
    spec_evict_chain, spec_replay, Ledger,
};

verus! {

/// The successor the tip allows: its number must not wrap.
pub open spec fn tip_number_ok(c: Seq<BlockView>) -> bool {
    c.len() > 0 ==> c.last().header.number < u64::MAX
}

/// The candidate block built on a chain: genesis on an empty chain, a
/// linked successor otherwise, carrying the first pending transactions.
pub open spec fn spec_propose(
    coinbase: Seq<u8>,
    chain: Seq<BlockView>,
    difficulty: u8,
    pool: Seq<TxView>,
) -> BlockView {
    BlockView {
        header: HeaderView {
            coinbase,
            number: if chain.len() == 0 {
                0
            } else {
                (chain.last().header.number + 1) as u64
            },
            nonce: 0,
            difficulty,
            cur_hash: zero_hash(),
            prev_hash: if chain.len() == 0 {
                zero_hash()
            } else {
                chain.last().header.cur_hash
            },
        },
        content: proposed_content(pool),
    }
}

/// Builds the next candidate block from the current chain and pool.
pub fn propose_block(
    coinbase: Address,
    blockchain: &IshIshBlockchain,
    difficulty: u8,
    transactions: &Vec<IshIshTransaction>,
) -> (r: Result<IshIshBlock, IshIshError>)
    requires
        tip_number_ok(blockchain@),
    ensures
        match r {
            Ok(b) => b@ == spec_propose(
                coinbase@,
                blockchain@,
                difficulty,
                transactions@.map_values(|t: IshIshTransaction| t@),
            ),
            Err(_) => false,
        },
{
    let n: usize = blockchain.blocks.len();
    if n == 0 {
        let b = IshIshBlock::no_prev(coinbase, transactions, difficulty);
        proof {
            assert(b@ =~= spec_propose(
                coinbase@,
                blockchain@,
                difficulty,
                transactions@.map_values(|t: IshIshTransaction| t@),
            ));
        }
        Ok(b)
    } else {
        let prev = &blockchain.blocks[n - 1];
        proof {
            assert(blockchain@.last() == prev@);
        }
        let b = IshIshBlock::from_prev_block(coinbase, transactions, prev, difficulty);
        proof {
            assert(b@ =~= spec_propose(
                coinbase@,
                blockchain@,
                difficulty,
                transactions@.map_values(|t: IshIshTransaction| t@),
            ));
        }
        Ok(b)
    }
}

/// The fork choice: adopt the received chain exactly when it is strictly
/// longer and verifies; otherwise keep the current chain.
pub fn process_new_blockchain(
    new_blockchain: IshIshBlockchain,
    current_blockchain: IshIshBlockchain,
) -> (r: IshIshBlockchain)
    ensures
        r@ == if new_blockchain@.len() > current_blockchain@.len() && chain_valid(
            new_blockchain@,
        ) {
            new_blockchain@
        } else {
            current_blockchain@
        },
{
    if new_blockchain.blocks.len() > current_blockchain.blocks.len() {
        match new_blockchain.verify_chain() {
            Ok(()) => new_blockchain,
            Err(_) => current_blockchain,
        }
    } else {
        current_blockchain
    }
}

/// All the state the node loop owns.
pub struct Node {
    pub difficulty: u8,
    pub blockchain: IshIshBlockchain,
    pub ledger: Ledger,
    pub transactions: Vec<IshIshTransaction>,
    pub current_signer: Option<Address>,
}

impl Node {
    /// The pool as the sequence of pending transactions.
    pub open spec fn pool(self) -> Seq<TxView> {
        self.transactions@.map_values(|t: IshIshTransaction| t@)
    }

    /// The node invariant: the adopted chain verifies, and the ledger is
    /// the deterministic replay of that chain from genesis.
    pub open spec fn wf(self) -> bool {
        chain_valid(self.blockchain@) && self.ledger@ == ledger_of_chain(self.blockchain@)
    }

    /// A fresh node: empty chain, empty ledger, empty pool, no signer.
    pub fn new(difficulty: u8) -> (r: Node)
        ensures
            r.wf(),
            r.difficulty == difficulty,
            r.blockchain@ == Seq::<BlockView>::empty(),
            r.pool() == Seq::<TxView>::empty(),
            r.current_signer is None,
    {
        let r = Node {
            difficulty,
            blockchain: IshIshBlockchain::new(),
            ledger: Ledger::new(),
            transactions: Vec::new(),
            current_signer: None,
        };
        proof {
            assert(r.pool() =~= Seq::<TxView>::empty());
        }
        r
    }

    /// Sets (or replaces) the open signer.
    pub fn open_signer(&mut self, signer: Address)
        ensures
            *final(self) == (Node { current_signer: Some(signer), ..*old(self) }),
    {
        self.current_signer = Some(signer);
    }

    /// The `start` decision: with a signer open, the candidate to hand
    /// to the worker (the caller then issues `MineBlock` and `Start`);
    /// without one, nothing.
    pub fn start_command(&self) -> (r: Option<IshIshBlock>)
        requires
            tip_number_ok(self.blockchain@),
        ensures
            match r {
                Some(c) => self.current_signer is Some && c@ == spec_propose(
                    self.current_signer->0@,
                    self.blockchain@,
                    self.difficulty,
                    self.pool(),
                ),
                None => self.current_signer is None,
            },
    {
        match &self.current_signer {
            Some(signer) => {
                match propose_block(*signer, &self.blockchain, self.difficulty,
                    &self.transactions) {
                    Ok(b) => Some(b),
                    Err(_) => {
                        proof {
                            assert(false);
                        }
                        None
                    },
                }
            },
            None => None,
        }
    }

    /// The mined-block branch: re-verify and append the block, settle it
    /// on the ledger evicting its transactions from the pool, and build
    /// the next candidate (the caller keeps the worker running and
    /// broadcasts the grown chain). A block that fails its proof of work
    /// or does not link to the tip is rejected with the node unchanged.
    pub fn process_block(&mut self, block: IshIshBlock) -> (r: Result<IshIshBlock, IshIshError>)
        requires
            old(self).wf(),
            old(self).current_signer is Some,
            block@.header.number < u64::MAX,
        ensures
            final(self).wf(),
            final(self).difficulty == old(self).difficulty,
            final(self).current_signer == old(self).current_signer,
            match r {
                Ok(next) => pow_ok(block@) && (old(self).blockchain@.len() > 0
                    ==> block@.header.prev_hash == old(self).blockchain@.last().header.cur_hash)
                    && final(self).blockchain@ == old(self).blockchain@.push(block@)
                    && final(self).pool() == spec_evict(old(self).pool(), block@.content)
                    && next@ == spec_propose(
                    old(self).current_signer->0@,
                    final(self).blockchain@,
                    old(self).difficulty,
                    final(self).pool(),
                ),
                Err(e) => *final(self) == *old(self) && ((e == IshIshError::InvalidProofOfWork
                    && !pow_ok(block@)) || (e == IshIshError::PrevHashMismatch && pow_ok(block@)
                    && old(self).blockchain@.len() > 0 && block@.header.prev_hash
                    != old(self).blockchain@.last().header.cur_hash)),
            },
    {
        let b2 = copy_block(&block);
        match self.blockchain.append(b2) {
            Ok(()) => {},
            Err(e) => {
                return Err(e);
            },
        }
        progress_state(&mut self.ledger, &block, &mut self.transactions);
        proof {
            let c0 = old(self).blockchain@;
            crate::settlement::lemma_replay_append(
                crate::settlement::empty_ledger(),
                c0,
                seq![block@],
            );
            reveal_with_fuel(spec_replay, 3);
            assert(seq![block@].drop_first() =~= Seq::<BlockView>::empty());
            assert(c0 + seq![block@] =~= c0.push(block@));
            assert(self.ledger@ == ledger_of_chain(self.blockchain@));
        }
        let signer = match &self.current_signer {
            Some(s) => *s,
            None => {
                proof {
                    assert(false);
                }
                Address::zero()
            },
        };
        proof {
            assert(self.blockchain@.last() == block@);
        }
        match propose_block(signer, &self.blockchain, self.difficulty, &self.transactions) {
            Ok(next) => Ok(next),
            Err(e) => {
                proof {
                    assert(false);
                }
                Err(e)
            },
        }
    }

    /// The inbound-chain branch: run the fork choice; on adoption,
    /// replace the chain, rebuild the ledger from scratch (evicting the
    /// adopted chain's transactions from the pool as replay proceeds),
    /// and with a signer open hand back a fresh candidate without
    /// touching the worker's running state.
    pub fn on_new_chain(&mut self, new_chain: IshIshBlockchain) -> (r: Option<IshIshBlock>)
        requires
            old(self).wf(),
            tip_number_ok(new_chain@),
            tip_number_ok(old(self).blockchain@),
        ensures
            final(self).wf(),
            final(self).difficulty == old(self).difficulty,
            final(self).current_signer == old(self).current_signer,
            ({
                let adopt = new_chain@.len() > old(self).blockchain@.len() && chain_valid(
                    new_chain@,
                );
                &&& (adopt ==> final(self).blockchain@ == new_chain@ && final(self).pool()
                    == spec_evict_chain(old(self).pool(), new_chain@))
                &&& (!adopt ==> final(self).blockchain@ == old(self).blockchain@
                    && final(self).pool() == old(self).pool())
                &&& match r {
                    Some(c) => old(self).current_signer is Some && c@ == spec_propose(
                        old(self).current_signer->0@,
                        final(self).blockchain@,
                        old(self).difficulty,
                        final(self).pool(),
                    ),
                    None => old(self).current_signer is None,
                }
            }),
    {
        let adopt: bool = if new_chain.blocks.len() > self.blockchain.blocks.len() {
            match new_chain.verify_chain() {
                Ok(()) => true,
                Err(_) => false,
            }
        } else {
            false
        };
        if adopt {
            self.blockchain = new_chain;
            self.ledger = Ledger::new();
            refresh_state(&mut self.ledger, &self.blockchain, &mut self.transactions);
        }
        let signer = match &self.current_signer {
            Some(s) => Some(*s),
            None => None,
        };
        match signer {
            Some(s) => {
                match propose_block(s, &self.blockchain, self.difficulty, &self.transactions) {
                    Ok(b) => Some(b),
                    Err(_) => {
                        proof {
                            assert(false);
                        }
                        None
                    },
                }
            },
            None => None,
        }
    }

    /// The inbound-transaction branch (and local submission): append the
    /// transfer to the pool.
    pub fn on_new_transaction(&mut self, transaction: IshIshTransaction)
        ensures
            final(self).pool() == old(self).pool().push(transaction@),
            final(self).blockchain == old(self).blockchain,
            final(self).ledger == old(self).ledger,
            final(self).difficulty == old(self).difficulty,
            final(self).current_signer == old(self).current_signer,
            old(self).wf() ==> final(self).wf(),
    {
        self.transactions.push(transaction);
        proof {
            assert(self.pool() =~= old(self).pool().push(transaction@));
        }
    }

    /// Reads a balance off the ledger, truncated to 64 bits.
    pub fn get_balance(&self, address: Address) -> (r: u64)
        ensures
            r as nat == self.ledger@[address@] % p64(),
    {
        get_address_balance(&self.ledger, address)
    }
}

/// Every chain a well-formed node has adopted passes chain verification.
pub proof fn lemma_adopted_chain_verifies(n: Node)
    requires
        n.wf(),
    ensures
        chain_valid(n.blockchain@),
{
}

/// Every block of an adopted chain satisfies the proof of work at its
/// stored difficulty: the first `difficulty` bytes of its recomputed
/// hash are zero.
pub proof fn lemma_adopted_blocks_pow(n: Node, i: int)
    requires
        n.wf(),
        0 <= i < n.blockchain@.len(),
    ensures
        pow_ok(n.blockchain@[i]),
        forall|k: int|
            0 <= k < (if n.blockchain@[i].header.difficulty < 32 {
                n.blockchain@[i].header.difficulty as int
            } else {
                32
            }) ==> spec_block_hash(n.blockchain@[i])[k] == 0,
{
}

/// A well-formed node's balances equal the deterministic replay of its
/// whole chain from genesis: rebuilding would change nothing.
pub proof fn lemma_ledger_matches_replay(n: Node)
    requires
        n.wf(),
    ensures
        n.ledger@ == ledger_of_chain(n.blockchain@),
{
}

} // verus!
