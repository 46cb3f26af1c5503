//! Blocks, block headers, transactions and the chain itself, with
//! proof-of-work and chain verification.

use vstd::prelude::*;

use crate::address::Address;
use crate::codec::encode_block;
use crate::crypto::sha256_of;

verus! {

/// Mathematical shape of a transaction: 20-byte endpoints and an amount.
#[verifier::ext_equal]
pub struct TxView {
    pub from: Seq<u8>,
    pub to: Seq<u8>,
    pub amount: u64,
}

/// Mathematical shape of a block header.
#[verifier::ext_equal]
pub struct HeaderView {
    pub coinbase: Seq<u8>,
    pub number: u64,
    pub nonce: u64,
    pub difficulty: u8,
    pub cur_hash: Seq<u8>,
    pub prev_hash: Seq<u8>,
}

/// Mathematical shape of a block: header plus ordered transactions.
#[verifier::ext_equal]
pub struct BlockView {
    pub header: HeaderView,
    pub content: Seq<TxView>,
}

/// A pure value transfer between two accounts.
#[derive(Clone, Copy, Debug)]
pub struct IshIshTransaction {
    pub from: Address,
    pub to: Address,
    pub amount: u64,
}

impl View for IshIshTransaction {
    type V = TxView;

    open spec fn view(&self) -> TxView {
        TxView { from: self.from@, to: self.to@, amount: self.amount }
    }
}

impl PartialEq for IshIshTransaction {
    fn eq(&self, other: &IshIshTransaction) -> (r: bool) {
        self.from == other.from && self.to == other.to && self.amount == other.amount
    }
}

impl Eq for IshIshTransaction {
}

impl vstd::std_specs::cmp::PartialEqSpecImpl for IshIshTransaction {
    open spec fn obeys_eq_spec() -> bool {
        true
    }

    open spec fn eq_spec(&self, other: &IshIshTransaction) -> bool {
        self@ == other@
    }
}

/// A block header. `cur_hash` is the block's own hash, computed over the
/// block with `cur_hash` zero-filled; all other fields are hash inputs.
#[derive(Clone, Copy, Debug)]
pub struct IshIshBlockHeader {
    pub coinbase: Address,
    pub number: u64,
    pub nonce: u64,
    pub difficulty: u8,
    pub cur_hash: [u8; 32],
    pub prev_hash: [u8; 32],
}

impl View for IshIshBlockHeader {
    type V = HeaderView;

    open spec fn view(&self) -> HeaderView {
        HeaderView {
            coinbase: self.coinbase@,
            number: self.number,
            nonce: self.nonce,
            difficulty: self.difficulty,
            cur_hash: self.cur_hash@,
            prev_hash: self.prev_hash@,
        }
    }
}

impl IshIshBlockHeader {
    /// A genesis header: number 0, all-zero hashes.
    pub fn no_prev(coinbase: Address, difficulty: u8) -> (r: IshIshBlockHeader)
        ensures
            r@ == (HeaderView {
                coinbase: coinbase@,
                number: 0,
                nonce: 0,
                difficulty: difficulty,
                cur_hash: zero_hash(),
                prev_hash: zero_hash(),
            }),
    {
        let zero = [0u8; 32];
        proof {
            assert(zero@ =~= zero_hash());
        }
        IshIshBlockHeader {
            coinbase,
            number: 0,
            nonce: 0,
            difficulty,
            cur_hash: zero,
            prev_hash: zero,
        }
    }

    /// A successor header: number one past the parent, linked by hash.
    pub fn from_prev_block(coinbase: Address, prev_block: &IshIshBlock, difficulty: u8) -> (
        r: IshIshBlockHeader)
        requires
            prev_block.header.number < u64::MAX,
        ensures
            r@ == (HeaderView {
                coinbase: coinbase@,
                number: (prev_block.header.number + 1) as u64,
                nonce: 0,
                difficulty: difficulty,
                cur_hash: zero_hash(),
                prev_hash: prev_block.header.cur_hash@,
            }),
    {
        let zero = [0u8; 32];
        proof {
            assert(zero@ =~= zero_hash());
        }
        IshIshBlockHeader {
            coinbase,
            number: prev_block.header.number + 1,
            nonce: 0,
            difficulty,
            cur_hash: zero,
            prev_hash: prev_block.header.cur_hash,
        }
    }
}

/// The 32-byte all-zero hash.
pub open spec fn zero_hash() -> Seq<u8> {
    Seq::new(32, |i: int| 0u8)
}

/// A transaction view with the right field widths.
pub open spec fn wf_tx(t: TxView) -> bool {
    t.from.len() == 20 && t.to.len() == 20
}

/// A header view with the right field widths.
pub open spec fn wf_header(h: HeaderView) -> bool {
    h.coinbase.len() == 20 && h.cur_hash.len() == 32 && h.prev_hash.len() == 32
}

/// A block view with the right field widths and a countable content.
pub open spec fn wf_block(b: BlockView) -> bool {
    wf_header(b.header) && b.content.len() < 0x10000000000000000 && (forall|i: int|
        0 <= i < b.content.len() ==> wf_tx(#[trigger] b.content[i]))
}

/// A chain view whose blocks are all well formed.
pub open spec fn wf_chain(c: Seq<BlockView>) -> bool {
    c.len() < 0x10000000000000000 && (forall|i: int|
        0 <= i < c.len() ==> wf_block(#[trigger] c[i]))
}

/// A block: header plus the transactions it settles.
#[derive(Clone, Debug)]
pub struct IshIshBlock {
    pub header: IshIshBlockHeader,
    pub content: Vec<IshIshTransaction>,
}

impl View for IshIshBlock {
    type V = BlockView;

    open spec fn view(&self) -> BlockView {
        BlockView {
            header: self.header@,
            content: self.content@.map_values(|t: IshIshTransaction| t@),
        }
    }
}

/// How many pending transactions a proposed block carries at most.
pub open spec fn block_tx_limit() -> nat {
    3
}

/// The first transactions of the pool, up to the block limit.
pub open spec fn proposed_content(pool: Seq<TxView>) -> Seq<TxView> {
    pool.take(if pool.len() < block_tx_limit() {
        pool.len() as int
    } else {
        block_tx_limit() as int
    })
}

impl IshIshBlock {
    /// A genesis block carrying the first pending transactions.
    pub fn no_prev(coinbase: Address, transactions: &Vec<IshIshTransaction>, difficulty: u8) -> (
        r: IshIshBlock)
        ensures
            r@.header == (HeaderView {
                coinbase: coinbase@,
                number: 0,
                nonce: 0,
                difficulty: difficulty,
                cur_hash: zero_hash(),
                prev_hash: zero_hash(),
            }),
            r@.content == proposed_content(transactions@.map_values(|t: IshIshTransaction| t@)),
    {
        let content = take_first_txs(transactions);
        IshIshBlock { header: IshIshBlockHeader::no_prev(coinbase, difficulty), content }
    }

    /// A successor block carrying the first pending transactions.
    pub fn from_prev_block(
        coinbase: Address,
        transactions: &Vec<IshIshTransaction>,
        prev_block: &IshIshBlock,
        difficulty: u8,
    ) -> (r: IshIshBlock)
        requires
            prev_block.header.number < u64::MAX,
        ensures
            r@.header == (HeaderView {
                coinbase: coinbase@,
                number: (prev_block.header.number + 1) as u64,
                nonce: 0,
                difficulty: difficulty,
                cur_hash: zero_hash(),
                prev_hash: prev_block.header.cur_hash@,
            }),
            r@.content == proposed_content(transactions@.map_values(|t: IshIshTransaction| t@)),
    {
        let content = take_first_txs(transactions);
        IshIshBlock {
            header: IshIshBlockHeader::from_prev_block(coinbase, prev_block, difficulty),
            content,
        }
    }
}

/// Clones up to the block limit of transactions off the front of the pool.
fn take_first_txs(transactions: &Vec<IshIshTransaction>) -> (r: Vec<IshIshTransaction>)
    ensures
        r@.map_values(|t: IshIshTransaction| t@) == proposed_content(
            transactions@.map_values(|t: IshIshTransaction| t@),
        ),
{
    let mut content: Vec<IshIshTransaction> = Vec::new();
    let n: usize = if transactions.len() < 3 {
        transactions.len()
    } else {
        3
    };
    let mut i: usize = 0;
    while i < n
        invariant
            i <= n,
            n <= transactions@.len(),
            content@ == transactions@.take(i as int),
        decreases n - i,
    {
        content.push(transactions[i]);
        proof {
            assert(content@ =~= transactions@.take(i + 1));
        }
        i += 1;
    }
    proof {
        let pool = transactions@.map_values(|t: IshIshTransaction| t@);
        assert(content@.map_values(|t: IshIshTransaction| t@) =~= proposed_content(pool));
    }
    content
}

/// The hash of a block: SHA-256 of its canonical serialization with
/// `cur_hash` zero-filled.
pub open spec fn spec_block_hash(b: BlockView) -> Seq<u8> {
    sha256_of(encode_block(with_zero_cur(b)))
}

/// The block with its `cur_hash` field zero-filled, as hashed.
pub open spec fn with_zero_cur(b: BlockView) -> BlockView {
    BlockView {
        header: HeaderView {
            coinbase: b.header.coinbase,
            number: b.header.number,
            nonce: b.header.nonce,
            difficulty: b.header.difficulty,
            cur_hash: zero_hash(),
            prev_hash: b.header.prev_hash,
        },
        content: b.content,
    }
}

/// Proof-of-work at difficulty `d`: the first `d` bytes of the block hash
/// are zero (`d` beyond the hash length demands the whole hash be zero).
pub open spec fn pow_at(b: BlockView, d: u8) -> bool {
    forall|i: int|
        0 <= i < (if d < 32 {
            d as int
        } else {
            32
        }) ==> spec_block_hash(b)[i] == 0
}

/// A block meets the proof of work at its own stored difficulty.
pub open spec fn pow_ok(b: BlockView) -> bool {
    pow_at(b, b.header.difficulty)
}

/// Every adjacent pair of blocks is linked by hash.
pub open spec fn links_ok(c: Seq<BlockView>) -> bool {
    forall|i: int|
        1 <= i < c.len() ==> c[i].header.prev_hash == c[i - 1].header.cur_hash
}

/// What chain verification checks: proof of work on every block, and
/// hash links between all adjacent blocks.
pub open spec fn chain_valid(c: Seq<BlockView>) -> bool {
    (forall|i: int| 0 <= i < c.len() ==> pow_ok(#[trigger] c[i])) && links_ok(c)
}

/// An ordered sequence of blocks; index 0 is the genesis.
#[derive(Clone, Debug)]
pub struct IshIshBlockchain {
    pub blocks: Vec<IshIshBlock>,
}

impl View for IshIshBlockchain {
    type V = Seq<BlockView>;

    open spec fn view(&self) -> Seq<BlockView> {
        self.blocks@.map_values(|b: IshIshBlock| b@)
    }
}

impl Default for IshIshBlockchain {
    fn default() -> (r: IshIshBlockchain)
        ensures
            r@ == Seq::<BlockView>::empty(),
    {
        IshIshBlockchain::new()
    }
}

impl IshIshBlockchain {
    /// An empty chain.
    pub fn new() -> (r: IshIshBlockchain)
        ensures
            r@ == Seq::<BlockView>::empty(),
    {
        let r = IshIshBlockchain { blocks: Vec::new() };
        proof {
            assert(r@ =~= Seq::<BlockView>::empty());
        }
        r
    }

    /// Appends a mined block after re-checking its proof of work and its
    /// link to the current tip, so a valid chain stays valid.
    pub fn append(&mut self, block: IshIshBlock) -> (r: Result<(), IshIshError>)
        ensures
            match r {
                Ok(()) => pow_ok(block@) && (old(self)@.len() > 0 ==> block@.header.prev_hash
                    == old(self)@.last().header.cur_hash) && final(self)@ == old(self)@.push(
                    block@,
                ),
                Err(e) => *final(self) == *old(self) && ((e == IshIshError::InvalidProofOfWork
                    && !pow_ok(block@)) || (e == IshIshError::PrevHashMismatch && pow_ok(block@)
                    && old(self)@.len() > 0 && block@.header.prev_hash != old(self)@.last(
                ).header.cur_hash)),
            },
            chain_valid(old(self)@) && r.is_ok() ==> chain_valid(final(self)@),
    {
        self.verify_block(&block)?;
        if self.blocks.len() > 0 {
            let tip_hash = self.blocks[self.blocks.len() - 1].header.cur_hash;
            if !crate::codec::bytes32_eq(&block.header.prev_hash, &tip_hash) {
                return Err(IshIshError::PrevHashMismatch);
            }
        }
        self.blocks.push(block);
        proof {
            assert(self@ =~= old(self)@.push(self.blocks@.last()@));
            if chain_valid(old(self)@) {
                assert forall|i: int| 0 <= i < self@.len() implies pow_ok(#[trigger] self@[i]) by {
                    if i < old(self)@.len() {
                        assert(self@[i] == old(self)@[i]);
                    }
                }
            }
        }
        Ok(())
    }

    /// Checks the proof of work of one block at its stored difficulty.
    fn verify_block(&self, block: &IshIshBlock) -> (r: Result<(), IshIshError>)
        ensures
            match r {
                Ok(()) => pow_ok(block@),
                Err(e) => e == IshIshError::InvalidProofOfWork && !pow_ok(block@),
            },
    {
        let pow = validate_pow(block, block.header.difficulty);
        if !pow {
            return Err(IshIshError::InvalidProofOfWork);
        }
        Ok(())
    }

    /// Verifies the whole chain: proof of work on every block first, then
    /// every adjacent hash link. A failure is always one of the two
    /// named codes: `InvalidProofOfWork` exactly when some block fails
    /// its proof of work, `PrevHashMismatch` exactly when every proof of
    /// work holds but a link is broken.
    pub fn verify_chain(&self) -> (r: Result<(), IshIshError>)
        ensures
            r.is_ok() <==> chain_valid(self@),
            match r {
                Ok(()) => true,
                Err(e) => (e == IshIshError::InvalidProofOfWork <==> exists|i: int|
                    0 <= i < self@.len() && !pow_ok(#[trigger] self@[i])) && (
                e == IshIshError::PrevHashMismatch <==> ((forall|i: int|
                    0 <= i < self@.len() ==> pow_ok(#[trigger] self@[i])) && !links_ok(self@))),
            },
    {
        let n: usize = self.blocks.len();
        let mut i: usize = 0;
        while i < n
            invariant
                i <= n,
                n == self.blocks@.len(),
                forall|j: int| 0 <= j < i ==> pow_ok(#[trigger] self@[j]),
            decreases n - i,
        {
            let b = &self.blocks[i];
            match self.verify_block(b) {
                Ok(()) => {},
                Err(e) => {
                    proof {
                        assert(!pow_ok(self@[i as int]));
                    }
                    return Err(e);
                },
            }
            i += 1;
        }
        let mut k: usize = 1;
        while k < n
            invariant
                1 <= k || n == 0,
                k <= n || (n == 0 && k == 1),
                n == self.blocks@.len(),
                forall|j: int| 0 <= j < n ==> pow_ok(#[trigger] self@[j]),
                forall|j: int|
                    1 <= j < k ==> self@[j].header.prev_hash == self@[j - 1].header.cur_hash,
            decreases n - k,
        {
            let prev_of_k = self.blocks[k].header.prev_hash;
            let cur_of_prev = self.blocks[k - 1].header.cur_hash;
            if !crate::codec::bytes32_eq(&prev_of_k, &cur_of_prev) {
                proof {
                    assert(self@[k as int].header.prev_hash != self@[k as int - 1].header.cur_hash);
                    assert(!links_ok(self@));
                }
                return Err(IshIshError::PrevHashMismatch);
            }
            k += 1;
        }
        Ok(())
    }
}

/// Recomputes the block's own hash: SHA-256 over its canonical
/// serialization with `cur_hash` zero-filled.
pub fn compute_block_hash(block: &IshIshBlock) -> (r: [u8; 32])
    ensures
        r@ == spec_block_hash(block@),
{
    let mut candidate = copy_block(block);
    candidate.header.cur_hash = [0u8; 32];
    proof {
        assert(candidate.header.cur_hash@ =~= zero_hash());
        assert(candidate@ =~= with_zero_cur(block@));
    }
    let data = crate::codec::serialize_block(&candidate);
    crate::crypto::sha256(&data)
}

/// Checks that the first `difficulty` bytes of a hash are zero (all 32
/// where the difficulty exceeds the hash length).
pub fn hash_prefix_zero(hash: &[u8; 32], difficulty: u8) -> (r: bool)
    ensures
        r == (forall|i: int|
            0 <= i < (if difficulty < 32 {
                difficulty as int
            } else {
                32
            }) ==> hash@[i] == 0),
{
    let d: usize = if difficulty < 32 {
        difficulty as usize
    } else {
        32
    };
    let mut i: usize = 0;
    while i < d
        invariant
            i <= d,
            d == (if difficulty < 32 {
                difficulty as int
            } else {
                32
            }),
            forall|j: int| 0 <= j < i ==> hash@[j] == 0,
        decreases d - i,
    {
        if hash[i] != 0 {
            return false;
        }
        i += 1;
    }
    true
}

/// Recomputes the block's hash with `cur_hash` zero-filled and checks the
/// difficulty-many leading zero bytes.
pub fn validate_pow(block: &IshIshBlock, difficulty: u8) -> (r: bool)
    ensures
        r == pow_at(block@, difficulty),
{
    let hash = compute_block_hash(block);
    hash_prefix_zero(&hash, difficulty)
}

/// A field-for-field copy of a block, with a known relation to the
/// original (the derived `Clone` proves nothing about `Vec` fields).
pub fn copy_block(block: &IshIshBlock) -> (r: IshIshBlock)
    ensures
        r@ == block@,
{
    let mut content: Vec<IshIshTransaction> = Vec::new();
    let n: usize = block.content.len();
    let mut i: usize = 0;
    while i < n
        invariant
            i <= n,
            n == block.content@.len(),
            content@ == block.content@.take(i as int),
        decreases n - i,
    {
        content.push(block.content[i]);
        proof {
            assert(content@ =~= block.content@.take(i + 1));
        }
        i += 1;
    }
    proof {
        assert(content@ =~= block.content@);
    }
    let r = IshIshBlock { header: block.header, content };
    proof {
        assert(r@ =~= block@);
    }
    r
}

/// The errors the node can report.
#[derive(Clone, Copy, Debug, PartialEq, Eq, Structural)]
pub enum IshIshError {
    ParseError,
    InvalidMessageHeader,
    EmptyMessage,
    InvalidEvent,
    MiningError,
    HashConversionFailed,
    InvalidProofOfWork,
    PrevHashMismatch,
    EmptyBlockchain,
    RequestedBlockIsNone,
}

} // verus!
