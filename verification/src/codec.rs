//! The canonical serialization of transactions, blocks and chains, and
//! the tagged wire frames exchanged on the gossip topic.
//!
//! Every value is written as fixed-width ASCII hex fields; sequences are
//! prefixed with a 16-character element count. The same encoding is used
//! for hashing and for the wire, so peers agree bit-exactly, and decoding
//! is proved to invert encoding.

use vstd::prelude::*;
use vstd::string::StringSliceAdditionalSpecFns;

use crate::blockchain::{BlockView, HeaderView, TxView};
use crate::blockchain::{IshIshBlock, IshIshBlockHeader, IshIshBlockchain, IshIshTransaction};
use crate::blockchain::{wf_block, wf_chain, wf_header, wf_tx};
use crate::blockchain::IshIshError;
use crate::address::Address;
use crate::hex::{
    hex_bytes, hex_nat, unhex_bytes, unhex_nat, pow16,
    lemma_hex_bytes_len, lemma_hex_nat_len, lemma_unhex_hex_bytes, lemma_unhex_hex_nat,
    push_hex_slice, push_hex_u64, unhex_range, unhex_u64_at,
};

verus! {

/// Canonical encoding of a transaction: `from`, `to`, then the amount.
pub open spec fn encode_tx(t: TxView) -> Seq<u8> {
    hex_bytes(t.from) + hex_bytes(t.to) + hex_nat(t.amount as nat, 16)
}

/// Canonical encoding of a header: coinbase, number, nonce, difficulty,
/// own hash, parent hash.
pub open spec fn encode_header(h: HeaderView) -> Seq<u8> {
    hex_bytes(h.coinbase) + hex_nat(h.number as nat, 16) + hex_nat(h.nonce as nat, 16) + hex_nat(
        h.difficulty as nat,
        2,
    ) + hex_bytes(h.cur_hash) + hex_bytes(h.prev_hash)
}

/// Concatenated encodings of a transaction sequence.
pub open spec fn encode_txs(s: Seq<TxView>) -> Seq<u8>
    decreases s.len(),
{
    if s.len() == 0 {
        Seq::empty()
    } else {
        encode_tx(s[0]) + encode_txs(s.drop_first())
    }
}

/// Canonical encoding of a block: header, transaction count, transactions.
pub open spec fn encode_block(b: BlockView) -> Seq<u8> {
    encode_header(b.header) + hex_nat(b.content.len(), 16) + encode_txs(b.content)
}

/// Concatenated encodings of a block sequence.
pub open spec fn encode_blocks(s: Seq<BlockView>) -> Seq<u8>
    decreases s.len(),
{
    if s.len() == 0 {
        Seq::empty()
    } else {
        encode_block(s[0]) + encode_blocks(s.drop_first())
    }
}

/// Canonical encoding of a chain: block count, then the blocks.
pub open spec fn encode_chain(c: Seq<BlockView>) -> Seq<u8> {
    hex_nat(c.len(), 16) + encode_blocks(c)
}

pub proof fn lemma_encode_tx_len(t: TxView)
    requires
        wf_tx(t),
    ensures
        encode_tx(t).len() == 96,
{
    lemma_hex_bytes_len(t.from);
    lemma_hex_bytes_len(t.to);
    lemma_hex_nat_len(t.amount as nat, 16);
}

pub proof fn lemma_encode_header_len(h: HeaderView)
    requires
        wf_header(h),
    ensures
        encode_header(h).len() == 202,
{
    lemma_hex_bytes_len(h.coinbase);
    lemma_hex_nat_len(h.number as nat, 16);
    lemma_hex_nat_len(h.nonce as nat, 16);
    lemma_hex_nat_len(h.difficulty as nat, 2);
    lemma_hex_bytes_len(h.cur_hash);
    lemma_hex_bytes_len(h.prev_hash);
}

pub proof fn lemma_encode_txs_len(s: Seq<TxView>)
    requires
        forall|i: int| 0 <= i < s.len() ==> wf_tx(#[trigger] s[i]),
    ensures
        encode_txs(s).len() == 96 * s.len(),
    decreases s.len(),
{
    if s.len() > 0 {
        lemma_encode_tx_len(s[0]);
        lemma_encode_txs_len(s.drop_first());
    }
}

pub proof fn lemma_encode_block_len(b: BlockView)
    requires
        wf_block(b),
    ensures
        encode_block(b).len() == 218 + 96 * b.content.len(),
{
    lemma_encode_header_len(b.header);
    lemma_hex_nat_len(b.content.len(), 16);
    lemma_encode_txs_len(b.content);
}

pub proof fn lemma_encode_txs_append(u: Seq<TxView>, v: Seq<TxView>)
    ensures
        encode_txs(u + v) == encode_txs(u) + encode_txs(v),
    decreases u.len(),
{
    if u.len() == 0 {
        assert(u + v =~= v);
        assert(encode_txs(u) + encode_txs(v) =~= encode_txs(v));
    } else {
        lemma_encode_txs_append(u.drop_first(), v);
        assert((u + v).drop_first() =~= u.drop_first() + v);
        assert(encode_tx((u + v)[0]) + (encode_txs(u.drop_first()) + encode_txs(v)) =~= (
        encode_tx(u[0]) + encode_txs(u.drop_first())) + encode_txs(v));
    }
}

pub proof fn lemma_encode_blocks_append(u: Seq<BlockView>, v: Seq<BlockView>)
    ensures
        encode_blocks(u + v) == encode_blocks(u) + encode_blocks(v),
    decreases u.len(),
{
    if u.len() == 0 {
        assert(u + v =~= v);
        assert(encode_blocks(u) + encode_blocks(v) =~= encode_blocks(v));
    } else {
        lemma_encode_blocks_append(u.drop_first(), v);
        assert((u + v).drop_first() =~= u.drop_first() + v);
        assert(encode_block((u + v)[0]) + (encode_blocks(u.drop_first()) + encode_blocks(v)) =~= (
        encode_block(u[0]) + encode_blocks(u.drop_first())) + encode_blocks(v));
    }
}

/// The transaction encoded by exactly 96 hex characters.
pub open spec fn parse_tx(s: Seq<u8>) -> Option<TxView> {
    if s.len() == 96 {
        match (unhex_bytes(s.subrange(0, 40)), unhex_bytes(s.subrange(40, 80)), unhex_nat(
            s.subrange(80, 96),
        )) {
            (Some(from), Some(to), Some(amount)) => if amount < 0x10000000000000000 {
                Some(TxView { from, to, amount: amount as u64 })
            } else {
                None
            },
            _ => None,
        }
    } else {
        None
    }
}

/// The header encoded by exactly 202 hex characters.
pub open spec fn parse_header(s: Seq<u8>) -> Option<HeaderView> {
    if s.len() == 202 {
        match (unhex_bytes(s.subrange(0, 40)), unhex_nat(s.subrange(40, 56)), unhex_nat(
            s.subrange(56, 72),
        ), unhex_nat(s.subrange(72, 74)), unhex_bytes(s.subrange(74, 138)), unhex_bytes(
            s.subrange(138, 202),
        )) {
            (Some(coinbase), Some(number), Some(nonce), Some(difficulty), Some(cur), Some(prev)) =>
                if number < 0x10000000000000000 && nonce < 0x10000000000000000 && difficulty
                    < 256 {
                    Some(
                        HeaderView {
                            coinbase,
                            number: number as u64,
                            nonce: nonce as u64,
                            difficulty: difficulty as u8,
                            cur_hash: cur,
                            prev_hash: prev,
                        },
                    )
                } else {
                    None
                },
            _ => None,
        }
    } else {
        None
    }
}

/// `n` transactions encoded back to back, consuming the whole input.
pub open spec fn parse_txs(s: Seq<u8>, n: nat) -> Option<Seq<TxView>>
    decreases n,
{
    if n == 0 {
        if s.len() == 0 {
            Some(Seq::empty())
        } else {
            None
        }
    } else if s.len() >= 96 {
        match (parse_tx(s.subrange(0, 96)), parse_txs(s.skip(96), (n - 1) as nat)) {
            (Some(t), Some(r)) => Some(seq![t] + r),
            _ => None,
        }
    } else {
        None
    }
}

/// One block read off the front of the input; also yields how many
/// characters it occupied.
pub open spec fn parse_block(s: Seq<u8>) -> Option<(BlockView, nat)> {
    if s.len() >= 218 {
        match (parse_header(s.subrange(0, 202)), unhex_nat(s.subrange(202, 218))) {
            (Some(h), Some(n)) => if 218 + 96 * n <= s.len() {
                match parse_txs(s.subrange(218, 218 + 96 * (n as int)), n) {
                    Some(txs) => Some((BlockView { header: h, content: txs }, (218 + 96 * n)
                        as nat)),
                    None => None,
                }
            } else {
                None
            },
            _ => None,
        }
    } else {
        None
    }
}

/// `n` blocks encoded back to back, consuming the whole input.
pub open spec fn parse_blocks(s: Seq<u8>, n: nat) -> Option<Seq<BlockView>>
    decreases n,
{
    if n == 0 {
        if s.len() == 0 {
            Some(Seq::empty())
        } else {
            None
        }
    } else {
        match parse_block(s) {
            Some((b, used)) => match parse_blocks(s.skip(used as int), (n - 1) as nat) {
                Some(r) => Some(seq![b] + r),
                None => None,
            },
            None => None,
        }
    }
}

/// The chain encoded by the input: count, then that many blocks.
pub open spec fn parse_chain(s: Seq<u8>) -> Option<Seq<BlockView>> {
    if s.len() >= 16 {
        match unhex_nat(s.subrange(0, 16)) {
            Some(n) => parse_blocks(s.skip(16), n),
            None => None,
        }
    } else {
        None
    }
}

pub proof fn lemma_parse_tx_roundtrip(t: TxView)
    requires
        wf_tx(t),
    ensures
        parse_tx(encode_tx(t)) == Some(t),
{
    let e = encode_tx(t);
    lemma_hex_bytes_len(t.from);
    lemma_hex_bytes_len(t.to);
    lemma_hex_nat_len(t.amount as nat, 16);
    assert(e.subrange(0, 40) =~= hex_bytes(t.from));
    assert(e.subrange(40, 80) =~= hex_bytes(t.to));
    assert(e.subrange(80, 96) =~= hex_nat(t.amount as nat, 16));
    lemma_unhex_hex_bytes(t.from);
    lemma_unhex_hex_bytes(t.to);
    reveal_with_fuel(pow16, 17);
    lemma_unhex_hex_nat(t.amount as nat, 16);
}

pub proof fn lemma_parse_header_roundtrip(h: HeaderView)
    requires
        wf_header(h),
    ensures
        parse_header(encode_header(h)) == Some(h),
{
    let e = encode_header(h);
    lemma_hex_bytes_len(h.coinbase);
    lemma_hex_nat_len(h.number as nat, 16);
    lemma_hex_nat_len(h.nonce as nat, 16);
    lemma_hex_nat_len(h.difficulty as nat, 2);
    lemma_hex_bytes_len(h.cur_hash);
    lemma_hex_bytes_len(h.prev_hash);
    assert(e.subrange(0, 40) =~= hex_bytes(h.coinbase));
    assert(e.subrange(40, 56) =~= hex_nat(h.number as nat, 16));
    assert(e.subrange(56, 72) =~= hex_nat(h.nonce as nat, 16));
    assert(e.subrange(72, 74) =~= hex_nat(h.difficulty as nat, 2));
    assert(e.subrange(74, 138) =~= hex_bytes(h.cur_hash));
    assert(e.subrange(138, 202) =~= hex_bytes(h.prev_hash));
    lemma_unhex_hex_bytes(h.coinbase);
    lemma_unhex_hex_bytes(h.cur_hash);
    lemma_unhex_hex_bytes(h.prev_hash);
    reveal_with_fuel(pow16, 17);
    lemma_unhex_hex_nat(h.number as nat, 16);
    lemma_unhex_hex_nat(h.nonce as nat, 16);
    lemma_unhex_hex_nat(h.difficulty as nat, 2);
}

pub proof fn lemma_parse_txs_roundtrip(s: Seq<TxView>)
    requires
        forall|i: int| 0 <= i < s.len() ==> wf_tx(#[trigger] s[i]),
    ensures
        parse_txs(encode_txs(s), s.len()) == Some(s),
    decreases s.len(),
{
    if s.len() == 0 {
    } else {
        let e = encode_txs(s);
        lemma_encode_tx_len(s[0]);
        lemma_encode_txs_len(s.drop_first());
        assert(e.subrange(0, 96) =~= encode_tx(s[0]));
        assert(e.skip(96) =~= encode_txs(s.drop_first()));
        lemma_parse_tx_roundtrip(s[0]);
        lemma_parse_txs_roundtrip(s.drop_first());
        assert(seq![s[0]] + s.drop_first() =~= s);
    }
}

/// A block followed by anything parses to the block, consuming exactly
/// its own encoding.
pub proof fn lemma_parse_block_prefix(b: BlockView, rest: Seq<u8>)
    requires
        wf_block(b),
    ensures
        parse_block(encode_block(b) + rest) == Some((b, encode_block(b).len())),
{
    let eb = encode_block(b);
    let s = eb + rest;
    let n = b.content.len();
    lemma_encode_block_len(b);
    lemma_encode_header_len(b.header);
    lemma_hex_nat_len(n, 16);
    lemma_encode_txs_len(b.content);
    assert(s.subrange(0, 202) =~= encode_header(b.header));
    assert(s.subrange(202, 218) =~= hex_nat(n, 16));
    lemma_parse_header_roundtrip(b.header);
    reveal_with_fuel(pow16, 17);
    lemma_unhex_hex_nat(n, 16);
    assert(s.subrange(218, 218 + 96 * (n as int)) =~= encode_txs(b.content));
    lemma_parse_txs_roundtrip(b.content);
}

pub proof fn lemma_parse_blocks_roundtrip(c: Seq<BlockView>)
    requires
        forall|i: int| 0 <= i < c.len() ==> wf_block(#[trigger] c[i]),
    ensures
        parse_blocks(encode_blocks(c), c.len()) == Some(c),
    decreases c.len(),
{
    if c.len() == 0 {
    } else {
        let e = encode_blocks(c);
        lemma_parse_block_prefix(c[0], encode_blocks(c.drop_first()));
        lemma_encode_block_len(c[0]);
        assert(e =~= encode_block(c[0]) + encode_blocks(c.drop_first()));
        assert(e.skip(encode_block(c[0]).len() as int) =~= encode_blocks(c.drop_first()));
        lemma_parse_blocks_roundtrip(c.drop_first());
        assert(seq![c[0]] + c.drop_first() =~= c);
    }
}

/// Decoding inverts encoding on every well-formed chain.
pub proof fn lemma_parse_chain_roundtrip(c: Seq<BlockView>)
    requires
        wf_chain(c),
    ensures
        parse_chain(encode_chain(c)) == Some(c),
{
    let e = encode_chain(c);
    lemma_hex_nat_len(c.len(), 16);
    assert(e.subrange(0, 16) =~= hex_nat(c.len(), 16));
    reveal_with_fuel(pow16, 17);
    lemma_unhex_hex_nat(c.len(), 16);
    assert(e.skip(16) =~= encode_blocks(c));
    lemma_parse_blocks_roundtrip(c);
}

/// Appends the canonical encoding of a transaction.
fn encode_tx_into(out: &mut Vec<u8>, t: &IshIshTransaction)
    ensures
        final(out)@ == old(out)@ + encode_tx(t@),
{
    push_hex_slice(out, t.from.bytes.as_slice());
    push_hex_slice(out, t.to.bytes.as_slice());
    push_hex_u64(out, t.amount);
    proof {
        assert(final(out)@ =~= old(out)@ + encode_tx(t@));
    }
}

/// Serializes a transaction canonically.
pub fn serialize_transaction(t: &IshIshTransaction) -> (r: Vec<u8>)
    ensures
        r@ == encode_tx(t@),
{
    let mut out: Vec<u8> = Vec::new();
    encode_tx_into(&mut out, t);
    proof {
        assert(out@ =~= encode_tx(t@));
    }
    out
}

/// Appends the canonical encoding of a header.
fn encode_header_into(out: &mut Vec<u8>, h: &IshIshBlockHeader)
    ensures
        final(out)@ == old(out)@ + encode_header(h@),
{
    push_hex_slice(out, h.coinbase.bytes.as_slice());
    push_hex_u64(out, h.number);
    push_hex_u64(out, h.nonce);
    crate::hex::push_hex_byte(out, h.difficulty);
    proof {
        reveal_with_fuel(hex_nat, 3);
        assert(crate::hex::hex_byte(h.difficulty) =~= hex_nat(h.difficulty as nat, 2));
    }
    push_hex_slice(out, h.cur_hash.as_slice());
    push_hex_slice(out, h.prev_hash.as_slice());
    proof {
        assert(final(out)@ =~= old(out)@ + encode_header(h@));
    }
}

/// Serializes a block canonically; this is also the hashed byte string.
pub fn serialize_block(b: &IshIshBlock) -> (r: Vec<u8>)
    ensures
        r@ == encode_block(b@),
{
    let mut out: Vec<u8> = Vec::new();
    encode_header_into(&mut out, &b.header);
    let n: usize = b.content.len();
    push_hex_u64(&mut out, n as u64);
    let ghost head = out@;
    proof {
        assert(b@.content.take(0) =~= Seq::<TxView>::empty());
        assert(out@ =~= head + encode_txs(b@.content.take(0)));
    }
    let mut i: usize = 0;
    while i < n
        invariant
            i <= n,
            n == b.content@.len(),
            head == encode_header(b@.header) + hex_nat(b@.content.len(), 16),
            b@.content == b.content@.map_values(|t: IshIshTransaction| t@),
            out@ == head + encode_txs(b@.content.take(i as int)),
        decreases n - i,
    {
        encode_tx_into(&mut out, &b.content[i]);
        proof {
            assert(b@.content.take(i + 1) =~= b@.content.take(i as int) + seq![b@.content[i as int]]);
            lemma_encode_txs_append(b@.content.take(i as int), seq![b@.content[i as int]]);
            reveal_with_fuel(encode_txs, 3);
            assert(seq![b@.content[i as int]].drop_first() =~= Seq::<TxView>::empty());
            assert(encode_txs(seq![b@.content[i as int]]) =~= encode_tx(b@.content[i as int]));
            assert(b@.content[i as int] == b.content@[i as int]@);
            assert(out@ =~= head + encode_txs(b@.content.take(i + 1)));
        }
        i += 1;
    }
    proof {
        assert(b@.content.take(n as int) =~= b@.content);
        assert(out@ =~= encode_block(b@));
    }
    out
}

/// Serializes a whole chain canonically.
pub fn serialize_chain(chain: &IshIshBlockchain) -> (r: Vec<u8>)
    ensures
        r@ == encode_chain(chain@),
{
    let mut out: Vec<u8> = Vec::new();
    let n: usize = chain.blocks.len();
    push_hex_u64(&mut out, n as u64);
    let ghost head = out@;
    proof {
        assert(chain@.take(0) =~= Seq::<BlockView>::empty());
        assert(out@ =~= head + encode_blocks(chain@.take(0)));
    }
    let mut i: usize = 0;
    while i < n
        invariant
            i <= n,
            n == chain.blocks@.len(),
            head == hex_nat(chain@.len(), 16),
            chain@ == chain.blocks@.map_values(|b: IshIshBlock| b@),
            out@ == head + encode_blocks(chain@.take(i as int)),
        decreases n - i,
    {
        let mut piece = serialize_block(&chain.blocks[i]);
        out.append(&mut piece);
        proof {
            assert(chain@.take(i + 1) =~= chain@.take(i as int) + seq![chain@[i as int]]);
            lemma_encode_blocks_append(chain@.take(i as int), seq![chain@[i as int]]);
            reveal_with_fuel(encode_blocks, 3);
            assert(seq![chain@[i as int]].drop_first() =~= Seq::<BlockView>::empty());
            assert(encode_blocks(seq![chain@[i as int]]) =~= encode_block(chain@[i as int]));
            assert(out@ =~= head + encode_blocks(chain@.take(i + 1)));
        }
        i += 1;
    }
    proof {
        assert(chain@.take(n as int) =~= chain@);
        assert(out@ =~= encode_chain(chain@));
    }
    out
}

/// Copies `n` bytes starting at `start` into a 20-byte array.
fn to_arr20(v: &Vec<u8>) -> (r: [u8; 20])
    requires
        v@.len() == 20,
    ensures
        r@ == v@,
{
    let mut r = [0u8; 20];
    let mut i: usize = 0;
    while i < 20
        invariant
            i <= 20,
            v@.len() == 20,
            forall|j: int| 0 <= j < i ==> r@[j] == v@[j],
        decreases 20 - i,
    {
        r[i] = v[i];
        i += 1;
    }
    proof {
        assert(r@ =~= v@);
    }
    r
}

/// Copies a 32-byte vector into a 32-byte array.
fn to_arr32(v: &Vec<u8>) -> (r: [u8; 32])
    requires
        v@.len() == 32,
    ensures
        r@ == v@,
{
    let mut r = [0u8; 32];
    let mut i: usize = 0;
    while i < 32
        invariant
            i <= 32,
            v@.len() == 32,
            forall|j: int| 0 <= j < i ==> r@[j] == v@[j],
        decreases 32 - i,
    {
        r[i] = v[i];
        i += 1;
    }
    proof {
        assert(r@ =~= v@);
    }
    r
}

/// A two-character sequence decodes as a number exactly as a byte pair.
proof fn lemma_unhex_nat_pair(c1: u8, c2: u8)
    ensures
        unhex_nat(seq![c1, c2]) == match crate::hex::unhex_byte(c1, c2) {
            Some(b) => Some(b as nat),
            None => None::<nat>,
        },
{
    reveal_with_fuel(unhex_nat, 4);
    let t = seq![c1, c2];
    assert(t.drop_last() =~= seq![c1]);
    assert(seq![c1].drop_last() =~= Seq::<u8>::empty());
}

/// Decodes the header written at `start`.
fn parse_header_at(v: &[u8], start: usize) -> (r: Option<IshIshBlockHeader>)
    requires
        start + 202 <= v@.len(),
    ensures
        parse_header(v@.subrange(start as int, start + 202)) == match r {
            Some(h) => Some(h@),
            None => None::<HeaderView>,
        },
{
    let ghost s = v@.subrange(start as int, start + 202);
    let vlen: usize = v.len();
    proof {
        assert(start + 202 <= vlen);
        assert(s.subrange(0, 40) =~= v@.subrange(start as int, start + 40));
        assert(s.subrange(40, 56) =~= v@.subrange(start + 40, start + 56));
        assert(s.subrange(56, 72) =~= v@.subrange(start + 56, start + 72));
        assert(s.subrange(72, 74) =~= seq![v@[start + 72], v@[start + 73]]);
        assert(s.subrange(74, 138) =~= v@.subrange(start + 74, start + 138));
        assert(s.subrange(138, 202) =~= v@.subrange(start + 138, start + 202));
    }
    let coinbase = match unhex_range(v, start, 20) {
        Some(x) => x,
        None => {
            return None;
        },
    };
    let number = match unhex_u64_at(v, start + 40) {
        Some(x) => x,
        None => {
            return None;
        },
    };
    let nonce = match unhex_u64_at(v, start + 56) {
        Some(x) => x,
        None => {
            return None;
        },
    };
    let c1 = v[start + 72];
    let c2 = v[start + 73];
    proof {
        lemma_unhex_nat_pair(c1, c2);
    }
    let difficulty = match crate::hex::unhex_byte_chars(c1, c2) {
        Some(x) => x,
        None => {
            return None;
        },
    };
    let cur = match unhex_range(v, start + 74, 32) {
        Some(x) => x,
        None => {
            return None;
        },
    };
    let prev = match unhex_range(v, start + 138, 32) {
        Some(x) => x,
        None => {
            return None;
        },
    };
    let h = IshIshBlockHeader {
        coinbase: Address::from_bytes(to_arr20(&coinbase)),
        number,
        nonce,
        difficulty,
        cur_hash: to_arr32(&cur),
        prev_hash: to_arr32(&prev),
    };
    proof {
        assert(parse_header(s) == Some(h@));
    }
    Some(h)
}

/// Decodes the transaction written at `start`.
fn parse_tx_at(v: &[u8], start: usize) -> (r: Option<IshIshTransaction>)
    requires
        start + 96 <= v@.len(),
    ensures
        parse_tx(v@.subrange(start as int, start + 96)) == match r {
            Some(t) => Some(t@),
            None => None::<TxView>,
        },
{
    let ghost s = v@.subrange(start as int, start + 96);
    let vlen: usize = v.len();
    proof {
        assert(start + 96 <= vlen);
        assert(s.subrange(0, 40) =~= v@.subrange(start as int, start + 40));
        assert(s.subrange(40, 80) =~= v@.subrange(start + 40, start + 80));
        assert(s.subrange(80, 96) =~= v@.subrange(start + 80, start + 96));
    }
    let from = match unhex_range(v, start, 20) {
        Some(x) => x,
        None => {
            return None;
        },
    };
    let to = match unhex_range(v, start + 40, 20) {
        Some(x) => x,
        None => {
            return None;
        },
    };
    let amount = match unhex_u64_at(v, start + 80) {
        Some(x) => x,
        None => {
            return None;
        },
    };
    let t = IshIshTransaction {
        from: Address::from_bytes(to_arr20(&from)),
        to: Address::from_bytes(to_arr20(&to)),
        amount,
    };
    proof {
        assert(parse_tx(s) == Some(t@));
    }
    Some(t)
}

/// Decodes one block written at `start`, yielding how many characters
/// it occupied.
#[verifier::rlimit(50)]
#[verifier::loop_isolation(false)]
fn parse_block_at(v: &[u8], start: usize) -> (r: Option<(IshIshBlock, usize)>)
    requires
        start <= v@.len(),
    ensures
        parse_block(v@.skip(start as int)) == match r {
            Some((b, used)) => Some((b@, used as nat)),
            None => None::<(BlockView, nat)>,
        },
        match r {
            Some((b, used)) => start + used <= v@.len() && used >= 218,
            None => true,
        },
{
    let ghost s = v@.skip(start as int);
    let vlen: usize = v.len();
    if vlen - start < 218 {
        return None;
    }
    proof {
        assert(s.subrange(0, 202) =~= v@.subrange(start as int, start + 202));
        assert(s.subrange(202, 218) =~= v@.subrange(start + 202, start + 218));
    }
    let header = match parse_header_at(v, start) {
        Some(h) => h,
        None => {
            return None;
        },
    };
    let cnt = match unhex_u64_at(v, start + 202) {
        Some(x) => x,
        None => {
            return None;
        },
    };
    let remaining: u128 = (vlen - start) as u128;
    if 218u128 + 96u128 * (cnt as u128) > remaining {
        return None;
    }
    let txs_total: usize = (96u128 * (cnt as u128)) as usize;
    let ghost txbytes = s.subrange(218, 218 + 96 * (cnt as int));
    let mut content: Vec<IshIshTransaction> = Vec::new();
    let mut j: u64 = 0;
    proof {
        assert(txbytes.skip(0) =~= txbytes);
        if let Some(r) = parse_txs(txbytes, cnt as nat) {
            assert(Seq::<TxView>::empty() + r =~= r);
        }
    }
    while j < cnt
        invariant
            j <= cnt,
            vlen == v@.len(),
            start + 218 + 96 * (cnt as int) <= vlen,
            s == v@.skip(start as int),
            txbytes == s.subrange(218, 218 + 96 * (cnt as int)),
            content@.len() == j,
            content@.map_values(|t: IshIshTransaction| t@).len() == j,
            parse_txs(txbytes, cnt as nat) == match parse_txs(
                txbytes.skip(96 * (j as int)),
                (cnt - j) as nat,
            ) {
                Some(r) => Some(content@.map_values(|t: IshIshTransaction| t@) + r),
                None => None::<Seq<TxView>>,
            },
        decreases cnt - j,
    {
        let off: usize = start + 218 + 96 * (j as usize);
        proof {
            assert(txbytes.skip(96 * (j as int)).subrange(0, 96) =~= v@.subrange(
                off as int,
                off + 96,
            ));
        }
        let t = match parse_tx_at(v, off) {
            Some(t) => t,
            None => {
                proof {
                    assert(txbytes.len() == 96 * (cnt as int));
                    assert(txbytes.skip(96 * (j as int)).len() >= 96);
                    assert(parse_tx(txbytes.skip(96 * (j as int)).subrange(0, 96))
                        == None::<TxView>);
                    assert(parse_txs(txbytes.skip(96 * (j as int)), (cnt - j) as nat)
                        == None::<Seq<TxView>>);
                    assert(parse_txs(txbytes, cnt as nat) == None::<Seq<TxView>>);
                }
                return None;
            },
        };
        content.push(t);
        proof {
            assert(txbytes.skip(96 * (j as int)).skip(96) =~= txbytes.skip(96 * (j + 1)));
            let cv = content@.map_values(|t: IshIshTransaction| t@);
            assert(cv =~= cv.drop_last().push(t@));
            if let Some(r) = parse_txs(txbytes.skip(96 * (j + 1)), (cnt - j - 1) as nat) {
                assert(cv.drop_last() + (seq![t@] + r) =~= cv + r);
            }
        }
        j += 1;
    }
    proof {
        assert(txbytes.skip(96 * (cnt as int)) =~= Seq::<u8>::empty());
        assert(content@.map_values(|t: IshIshTransaction| t@) + Seq::<TxView>::empty()
            =~= content@.map_values(|t: IshIshTransaction| t@));
    }
    let used: usize = 218 + txs_total;
    let b = IshIshBlock { header, content };
    proof {
        assert(parse_block(s) == Some((b@, used as nat)));
    }
    Some((b, used))
}

/// Decodes a whole chain from its canonical serialization.
pub fn deserialize_chain(bytes: &Vec<u8>) -> (r: Result<IshIshBlockchain, IshIshError>)
    ensures
        match r {
            Ok(c) => parse_chain(bytes@) == Some(c@),
            Err(e) => parse_chain(bytes@) == None::<Seq<BlockView>> && e
                == IshIshError::ParseError,
        },
{
    let ghost s = bytes@;
    let vlen: usize = bytes.len();
    if vlen < 16 {
        return Err(IshIshError::ParseError);
    }
    let n = match unhex_u64_at(bytes.as_slice(), 0) {
        Some(x) => x,
        None => {
            proof {
                assert(s.subrange(0, 16) =~= bytes@.subrange(0, 16));
            }
            return Err(IshIshError::ParseError);
        },
    };
    proof {
        assert(s.subrange(0, 16) =~= bytes@.subrange(0, 16));
    }
    let mut blocks: Vec<IshIshBlock> = Vec::new();
    let mut offset: usize = 16;
    let mut i: u64 = 0;
    proof {
        assert(s.skip(16).skip(0) =~= s.skip(16));
        if let Some(r) = parse_blocks(s.skip(16), n as nat) {
            assert(Seq::<BlockView>::empty() + r =~= r);
        }
    }
    while i < n
        invariant
            i <= n,
            vlen == bytes@.len(),
            s == bytes@,
            16 <= offset <= vlen,
            blocks@.len() == i,
            parse_chain(s) == match parse_blocks(s.skip(offset as int), (n - i) as nat) {
                Some(r) => Some(blocks@.map_values(|b: IshIshBlock| b@) + r),
                None => None::<Seq<BlockView>>,
            },
        decreases n - i,
    {
        let (b, used) = match parse_block_at(bytes.as_slice(), offset) {
            Some(x) => x,
            None => {
                return Err(IshIshError::ParseError);
            },
        };
        blocks.push(b);
        proof {
            assert(s.skip(offset as int).skip(used as int) =~= s.skip(offset + used));
            let bv = blocks@.map_values(|b: IshIshBlock| b@);
            assert(bv =~= bv.drop_last().push(b@));
            if let Some(r) = parse_blocks(s.skip(offset + used), (n - i - 1) as nat) {
                assert(bv.drop_last() + (seq![b@] + r) =~= bv + r);
            }
        }
        offset += used;
        i += 1;
    }
    if offset != vlen {
        proof {
            assert(s.skip(offset as int).len() > 0);
        }
        return Err(IshIshError::ParseError);
    }
    proof {
        assert(s.skip(offset as int) =~= Seq::<u8>::empty());
        let bv = blocks@.map_values(|b: IshIshBlock| b@);
        assert(bv + Seq::<BlockView>::empty() =~= bv);
    }
    Ok(IshIshBlockchain { blocks })
}

/// Decodes one transaction from its canonical serialization.
pub fn deserialize_transaction(bytes: &Vec<u8>) -> (r: Result<IshIshTransaction, IshIshError>)
    ensures
        match r {
            Ok(t) => parse_tx(bytes@) == Some(t@),
            Err(e) => parse_tx(bytes@) == None::<TxView> && e == IshIshError::ParseError,
        },
{
    let vlen: usize = bytes.len();
    if vlen != 96 {
        return Err(IshIshError::ParseError);
    }
    proof {
        assert(bytes@.subrange(0, 96) =~= bytes@);
    }
    match parse_tx_at(bytes.as_slice(), 0) {
        Some(t) => Ok(t),
        None => Err(IshIshError::ParseError),
    }
}

/// The three-byte tag announcing a full chain ("new block mined").
pub open spec fn nbm_tag() -> Seq<u8> {
    seq![78u8, 66u8, 77u8]
}

/// The three-byte tag announcing a pending transaction.
pub open spec fn tra_tag() -> Seq<u8> {
    seq![84u8, 82u8, 65u8]
}

/// Builds the wire frame that advertises the whole chain.
pub fn nbm_frame(chain: &IshIshBlockchain) -> (r: Vec<u8>)
    ensures
        r@ == nbm_tag() + encode_chain(chain@),
{
    let mut out: Vec<u8> = Vec::new();
    out.push(78);
    out.push(66);
    out.push(77);
    let mut payload = serialize_chain(chain);
    out.append(&mut payload);
    proof {
        assert(out@ =~= nbm_tag() + encode_chain(chain@));
    }
    out
}

/// Builds the wire frame that advertises one pending transaction.
pub fn tra_frame(t: &IshIshTransaction) -> (r: Vec<u8>)
    ensures
        r@ == tra_tag() + encode_tx(t@),
{
    let mut out: Vec<u8> = Vec::new();
    out.push(84);
    out.push(82);
    out.push(65);
    let mut payload = serialize_transaction(t);
    out.append(&mut payload);
    proof {
        assert(out@ =~= tra_tag() + encode_tx(t@));
    }
    out
}

/// An inbound wire frame split into its tag's meaning and payload.
#[derive(Debug)]
pub enum IshIshBlockchainEvent {
    NewBlockMined(Vec<u8>),
    NewSignedTransaction(Vec<u8>),
    SthElse((Vec<u8>, Vec<u8>)),
}

/// Copies the bytes of `v` from `from` (inclusive) to `to` (exclusive).
fn copy_range(v: &Vec<u8>, from: usize, to: usize) -> (r: Vec<u8>)
    requires
        from <= to <= v@.len(),
    ensures
        r@ == v@.subrange(from as int, to as int),
{
    let mut out: Vec<u8> = Vec::new();
    let mut i: usize = from;
    while i < to
        invariant
            from <= i <= to <= v@.len(),
            out@ == v@.subrange(from as int, i as int),
        decreases to - i,
    {
        out.push(v[i]);
        proof {
            assert(out@ =~= v@.subrange(from as int, i + 1));
        }
        i += 1;
    }
    out
}

impl IshIshBlockchainEvent {
    /// Splits an inbound frame into tag and payload. Frames shorter than
    /// the tag, or not valid UTF-8, are rejected.
    pub fn try_from(value: &Vec<u8>) -> (r: Result<IshIshBlockchainEvent, IshIshError>)
        ensures
            match r {
                Ok(IshIshBlockchainEvent::NewBlockMined(p)) => value@.len() >= 3
                    && vstd::utf8::valid_utf8(value@) && value@.take(3) == nbm_tag() && p@
                    == value@.skip(3),
                Ok(IshIshBlockchainEvent::NewSignedTransaction(p)) => value@.len() >= 3
                    && vstd::utf8::valid_utf8(value@) && value@.take(3) == tra_tag() && p@
                    == value@.skip(3),
                Ok(IshIshBlockchainEvent::SthElse((t, p))) => value@.len() >= 3
                    && vstd::utf8::valid_utf8(value@) && value@.take(3) != nbm_tag()
                    && value@.take(3) != tra_tag() && t@ == value@.take(3) && p@ == value@.skip(
                    3,
                ),
                Err(e) => e == IshIshError::ParseError && (value@.len() < 3
                    || !vstd::utf8::valid_utf8(value@)),
            },
    {
        let vlen: usize = value.len();
        if vlen < 3 {
            return Err(IshIshError::ParseError);
        }
        if !crate::crypto::is_utf8(value.as_slice()) {
            return Err(IshIshError::ParseError);
        }
        let t0 = value[0];
        let t1 = value[1];
        let t2 = value[2];
        let payload = copy_range(value, 3, vlen);
        proof {
            assert(value@.subrange(3, vlen as int) =~= value@.skip(3));
            assert(value@.take(3) =~= seq![t0, t1, t2]);
        }
        if t0 == 78 && t1 == 66 && t2 == 77 {
            proof {
                assert(value@.take(3) =~= nbm_tag());
            }
            Ok(IshIshBlockchainEvent::NewBlockMined(payload))
        } else if t0 == 84 && t1 == 82 && t2 == 65 {
            proof {
                assert(value@.take(3) =~= tra_tag());
            }
            Ok(IshIshBlockchainEvent::NewSignedTransaction(payload))
        } else {
            let tag = copy_range(value, 0, 3);
            proof {
                assert(value@.subrange(0, 3) =~= value@.take(3));
                assert(nbm_tag()[0] == 78 && nbm_tag()[1] == 66 && nbm_tag()[2] == 77);
                assert(tra_tag()[0] == 84 && tra_tag()[1] == 82 && tra_tag()[2] == 65);
            }
            Ok(IshIshBlockchainEvent::SthElse((tag, payload)))
        }
    }
}

/// The view of any chain value is well formed: its field widths are
/// fixed by the arrays they come from, and its counts fit in 64 bits.
pub proof fn lemma_chain_view_wf(c: IshIshBlockchain)
    ensures
        wf_chain(c@),
{
    broadcast use vstd::std_specs::vec::axiom_spec_len;

    assert(vstd::std_specs::vec::spec_vec_len(&c.blocks) == c.blocks@.len());
    assert forall|i: int| 0 <= i < c@.len() implies wf_block(#[trigger] c@[i]) by {
        assert(c@[i] == c.blocks@[i]@);
        lemma_block_view_wf(c.blocks@[i]);
    }
}

/// The view of any block value is well formed.
pub proof fn lemma_block_view_wf(b: IshIshBlock)
    ensures
        wf_block(b@),
{
    broadcast use vstd::std_specs::vec::axiom_spec_len;

    assert(vstd::std_specs::vec::spec_vec_len(&b.content) == b.content@.len());
    assert forall|i: int| 0 <= i < b@.content.len() implies wf_tx(#[trigger] b@.content[i]) by {
        assert(b@.content[i] == b.content@[i]@);
    }
}

/// Decoding inverts encoding on every chain value: the canonical
/// serialization loses nothing.
pub proof fn lemma_chain_codec_roundtrip(c: IshIshBlockchain)
    ensures
        parse_chain(encode_chain(c@)) == Some(c@),
{
    lemma_chain_view_wf(c);
    lemma_parse_chain_roundtrip(c@);
}

/// Decoding inverts encoding on every transaction value.
pub proof fn lemma_tx_codec_roundtrip(t: IshIshTransaction)
    ensures
        parse_tx(encode_tx(t@)) == Some(t@),
{
    lemma_parse_tx_roundtrip(t@);
}

/// A block's hash is stable under encoding and decoding: the decoded
/// block is the block itself, so it hashes to the same digest.
pub proof fn lemma_hash_stable_under_codec(b: IshIshBlock)
    ensures
        parse_block(encode_block(b@) + Seq::<u8>::empty()) matches Some((v, _)) && crate::blockchain::spec_block_hash(v) == crate::blockchain::spec_block_hash(b@),
{
    lemma_block_view_wf(b);
    lemma_parse_block_prefix(b@, Seq::<u8>::empty());
}

/// All bytes ASCII: each below 128.
pub open spec fn all_ascii(s: Seq<u8>) -> bool {
    forall|i: int| 0 <= i < s.len() ==> s[i] < 128
}

/// An all-ASCII byte sequence is valid UTF-8.
pub proof fn lemma_ascii_valid_utf8(s: Seq<u8>)
    requires
        all_ascii(s),
    ensures
        vstd::utf8::valid_utf8(s),
    decreases s.len(),
{
    if s.len() > 0 {
        assert(vstd::utf8::is_leading_byte_width_1(s[0]));
        assert(vstd::utf8::length_of_first_scalar(s) == 1);
        assert(vstd::utf8::valid_first_scalar(s));
        let rest = vstd::utf8::pop_first_scalar(s);
        assert(rest =~= s.subrange(1, s.len() as int));
        lemma_ascii_valid_utf8(rest);
    }
}

pub proof fn lemma_hex_bytes_ascii(s: Seq<u8>)
    ensures
        all_ascii(hex_bytes(s)),
    decreases s.len(),
{
    if s.len() > 0 {
        lemma_hex_bytes_ascii(s.drop_first());
    }
}

pub proof fn lemma_hex_nat_ascii(v: nat, w: nat)
    ensures
        all_ascii(hex_nat(v, w)),
    decreases w,
{
    if w > 0 {
        lemma_hex_nat_ascii(v / 16, (w - 1) as nat);
        lemma_hex_nat_len(v / 16, (w - 1) as nat);
    }
}

pub proof fn lemma_ascii_append(u: Seq<u8>, v: Seq<u8>)
    requires
        all_ascii(u),
        all_ascii(v),
    ensures
        all_ascii(u + v),
{
    assert forall|i: int| 0 <= i < (u + v).len() implies (u + v)[i] < 128 by {
        if i < u.len() {
            assert((u + v)[i] == u[i]);
        } else {
            assert((u + v)[i] == v[i - u.len()]);
        }
    }
}

pub proof fn lemma_encode_tx_ascii(t: TxView)
    ensures
        all_ascii(encode_tx(t)),
{
    lemma_hex_bytes_ascii(t.from);
    lemma_hex_bytes_ascii(t.to);
    lemma_hex_nat_ascii(t.amount as nat, 16);
    lemma_ascii_append(hex_bytes(t.from), hex_bytes(t.to));
    lemma_ascii_append(hex_bytes(t.from) + hex_bytes(t.to), hex_nat(t.amount as nat, 16));
}

pub proof fn lemma_encode_header_ascii(h: HeaderView)
    ensures
        all_ascii(encode_header(h)),
{
    lemma_hex_bytes_ascii(h.coinbase);
    lemma_hex_nat_ascii(h.number as nat, 16);
    lemma_hex_nat_ascii(h.nonce as nat, 16);
    lemma_hex_nat_ascii(h.difficulty as nat, 2);
    lemma_hex_bytes_ascii(h.cur_hash);
    lemma_hex_bytes_ascii(h.prev_hash);
    let a = hex_bytes(h.coinbase);
    let b = a + hex_nat(h.number as nat, 16);
    let c = b + hex_nat(h.nonce as nat, 16);
    let d = c + hex_nat(h.difficulty as nat, 2);
    let e = d + hex_bytes(h.cur_hash);
    lemma_ascii_append(a, hex_nat(h.number as nat, 16));
    lemma_ascii_append(b, hex_nat(h.nonce as nat, 16));
    lemma_ascii_append(c, hex_nat(h.difficulty as nat, 2));
    lemma_ascii_append(d, hex_bytes(h.cur_hash));
    lemma_ascii_append(e, hex_bytes(h.prev_hash));
}

pub proof fn lemma_encode_txs_ascii(s: Seq<TxView>)
    ensures
        all_ascii(encode_txs(s)),
    decreases s.len(),
{
    if s.len() > 0 {
        lemma_encode_tx_ascii(s[0]);
        lemma_encode_txs_ascii(s.drop_first());
        lemma_ascii_append(encode_tx(s[0]), encode_txs(s.drop_first()));
    }
}

pub proof fn lemma_encode_block_ascii(b: BlockView)
    ensures
        all_ascii(encode_block(b)),
{
    lemma_encode_header_ascii(b.header);
    lemma_hex_nat_ascii(b.content.len(), 16);
    lemma_encode_txs_ascii(b.content);
    lemma_ascii_append(encode_header(b.header), hex_nat(b.content.len(), 16));
    lemma_ascii_append(
        encode_header(b.header) + hex_nat(b.content.len(), 16),
        encode_txs(b.content),
    );
}

pub proof fn lemma_encode_blocks_ascii(s: Seq<BlockView>)
    ensures
        all_ascii(encode_blocks(s)),
    decreases s.len(),
{
    if s.len() > 0 {
        lemma_encode_block_ascii(s[0]);
        lemma_encode_blocks_ascii(s.drop_first());
        lemma_ascii_append(encode_block(s[0]), encode_blocks(s.drop_first()));
    }
}

pub proof fn lemma_encode_chain_ascii(c: Seq<BlockView>)
    ensures
        all_ascii(encode_chain(c)),
{
    lemma_hex_nat_ascii(c.len(), 16);
    lemma_encode_blocks_ascii(c);
    lemma_ascii_append(hex_nat(c.len(), 16), encode_blocks(c));
}

/// Every chain frame the node sends is a valid UTF-8 byte string, as the
/// wire format demands: the tag letters and hex digits are all ASCII.
pub proof fn lemma_nbm_frame_utf8(chain: IshIshBlockchain)
    ensures
        vstd::utf8::valid_utf8(nbm_tag() + encode_chain(chain@)),
{
    lemma_encode_chain_ascii(chain@);
    assert(all_ascii(nbm_tag()));
    lemma_ascii_append(nbm_tag(), encode_chain(chain@));
    lemma_ascii_valid_utf8(nbm_tag() + encode_chain(chain@));
}

/// Every transaction frame the node sends is a valid UTF-8 byte string.
pub proof fn lemma_tra_frame_utf8(t: IshIshTransaction)
    ensures
        vstd::utf8::valid_utf8(tra_tag() + encode_tx(t@)),
{
    lemma_encode_tx_ascii(t@);
    assert(all_ascii(tra_tag()));
    lemma_ascii_append(tra_tag(), encode_tx(t@));
    lemma_ascii_valid_utf8(tra_tag() + encode_tx(t@));
}

/// The wire round trip for chains: the frame the node sends is long
/// enough, valid UTF-8, carries the chain tag, and its payload decodes
/// back to the very chain.
pub proof fn lemma_nbm_frame_roundtrip(chain: IshIshBlockchain)
    ensures
        ({
            let f = nbm_tag() + encode_chain(chain@);
            f.len() >= 3 && vstd::utf8::valid_utf8(f) && f.take(3) == nbm_tag() && parse_chain(
                f.skip(3),
            ) == Some(chain@)
        }),
{
    lemma_nbm_frame_utf8(chain);
    lemma_chain_codec_roundtrip(chain);
    assert((nbm_tag() + encode_chain(chain@)).take(3) =~= nbm_tag());
    assert((nbm_tag() + encode_chain(chain@)).skip(3) =~= encode_chain(chain@));
}

/// The wire round trip for transactions.
pub proof fn lemma_tra_frame_roundtrip(t: IshIshTransaction)
    ensures
        ({
            let f = tra_tag() + encode_tx(t@);
            f.len() >= 3 && vstd::utf8::valid_utf8(f) && f.take(3) == tra_tag() && parse_tx(
                f.skip(3),
            ) == Some(t@)
        }),
{
    lemma_tra_frame_utf8(t);
    lemma_tx_codec_roundtrip(t);
    assert((tra_tag() + encode_tx(t@)).take(3) =~= tra_tag());
    assert((tra_tag() + encode_tx(t@)).skip(3) =~= encode_tx(t@));
}

/// Splits a console message at its first character: a leading blank
/// yields an empty head and the rest, anything else yields the whole
/// message; an empty message yields nothing.
pub fn explode<'a>(message: &'a str) -> (r: Option<(&'a str, &'a str)>)
    ensures
        match r {
            None => message.spec_bytes().len() == 0,
            Some((head, tail)) => message.spec_bytes().len() > 0 && (
            if message.spec_bytes()[0] == 32 {
                head.spec_bytes().len() == 0 && tail.spec_bytes() == message.spec_bytes().skip(1)
            } else {
                head.spec_bytes() == message.spec_bytes() && tail.spec_bytes().len() == 0
            }),
        },
{
    let bytes = message.as_bytes();
    if bytes.len() == 0 {
        return None;
    }
    if bytes[0] == 32 {
        proof {
            vstd::utf8::encode_utf8_valid_utf8(message@);
            lemma_boundary_after_ascii(message.spec_bytes());
        }
        let (_, tail) = message.split_at(1);
        let empty = "";
        proof {
            reveal_strlit("");
            assert(empty.spec_bytes() =~= vstd::utf8::encode_utf8(empty@));
            assert(tail.spec_bytes() =~= message.spec_bytes().skip(1));
        }
        Some((empty, tail))
    } else {
        let empty = "";
        proof {
            reveal_strlit("");
        }
        Some((message, empty))
    }
}

/// In a valid UTF-8 sequence that starts with an ASCII byte, index 1 is
/// a character boundary.
proof fn lemma_boundary_after_ascii(bytes: Seq<u8>)
    requires
        vstd::utf8::valid_utf8(bytes),
        bytes.len() > 0,
        bytes[0] < 128,
    ensures
        vstd::utf8::is_char_boundary(bytes, 1),
{
    assert(vstd::utf8::length_of_first_scalar(bytes) == 1);
    assert(vstd::utf8::is_char_boundary(vstd::utf8::pop_first_scalar(bytes), 0));
}

/// Compares two 32-byte hashes.
pub fn bytes32_eq(a: &[u8; 32], b: &[u8; 32]) -> (r: bool)
    ensures
        r == (a@ == b@),
{
    let mut i: usize = 0;
    while i < 32
        invariant
            i <= 32,
            forall|j: int| 0 <= j < i ==> a@[j] == b@[j],
        decreases 32 - i,
    {
        if a[i] != b[i] {
            return false;
        }
        i += 1;
    }
    proof {
        assert(a@ =~= b@);
    }
    true
}

} // verus!
