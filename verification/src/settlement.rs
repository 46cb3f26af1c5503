//! The account ledger and the state transition a block settles.
//!
//! Balances are kept as unsigned 256-bit integers and read out truncated
//! to 64 bits. A credit wraps modulo 2^256; a debit that exceeds the
//! balance saturates at zero (the debit is otherwise unchecked, as the
//! transfer rule has no signature or funds check).

use vstd::prelude::*;

use crate::address::Address;
use crate::blockchain::{BlockView, IshIshBlock, IshIshBlockchain, IshIshTransaction, TxView};
use vstd::arithmetic::div_mod::{lemma_mod_multiples_vanish, lemma_small_mod};

verus! {

/// `2^64`.
pub open spec fn p64() -> nat {
    0x10000000000000000nat
}

/// `2^128`.
pub open spec fn p128() -> nat {
    0x100000000000000000000000000000000nat
}

/// `2^256`.
pub open spec fn p256() -> nat {
    0x10000000000000000000000000000000000000000000000000000000000000000nat
}

/// `(v + a) % 2^256`: a credit wraps like the 256-bit register it
/// lives in.
pub open spec fn add_mod(v: nat, a: nat) -> nat {
    (v + a) % p256()
}

/// `v - a`, saturating at zero.
pub open spec fn sub_sat(v: nat, a: nat) -> nat {
    if a <= v {
        (v - a) as nat
    } else {
        0
    }
}

/// An account balance: an unsigned 256-bit integer in two 128-bit limbs.
#[derive(Clone, Copy, Debug)]
pub struct Balance {
    pub lo: u128,
    pub hi: u128,
}

impl View for Balance {
    type V = nat;

    open spec fn view(&self) -> nat {
        self.lo as nat + (self.hi as nat) * p128()
    }
}

impl Balance {
    /// The zero balance.
    pub fn zero() -> (r: Balance)
        ensures
            r@ == 0,
    {
        Balance { lo: 0, hi: 0 }
    }

    /// Every representable balance is below 2^256.
    proof fn lemma_bound(self)
        ensures
            self@ < p256(),
    {
        let l: nat = self.lo as nat;
        let h: nat = self.hi as nat;
        assert(l + h * p128() < p128() * p128()) by (nonlinear_arith)
            requires
                l < p128(),
                h < p128(),
        ;
    }

    /// Credits the balance, wrapping modulo 2^256.
    pub fn credit(&mut self, amount: u64)
        ensures
            final(self)@ == add_mod(old(self)@, amount as nat),
    {
        let ghost l0: nat = self.lo as nat;
        let ghost h0: nat = self.hi as nat;
        let ghost v0: nat = self@;
        match self.lo.checked_add(amount as u128) {
            Some(x) => {
                self.lo = x;
                proof {
                    assert(self@ == v0 + amount);
                    self.lemma_bound();
                    lemma_small_mod(self@, p256());
                }
            },
            None => {
                let rem: u128 = u128::MAX - self.lo;
                self.lo = (amount as u128) - rem - 1;
                proof {
                    assert(self.lo as nat == l0 + amount - p128());
                }
                match self.hi.checked_add(1) {
                    Some(h) => {
                        self.hi = h;
                        proof {
                            let h1: nat = self.hi as nat;
                            assert(h1 * p128() == h0 * p128() + p128()) by (nonlinear_arith)
                                requires
                                    h1 == h0 + 1,
                            ;
                            assert(self@ == v0 + amount);
                            self.lemma_bound();
                            lemma_small_mod(self@, p256());
                        }
                    },
                    None => {
                        self.hi = 0;
                        proof {
                            assert(h0 * p128() == p256() - p128()) by (nonlinear_arith)
                                requires
                                    h0 == p128() - 1,
                            ;
                            assert(v0 + amount == p256() + self@);
                            assert(((p256() as int) * 1 + self@ as int) % (p256() as int) == (
                            self@ as int) % (p256() as int)) by {
                                lemma_mod_multiples_vanish(1, self@ as int, p256() as int);
                            }
                            self.lemma_bound();
                            lemma_small_mod(self@, p256());
                        }
                    },
                }
            },
        }
    }

    /// Debits the balance, saturating at zero when the amount exceeds it.
    pub fn debit(&mut self, amount: u64)
        ensures
            final(self)@ == sub_sat(old(self)@, amount as nat),
    {
        if self.lo >= amount as u128 {
            self.lo = self.lo - amount as u128;
        } else if self.hi > 0 {
            let ghost h0: nat = self.hi as nat;
            self.lo = self.lo + (u128::MAX - amount as u128) + 1;
            self.hi = self.hi - 1;
            proof {
                let h1: nat = self.hi as nat;
                assert(h0 * p128() == h1 * p128() + p128()) by (nonlinear_arith)
                    requires
                        h0 == h1 + 1,
                ;
            }
        } else {
            self.lo = 0;
        }
    }

    /// The balance truncated to 64 bits, as read out externally.
    pub fn truncated(&self) -> (r: u64)
        ensures
            r as nat == self@ % p64(),
    {
        proof {
            let h: nat = self.hi as nat;
            let a: nat = p64();
            assert(p128() == a * a);
            assert(h * (a * a) == a * (h * a)) by (nonlinear_arith);
            assert(((a as int) * ((h * a) as int) + self.lo as int) % (a as int) == (
            self.lo as int) % (a as int)) by {
                lemma_mod_multiples_vanish((h * a) as int, self.lo as int, a as int);
            }
            assert(self@ % p64() == (self.lo as nat) % p64());
        }
        (self.lo % 0x10000000000000000u128) as u64
    }
}

/// The ledger map every account balance lives in: total over all
/// addresses, zero where no account exists.
pub open spec fn empty_ledger() -> Map<Seq<u8>, nat> {
    Map::total(|a: Seq<u8>| 0nat)
}

/// Crediting one account in the map.
pub open spec fn spec_credit(m: Map<Seq<u8>, nat>, a: Seq<u8>, amount: u64) -> Map<Seq<u8>, nat> {
    m.insert(a, add_mod(m[a], amount as nat))
}

/// Debiting one account in the map, saturating at zero.
pub open spec fn spec_debit(m: Map<Seq<u8>, nat>, a: Seq<u8>, amount: u64) -> Map<Seq<u8>, nat> {
    m.insert(a, sub_sat(m[a], amount as nat))
}

/// One transfer: debit the sender, then credit the receiver.
pub open spec fn spec_apply_tx(m: Map<Seq<u8>, nat>, t: TxView) -> Map<Seq<u8>, nat> {
    spec_credit(spec_debit(m, t.from, t.amount), t.to, t.amount)
}

/// All transfers of a block, in order.
pub open spec fn spec_apply_txs(m: Map<Seq<u8>, nat>, s: Seq<TxView>) -> Map<Seq<u8>, nat>
    decreases s.len(),
{
    if s.len() == 0 {
        m
    } else {
        spec_apply_txs(spec_apply_tx(m, s[0]), s.drop_first())
    }
}

/// One block's state transition: the coinbase reward of one unit, then
/// every transfer in order.
pub open spec fn spec_apply_block(m: Map<Seq<u8>, nat>, b: BlockView) -> Map<Seq<u8>, nat> {
    spec_apply_txs(spec_credit(m, b.header.coinbase, 1), b.content)
}

/// Replaying a whole chain over a starting ledger.
pub open spec fn spec_replay(m: Map<Seq<u8>, nat>, c: Seq<BlockView>) -> Map<Seq<u8>, nat>
    decreases c.len(),
{
    if c.len() == 0 {
        m
    } else {
        spec_replay(spec_apply_block(m, c[0]), c.drop_first())
    }
}

/// The ledger a chain determines: the replay of every block from an
/// empty ledger.
pub open spec fn ledger_of_chain(c: Seq<BlockView>) -> Map<Seq<u8>, nat> {
    spec_replay(empty_ledger(), c)
}

pub proof fn lemma_apply_txs_append(m: Map<Seq<u8>, nat>, u: Seq<TxView>, v: Seq<TxView>)
    ensures
        spec_apply_txs(m, u + v) == spec_apply_txs(spec_apply_txs(m, u), v),
    decreases u.len(),
{
    if u.len() == 0 {
        assert(u + v =~= v);
    } else {
        assert((u + v).drop_first() =~= u.drop_first() + v);
        lemma_apply_txs_append(spec_apply_tx(m, u[0]), u.drop_first(), v);
    }
}

pub proof fn lemma_replay_append(m: Map<Seq<u8>, nat>, u: Seq<BlockView>, v: Seq<BlockView>)
    ensures
        spec_replay(m, u + v) == spec_replay(spec_replay(m, u), v),
    decreases u.len(),
{
    if u.len() == 0 {
        assert(u + v =~= v);
    } else {
        assert((u + v).drop_first() =~= u.drop_first() + v);
        lemma_replay_append(spec_apply_block(m, u[0]), u.drop_first(), v);
    }
}

/// Removing the first pool entry field-equal to a transaction.
pub open spec fn remove_first(pool: Seq<TxView>, t: TxView) -> Seq<TxView>
    decreases pool.len(),
{
    if pool.len() == 0 {
        pool
    } else if pool[0] == t {
        pool.drop_first()
    } else {
        seq![pool[0]] + remove_first(pool.drop_first(), t)
    }
}

/// The pool after a block's transactions evict their first matches,
/// in block order.
pub open spec fn spec_evict(pool: Seq<TxView>, content: Seq<TxView>) -> Seq<TxView>
    decreases content.len(),
{
    if content.len() == 0 {
        pool
    } else {
        spec_evict(remove_first(pool, content[0]), content.drop_first())
    }
}

/// The pool after every block of a chain has evicted its transactions.
pub open spec fn spec_evict_chain(pool: Seq<TxView>, c: Seq<BlockView>) -> Seq<TxView>
    decreases c.len(),
{
    if c.len() == 0 {
        pool
    } else {
        spec_evict_chain(spec_evict(pool, c[0].content), c.drop_first())
    }
}

pub proof fn lemma_evict_append(pool: Seq<TxView>, u: Seq<TxView>, v: Seq<TxView>)
    ensures
        spec_evict(pool, u + v) == spec_evict(spec_evict(pool, u), v),
    decreases u.len(),
{
    if u.len() == 0 {
        assert(u + v =~= v);
    } else {
        assert((u + v).drop_first() =~= u.drop_first() + v);
        lemma_evict_append(remove_first(pool, u[0]), u.drop_first(), v);
    }
}

pub proof fn lemma_evict_chain_append(pool: Seq<TxView>, u: Seq<BlockView>, v: Seq<BlockView>)
    ensures
        spec_evict_chain(pool, u + v) == spec_evict_chain(spec_evict_chain(pool, u), v),
    decreases u.len(),
{
    if u.len() == 0 {
        assert(u + v =~= v);
    } else {
        assert((u + v).drop_first() =~= u.drop_first() + v);
        lemma_evict_chain_append(spec_evict(pool, u[0].content), u.drop_first(), v);
    }
}

/// How many pool entries are field-equal to a transaction.
pub open spec fn count_tx(pool: Seq<TxView>, t: TxView) -> nat
    decreases pool.len(),
{
    if pool.len() == 0 {
        0
    } else {
        (if pool[0] == t {
            1nat
        } else {
            0nat
        }) + count_tx(pool.drop_first(), t)
    }
}

/// Evicting a transaction's first match lowers its count by one where
/// present, and to no lower than zero.
pub proof fn lemma_count_remove_first_same(pool: Seq<TxView>, t: TxView)
    ensures
        count_tx(remove_first(pool, t), t) == sub_sat(count_tx(pool, t), 1),
    decreases pool.len(),
{
    if pool.len() == 0 {
    } else if pool[0] == t {
    } else {
        lemma_count_remove_first_same(pool.drop_first(), t);
        let r = seq![pool[0]] + remove_first(pool.drop_first(), t);
        assert(r.drop_first() =~= remove_first(pool.drop_first(), t));
    }
}

/// Evicting some other transaction's first match leaves this one's
/// count unchanged.
pub proof fn lemma_count_remove_first_other(pool: Seq<TxView>, u: TxView, t: TxView)
    requires
        u != t,
    ensures
        count_tx(remove_first(pool, u), t) == count_tx(pool, t),
    decreases pool.len(),
{
    if pool.len() == 0 {
    } else if pool[0] == u {
    } else {
        lemma_count_remove_first_other(pool.drop_first(), u, t);
        let r = seq![pool[0]] + remove_first(pool.drop_first(), u);
        assert(r.drop_first() =~= remove_first(pool.drop_first(), u));
    }
}

/// Eviction never increases a transaction's count.
pub proof fn lemma_evict_count_nonincreasing(pool: Seq<TxView>, content: Seq<TxView>, t: TxView)
    ensures
        count_tx(spec_evict(pool, content), t) <= count_tx(pool, t),
    decreases content.len(),
{
    if content.len() > 0 {
        if content[0] == t {
            lemma_count_remove_first_same(pool, t);
        } else {
            lemma_count_remove_first_other(pool, content[0], t);
        }
        lemma_evict_count_nonincreasing(remove_first(pool, content[0]), content.drop_first(), t);
    }
}

/// After a block's transactions evict their matches, a transaction of
/// the block is gone from the pool, provided the pool held it at most
/// once.
pub proof fn lemma_block_txs_leave_pool(pool: Seq<TxView>, content: Seq<TxView>, t: TxView)
    requires
        count_tx(pool, t) <= 1,
        content.contains(t),
    ensures
        count_tx(spec_evict(pool, content), t) == 0,
    decreases content.len(),
{
    if content[0] == t {
        lemma_count_remove_first_same(pool, t);
        lemma_evict_count_nonincreasing(remove_first(pool, t), content.drop_first(), t);
    } else {
        lemma_count_remove_first_other(pool, content[0], t);
        assert(content.drop_first().contains(t)) by {
            let i = choose|i: int| 0 <= i < content.len() && content[i] == t;
            assert(content.drop_first()[i - 1] == t);
        }
        lemma_block_txs_leave_pool(remove_first(pool, content[0]), content.drop_first(), t);
    }
}

/// The pool entries a block leaves alone: those field-equal to none of
/// its transactions.
pub open spec fn unmatched_by(content: Seq<TxView>) -> spec_fn(TxView) -> bool {
    |x: TxView| !content.contains(x)
}

/// Filtering a singleton keeps or drops its one element.
proof fn lemma_filter_singleton(x: TxView, p: spec_fn(TxView) -> bool)
    ensures
        seq![x].filter(p) == if p(x) {
            seq![x]
        } else {
            Seq::<TxView>::empty()
        },
{
    reveal_with_fuel(Seq::<TxView>::filter, 3);
    let s = seq![x];
    assert(s.last() == x);
    assert(s.drop_last() =~= Seq::<TxView>::empty());
    assert(s.drop_last().filter(p) == Seq::<TxView>::empty().filter(p));
    assert(Seq::<TxView>::empty().filter(p) =~= Seq::<TxView>::empty());
    assert(Seq::<TxView>::empty().push(x) =~= seq![x]);
}

/// Evicting a transaction the predicate rejects leaves the filtered
/// pool unchanged.
proof fn lemma_remove_first_filter(pool: Seq<TxView>, u: TxView, p: spec_fn(TxView) -> bool)
    requires
        !p(u),
    ensures
        remove_first(pool, u).filter(p) == pool.filter(p),
    decreases pool.len(),
{
    reveal_with_fuel(Seq::<TxView>::filter, 2);
    if pool.len() == 0 {
    } else if pool[0] == u {
        assert(pool =~= seq![pool[0]] + pool.drop_first());
        Seq::filter_distributes_over_add(seq![pool[0]], pool.drop_first(), p);
        lemma_filter_singleton(pool[0], p);
        assert(Seq::<TxView>::empty() + pool.drop_first().filter(p) =~= pool.drop_first().filter(
            p,
        ));
    } else {
        lemma_remove_first_filter(pool.drop_first(), u, p);
        assert(pool =~= seq![pool[0]] + pool.drop_first());
        Seq::filter_distributes_over_add(seq![pool[0]], pool.drop_first(), p);
        Seq::filter_distributes_over_add(seq![pool[0]], remove_first(pool.drop_first(), u), p);
    }
}

/// Evicting only transactions the predicate rejects leaves the filtered
/// pool unchanged.
proof fn lemma_evict_filter(pool: Seq<TxView>, content: Seq<TxView>, p: spec_fn(TxView) -> bool)
    requires
        forall|i: int| 0 <= i < content.len() ==> !p(#[trigger] content[i]),
    ensures
        spec_evict(pool, content).filter(p) == pool.filter(p),
    decreases content.len(),
{
    if content.len() > 0 {
        lemma_remove_first_filter(pool, content[0], p);
        lemma_evict_filter(remove_first(pool, content[0]), content.drop_first(), p);
    }
}

/// The order half of pool eviction: entries field-equal to none of the
/// block's transactions come through untouched, in their original
/// relative order.
pub proof fn lemma_eviction_retains_unmatched(pool: Seq<TxView>, content: Seq<TxView>)
    ensures
        spec_evict(pool, content).filter(unmatched_by(content)) == pool.filter(
            unmatched_by(content),
        ),
{
    let p = unmatched_by(content);
    assert forall|i: int| 0 <= i < content.len() implies !p(#[trigger] content[i]) by {
        assert(content.contains(content[i]));
    }
    lemma_evict_filter(pool, content, p);
}

/// One account record.
#[derive(Clone, Copy, Debug)]
pub struct AccountEntry {
    pub address: Address,
    pub balance: Balance,
}

/// The balance the entry list gives an address: its first entry's, or
/// zero where none exists.
pub open spec fn entries_balance(entries: Seq<AccountEntry>, a: Seq<u8>) -> nat
    decreases entries.len(),
{
    if entries.len() == 0 {
        0
    } else if entries[0].address@ == a {
        entries[0].balance@
    } else {
        entries_balance(entries.drop_first(), a)
    }
}

/// The per-address balance map, materialized as account records.
#[derive(Debug)]
pub struct Ledger {
    pub accounts: Vec<AccountEntry>,
}

impl View for Ledger {
    type V = Map<Seq<u8>, nat>;

    open spec fn view(&self) -> Map<Seq<u8>, nat> {
        Map::total(|a: Seq<u8>| entries_balance(self.accounts@, a))
    }
}

/// Updating an entry whose address has no earlier occurrence changes
/// exactly that address's balance.
proof fn lemma_entries_update(entries: Seq<AccountEntry>, i: int, e: AccountEntry, a: Seq<u8>)
    requires
        0 <= i < entries.len(),
        e.address@ == entries[i].address@,
        forall|j: int| 0 <= j < i ==> entries[j].address@ != entries[i].address@,
    ensures
        entries_balance(entries.update(i, e), a) == if a == entries[i].address@ {
            e.balance@
        } else {
            entries_balance(entries, a)
        },
    decreases entries.len(),
{
    let up = entries.update(i, e);
    if i == 0 {
        assert(up[0] == e);
        if a == entries[0].address@ {
        } else {
            assert(up.drop_first() =~= entries.drop_first());
        }
    } else {
        assert(up[0] == entries[0]);
        assert(up.drop_first() =~= entries.drop_first().update(i - 1, e));
        lemma_entries_update(entries.drop_first(), i - 1, e, a);
    }
}

/// Appending an entry for an address not yet present adds exactly that
/// address's balance.
proof fn lemma_entries_push(entries: Seq<AccountEntry>, e: AccountEntry, a: Seq<u8>)
    requires
        forall|j: int| 0 <= j < entries.len() ==> (#[trigger] entries[j]).address@ != e.address@,
    ensures
        entries_balance(entries.push(e), a) == if a == e.address@ {
            e.balance@
        } else {
            entries_balance(entries, a)
        },
    decreases entries.len(),
{
    let up = entries.push(e);
    reveal_with_fuel(entries_balance, 3);
    if entries.len() == 0 {
        assert(up[0] == e);
        assert(up.drop_first() =~= Seq::<AccountEntry>::empty());
    } else {
        assert(up[0] == entries[0]);
        assert(up.drop_first() =~= entries.drop_first().push(e));
        lemma_entries_push(entries.drop_first(), e, a);
    }
}

impl Ledger {
    /// An empty ledger: every balance zero.
    pub fn new() -> (r: Ledger)
        ensures
            r@ == empty_ledger(),
    {
        let r = Ledger { accounts: Vec::new() };
        proof {
            assert(r@ =~= empty_ledger());
        }
        r
    }

    /// The index of the first entry for an address, if any.
    fn find(&self, address: &Address) -> (r: Option<usize>)
        ensures
            match r {
                Some(i) => i < self.accounts@.len() && self.accounts@[i as int].address@
                    == address@ && (forall|j: int|
                    0 <= j < i ==> (#[trigger] self.accounts@[j]).address@ != address@),
                None => forall|j: int|
                    0 <= j < self.accounts@.len() ==> (#[trigger] self.accounts@[j]).address@
                        != address@,
            },
    {
        let n: usize = self.accounts.len();
        let mut i: usize = 0;
        while i < n
            invariant
                i <= n,
                n == self.accounts@.len(),
                forall|j: int| 0 <= j < i ==> (#[trigger] self.accounts@[j]).address@ != address@,
            decreases n - i,
        {
            if self.accounts[i].address == *address {
                return Some(i);
            }
            i += 1;
        }
        None
    }
}

/// Credits an account, creating it at zero first where absent.
pub fn increase_account(ledger: &mut Ledger, address: Address, amount: u64)
    ensures
        final(ledger)@ == spec_credit(old(ledger)@, address@, amount),
{
    let found = ledger.find(&address);
    match found {
        Some(i) => {
            let mut e = ledger.accounts[i];
            proof {
                assert(entries_balance(ledger.accounts@, address@) == e.balance@) by {
                    lemma_entries_first_match(ledger.accounts@, i as int, address@);
                }
            }
            e.balance.credit(amount);
            let ghost before = ledger.accounts@;
            ledger.accounts[i] = e;
            proof {
                lemma_entries_update(before, i as int, e, address@);
                assert forall|a: Seq<u8>| true implies #[trigger] final(ledger)@[a] == spec_credit(
                    old(ledger)@,
                    address@,
                    amount,
                )[a] by {
                    lemma_entries_update(before, i as int, e, a);
                }
                assert(final(ledger)@ =~= spec_credit(old(ledger)@, address@, amount));
            }
        },
        None => {
            let mut balance = Balance::zero();
            balance.credit(amount);
            let e = AccountEntry { address, balance };
            let ghost before = ledger.accounts@;
            ledger.accounts.push(e);
            proof {
                assert(entries_balance(before, address@) == 0) by {
                    lemma_entries_no_match(before, address@);
                }
                assert forall|a: Seq<u8>| true implies #[trigger] final(ledger)@[a] == spec_credit(
                    old(ledger)@,
                    address@,
                    amount,
                )[a] by {
                    lemma_entries_push(before, e, a);
                }
                assert(final(ledger)@ =~= spec_credit(old(ledger)@, address@, amount));
            }
        },
    }
}

/// Debits an account, creating it at zero first where absent (a debit of
/// an absent account saturates to zero).
pub fn decrease_account(ledger: &mut Ledger, address: Address, amount: u64)
    ensures
        final(ledger)@ == spec_debit(old(ledger)@, address@, amount),
{
    let found = ledger.find(&address);
    match found {
        Some(i) => {
            let mut e = ledger.accounts[i];
            proof {
                assert(entries_balance(ledger.accounts@, address@) == e.balance@) by {
                    lemma_entries_first_match(ledger.accounts@, i as int, address@);
                }
            }
            e.balance.debit(amount);
            let ghost before = ledger.accounts@;
            ledger.accounts[i] = e;
            proof {
                assert forall|a: Seq<u8>| true implies #[trigger] final(ledger)@[a] == spec_debit(
                    old(ledger)@,
                    address@,
                    amount,
                )[a] by {
                    lemma_entries_update(before, i as int, e, a);
                }
                assert(final(ledger)@ =~= spec_debit(old(ledger)@, address@, amount));
            }
        },
        None => {
            let mut balance = Balance::zero();
            balance.debit(amount);
            let e = AccountEntry { address, balance };
            let ghost before = ledger.accounts@;
            ledger.accounts.push(e);
            proof {
                assert(entries_balance(before, address@) == 0) by {
                    lemma_entries_no_match(before, address@);
                }
                assert forall|a: Seq<u8>| true implies #[trigger] final(ledger)@[a] == spec_debit(
                    old(ledger)@,
                    address@,
                    amount,
                )[a] by {
                    lemma_entries_push(before, e, a);
                }
                assert(final(ledger)@ =~= spec_debit(old(ledger)@, address@, amount));
            }
        },
    }
}

/// The first entry for an address determines its balance.
proof fn lemma_entries_first_match(entries: Seq<AccountEntry>, i: int, a: Seq<u8>)
    requires
        0 <= i < entries.len(),
        entries[i].address@ == a,
        forall|j: int| 0 <= j < i ==> (#[trigger] entries[j]).address@ != a,
    ensures
        entries_balance(entries, a) == entries[i].balance@,
    decreases i,
{
    if i > 0 {
        lemma_entries_first_match(entries.drop_first(), i - 1, a);
    }
}

/// An address with no entry has balance zero.
proof fn lemma_entries_no_match(entries: Seq<AccountEntry>, a: Seq<u8>)
    requires
        forall|j: int| 0 <= j < entries.len() ==> (#[trigger] entries[j]).address@ != a,
    ensures
        entries_balance(entries, a) == 0,
    decreases entries.len(),
{
    if entries.len() > 0 {
        lemma_entries_no_match(entries.drop_first(), a);
    }
}

/// Settles one transfer: debit the sender, credit the receiver.
pub fn process_transaction(ledger: &mut Ledger, tx: &IshIshTransaction)
    ensures
        final(ledger)@ == spec_apply_tx(old(ledger)@, tx@),
{
    decrease_account(ledger, tx.from, tx.amount);
    increase_account(ledger, tx.to, tx.amount);
}

/// Removes the first pool entry field-equal to the transaction, if any.
#[verifier::loop_isolation(false)]
pub fn remove_transaction_from_pool(
    tx: &IshIshTransaction,
    transactions: &mut Vec<IshIshTransaction>,
)
    ensures
        final(transactions)@.map_values(|t: IshIshTransaction| t@) == remove_first(
            old(transactions)@.map_values(|t: IshIshTransaction| t@),
            tx@,
        ),
{
    let ghost pool = transactions@.map_values(|t: IshIshTransaction| t@);
    let n: usize = transactions.len();
    let mut i: usize = 0;
    while i < n
        invariant
            i <= n,
            n == transactions@.len(),
            pool == transactions@.map_values(|t: IshIshTransaction| t@),
            forall|j: int| 0 <= j < i ==> pool[j] != tx@,
        decreases n - i,
    {
        if transactions[i] == *tx {
            let ghost before = transactions@;
            transactions.remove(i);
            proof {
                lemma_remove_first_at(pool, tx@, i as int);
                let cur = transactions@.map_values(|t: IshIshTransaction| t@);
                assert(transactions@ == before.remove(i as int));
                assert forall|j: int| 0 <= j < cur.len() implies cur[j] == pool.remove(i as int)[j]
                    by {
                    if j < i {
                        assert(transactions@[j] == before[j]);
                    } else {
                        assert(transactions@[j] == before[j + 1]);
                    }
                }
                assert(cur =~= pool.remove(i as int));
                assert(pool =~= old(transactions)@.map_values(|t: IshIshTransaction| t@));
                assert(transactions@.map_values(|t: IshIshTransaction| t@) =~= remove_first(
                    pool,
                    tx@,
                ));
            }
            return ;
        }
        i += 1;
    }
    proof {
        lemma_remove_first_absent(pool, tx@);
    }
}

/// Where index `i` holds the first match, removing the first match is
/// removing index `i`.
proof fn lemma_remove_first_at(pool: Seq<TxView>, t: TxView, i: int)
    requires
        0 <= i < pool.len(),
        pool[i] == t,
        forall|j: int| 0 <= j < i ==> pool[j] != t,
    ensures
        remove_first(pool, t) == pool.remove(i),
    decreases i,
{
    if i == 0 {
        assert(pool.remove(0) =~= pool.drop_first());
    } else {
        lemma_remove_first_at(pool.drop_first(), t, i - 1);
        assert(pool.remove(i).drop_first() =~= pool.drop_first().remove(i - 1));
        assert(seq![pool[0]] + pool.drop_first().remove(i - 1) =~= pool.remove(i));
    }
}

/// Removing a transaction that is not in the pool changes nothing.
proof fn lemma_remove_first_absent(pool: Seq<TxView>, t: TxView)
    requires
        forall|j: int| 0 <= j < pool.len() ==> pool[j] != t,
    ensures
        remove_first(pool, t) == pool,
    decreases pool.len(),
{
    if pool.len() > 0 {
        lemma_remove_first_absent(pool.drop_first(), t);
        assert(seq![pool[0]] + pool.drop_first() =~= pool);
    }
}

/// Settles one block: credit the coinbase reward, then settle each
/// transaction in order, evicting its first pool match.
#[verifier::loop_isolation(false)]
pub fn progress_state(
    ledger: &mut Ledger,
    block: &IshIshBlock,
    transactions: &mut Vec<IshIshTransaction>,
)
    ensures
        final(ledger)@ == spec_apply_block(old(ledger)@, block@),
        final(transactions)@.map_values(|t: IshIshTransaction| t@) == spec_evict(
            old(transactions)@.map_values(|t: IshIshTransaction| t@),
            block@.content,
        ),
{
    increase_account(ledger, block.header.coinbase, 1);
    let n: usize = block.content.len();
    let ghost content = block@.content;
    let ghost m0 = ledger@;
    let ghost pool0 = transactions@.map_values(|t: IshIshTransaction| t@);
    proof {
        assert(content.take(0) =~= Seq::<TxView>::empty());
    }
    let mut i: usize = 0;
    while i < n
        invariant
            i <= n,
            n == block.content@.len(),
            content == block@.content,
            ledger@ == spec_apply_txs(m0, content.take(i as int)),
            transactions@.map_values(|t: IshIshTransaction| t@) == spec_evict(
                pool0,
                content.take(i as int),
            ),
        decreases n - i,
    {
        let tx = block.content[i];
        process_transaction(ledger, &tx);
        remove_transaction_from_pool(&tx, transactions);
        proof {
            assert(content.take(i + 1) =~= content.take(i as int) + seq![content[i as int]]);
            lemma_apply_txs_append(m0, content.take(i as int), seq![content[i as int]]);
            lemma_evict_append(pool0, content.take(i as int), seq![content[i as int]]);
            reveal_with_fuel(spec_apply_txs, 3);
            reveal_with_fuel(spec_evict, 3);
            assert(seq![content[i as int]].drop_first() =~= Seq::<TxView>::empty());
            assert(content[i as int] == tx@);
        }
        i += 1;
    }
    proof {
        assert(content.take(n as int) =~= content);
    }
}

/// Replays every block of a chain over the current ledger, with the same
/// pool eviction as live settlement.
#[verifier::loop_isolation(false)]
pub fn refresh_state(
    ledger: &mut Ledger,
    chain: &IshIshBlockchain,
    transactions: &mut Vec<IshIshTransaction>,
)
    ensures
        final(ledger)@ == spec_replay(old(ledger)@, chain@),
        final(transactions)@.map_values(|t: IshIshTransaction| t@) == spec_evict_chain(
            old(transactions)@.map_values(|t: IshIshTransaction| t@),
            chain@,
        ),
{
    let n: usize = chain.blocks.len();
    let ghost blocks = chain@;
    let ghost m0 = ledger@;
    let ghost pool0 = transactions@.map_values(|t: IshIshTransaction| t@);
    proof {
        assert(blocks.take(0) =~= Seq::<BlockView>::empty());
    }
    let mut i: usize = 0;
    while i < n
        invariant
            i <= n,
            n == chain.blocks@.len(),
            blocks == chain@,
            ledger@ == spec_replay(m0, blocks.take(i as int)),
            transactions@.map_values(|t: IshIshTransaction| t@) == spec_evict_chain(
                pool0,
                blocks.take(i as int),
            ),
        decreases n - i,
    {
        progress_state(ledger, &chain.blocks[i], transactions);
        proof {
            assert(blocks.take(i + 1) =~= blocks.take(i as int) + seq![blocks[i as int]]);
            lemma_replay_append(m0, blocks.take(i as int), seq![blocks[i as int]]);
            lemma_evict_chain_append(pool0, blocks.take(i as int), seq![blocks[i as int]]);
            reveal_with_fuel(spec_replay, 3);
            reveal_with_fuel(spec_evict_chain, 3);
            assert(seq![blocks[i as int]].drop_first() =~= Seq::<BlockView>::empty());
            assert(blocks[i as int] == chain.blocks@[i as int]@);
        }
        i += 1;
    }
    proof {
        assert(blocks.take(n as int) =~= blocks);
    }
}

/// Reads an account balance, truncated to 64 bits; absent accounts read
/// as zero.
pub fn get_address_balance(ledger: &Ledger, address: Address) -> (r: u64)
    ensures
        r as nat == ledger@[address@] % p64(),
{
    let found = ledger.find(&address);
    match found {
        Some(i) => {
            let e = ledger.accounts[i];
            proof {
                lemma_entries_first_match(ledger.accounts@, i as int, address@);
                assert(ledger@[address@] == entries_balance(ledger.accounts@, address@));
            }
            e.balance.truncated()
        },
        None => {
            proof {
                lemma_entries_no_match(ledger.accounts@, address@);
                assert(ledger@[address@] == entries_balance(ledger.accounts@, address@));
            }
            0
        },
    }
}

} // verus!
