//! Lowercase hexadecimal encoding of bytes and fixed-width integers.
//!
//! The canonical block serialization writes every field as ASCII hex
//! digits, so encoding and decoding are defined here once, together with
//! the round-trip lemmas the serializer's proofs rest on.

use vstd::prelude::*;

verus! {

/// The ASCII character for a single hex digit (`0`..`9`, `a`..`f`).
pub open spec fn hex_digit_char(n: u8) -> u8
    recommends
        n < 16,
{
    if n < 10 {
        (48 + n) as u8
    } else {
        (87 + n) as u8
    }
}

/// The value of one ASCII hex character, `None` if it is not a digit.
pub open spec fn hex_val(c: u8) -> Option<u8> {
    if 48 <= c && c <= 57 {
        Some((c - 48) as u8)
    } else if 97 <= c && c <= 102 {
        Some((c - 87) as u8)
    } else {
        None
    }
}

pub proof fn lemma_hex_val_digit(n: u8)
    requires
        n < 16,
    ensures
        hex_val(hex_digit_char(n)) == Some(n),
{
}

/// Two hex characters for one byte, most significant digit first.
pub open spec fn hex_byte(b: u8) -> Seq<u8> {
    seq![hex_digit_char(b / 16), hex_digit_char(b % 16)]
}

/// The byte encoded by two hex characters.
pub open spec fn unhex_byte(c1: u8, c2: u8) -> Option<u8> {
    match (hex_val(c1), hex_val(c2)) {
        (Some(a), Some(b)) => Some((16 * a + b) as u8),
        _ => None,
    }
}

pub proof fn lemma_unhex_hex_byte(b: u8)
    ensures
        unhex_byte(hex_byte(b)[0], hex_byte(b)[1]) == Some(b),
{
}

/// Hex encoding of a byte sequence: two characters per byte.
pub open spec fn hex_bytes(s: Seq<u8>) -> Seq<u8>
    decreases s.len(),
{
    if s.len() == 0 {
        Seq::empty()
    } else {
        hex_byte(s[0]) + hex_bytes(s.drop_first())
    }
}

pub proof fn lemma_hex_bytes_len(s: Seq<u8>)
    ensures
        hex_bytes(s).len() == 2 * s.len(),
    decreases s.len(),
{
    if s.len() > 0 {
        lemma_hex_bytes_len(s.drop_first());
    }
}

pub proof fn lemma_hex_bytes_append(u: Seq<u8>, v: Seq<u8>)
    ensures
        hex_bytes(u + v) == hex_bytes(u) + hex_bytes(v),
    decreases u.len(),
{
    if u.len() == 0 {
        assert(u + v =~= v);
        assert(hex_bytes(u) + hex_bytes(v) =~= hex_bytes(v));
    } else {
        lemma_hex_bytes_append(u.drop_first(), v);
        assert((u + v).drop_first() =~= u.drop_first() + v);
        assert(hex_byte((u + v)[0]) + (hex_bytes(u.drop_first()) + hex_bytes(v)) =~= (hex_byte(
            u[0],
        ) + hex_bytes(u.drop_first())) + hex_bytes(v));
    }
}

/// The byte sequence encoded by a hex character sequence, `None` on any
/// non-digit character or odd length.
pub open spec fn unhex_bytes(s: Seq<u8>) -> Option<Seq<u8>>
    decreases s.len(),
{
    if s.len() == 0 {
        Some(Seq::empty())
    } else if s.len() >= 2 {
        match unhex_byte(s[0], s[1]) {
            Some(b) => match unhex_bytes(s.skip(2)) {
                Some(r) => Some(seq![b] + r),
                None => None,
            },
            None => None,
        }
    } else {
        None
    }
}

pub proof fn lemma_unhex_hex_bytes(s: Seq<u8>)
    ensures
        unhex_bytes(hex_bytes(s)) == Some(s),
    decreases s.len(),
{
    if s.len() == 0 {
    } else {
        lemma_unhex_hex_bytes(s.drop_first());
        lemma_hex_bytes_len(s.drop_first());
        let h = hex_bytes(s);
        assert(h[0] == hex_byte(s[0])[0]);
        assert(h[1] == hex_byte(s[0])[1]);
        lemma_unhex_hex_byte(s[0]);
        assert(h.skip(2) =~= hex_bytes(s.drop_first()));
        assert(seq![s[0]] + s.drop_first() =~= s);
    }
}

/// `16^w`.
pub open spec fn pow16(w: nat) -> nat
    decreases w,
{
    if w == 0 {
        1
    } else {
        16 * pow16((w - 1) as nat)
    }
}

/// Fixed-width hex encoding of a number, most significant digit first.
pub open spec fn hex_nat(v: nat, w: nat) -> Seq<u8>
    decreases w,
{
    if w == 0 {
        Seq::empty()
    } else {
        hex_nat(v / 16, (w - 1) as nat) + seq![hex_digit_char((v % 16) as u8)]
    }
}

pub proof fn lemma_hex_nat_len(v: nat, w: nat)
    ensures
        hex_nat(v, w).len() == w,
    decreases w,
{
    if w > 0 {
        lemma_hex_nat_len(v / 16, (w - 1) as nat);
    }
}

/// The number encoded by a hex character sequence, `None` on any
/// non-digit character.
pub open spec fn unhex_nat(s: Seq<u8>) -> Option<nat>
    decreases s.len(),
{
    if s.len() == 0 {
        Some(0)
    } else {
        match (unhex_nat(s.drop_last()), hex_val(s.last())) {
            (Some(h), Some(d)) => Some((h * 16 + d) as nat),
            _ => None,
        }
    }
}

pub proof fn lemma_unhex_nat_bound(s: Seq<u8>)
    ensures
        match unhex_nat(s) {
            Some(n) => n < pow16(s.len()),
            None => true,
        },
    decreases s.len(),
{
    if s.len() > 0 {
        lemma_unhex_nat_bound(s.drop_last());
    }
}

pub proof fn lemma_unhex_hex_nat(v: nat, w: nat)
    requires
        v < pow16(w),
    ensures
        unhex_nat(hex_nat(v, w)) == Some(v),
    decreases w,
{
    if w == 0 {
    } else {
        assert(v / 16 < pow16((w - 1) as nat)) by (nonlinear_arith)
            requires
                v < 16 * pow16((w - 1) as nat),
        ;
        lemma_unhex_hex_nat(v / 16, (w - 1) as nat);
        lemma_hex_nat_len(v / 16, (w - 1) as nat);
        let h = hex_nat(v, w);
        assert(h.drop_last() =~= hex_nat(v / 16, (w - 1) as nat));
        assert(h.last() == hex_digit_char((v % 16) as u8));
        lemma_hex_val_digit((v % 16) as u8);
        assert((v / 16) * 16 + (v % 16) == v) by (nonlinear_arith);
    }
}

/// Extending the input on the right folds one more digit in.
pub proof fn lemma_unhex_nat_snoc(s: Seq<u8>, c: u8)
    ensures
        unhex_nat(s + seq![c]) == match (unhex_nat(s), hex_val(c)) {
            (Some(h), Some(d)) => Some((h * 16 + d) as nat),
            _ => None::<nat>,
        },
{
    let t = s + seq![c];
    assert(t.drop_last() =~= s);
    assert(t.last() == c);
}

/// The ASCII character for a hex digit.
pub fn hex_digit(n: u8) -> (c: u8)
    requires
        n < 16,
    ensures
        c == hex_digit_char(n),
{
    if n < 10 {
        48 + n
    } else {
        87 + n
    }
}

/// The value of one ASCII hex character.
pub fn hex_value(c: u8) -> (r: Option<u8>)
    ensures
        r == hex_val(c),
{
    if 48 <= c && c <= 57 {
        Some(c - 48)
    } else if 97 <= c && c <= 102 {
        Some(c - 87)
    } else {
        None
    }
}

/// Appends the hex encoding of one byte.
pub fn push_hex_byte(out: &mut Vec<u8>, b: u8)
    ensures
        final(out)@ == old(out)@ + hex_byte(b),
{
    out.push(hex_digit(b / 16));
    out.push(hex_digit(b % 16));
    proof {
        assert(final(out)@ =~= old(out)@ + hex_byte(b));
    }
}

/// Appends the hex encoding of a byte slice.
pub fn push_hex_slice(out: &mut Vec<u8>, s: &[u8])
    ensures
        final(out)@ == old(out)@ + hex_bytes(s@),
{
    let n: usize = s.len();
    let mut i: usize = 0;
    while i < n
        invariant
            n == s@.len(),
            i <= n,
            out@ == old(out)@ + hex_bytes(s@.take(i as int)),
        decreases n - i,
    {
        push_hex_byte(out, s[i]);
        proof {
            assert(s@.take(i + 1) =~= s@.take(i as int) + seq![s@[i as int]]);
            lemma_hex_bytes_append(s@.take(i as int), seq![s@[i as int]]);
            reveal_with_fuel(hex_bytes, 3);
            assert(seq![s@[i as int]].drop_first() =~= Seq::<u8>::empty());
            assert(hex_bytes(seq![s@[i as int]]) =~= hex_byte(s@[i as int]));
            assert(out@ =~= old(out)@ + hex_bytes(s@.take(i + 1)));
        }
        i += 1;
    }
    proof {
        assert(s@.take(n as int) =~= s@);
    }
}

/// Appends the 16-character hex encoding of a `u64`.
pub fn push_hex_u64(out: &mut Vec<u8>, v: u64)
    ensures
        final(out)@ == old(out)@ + hex_nat(v as nat, 16),
{
    push_hex_nat_rec(out, v, 16);
}

fn push_hex_nat_rec(out: &mut Vec<u8>, v: u64, w: u8)
    ensures
        final(out)@ == old(out)@ + hex_nat(v as nat, w as nat),
    decreases w,
{
    if w > 0 {
        push_hex_nat_rec(out, v / 16, w - 1);
        out.push(hex_digit((v % 16) as u8));
        proof {
            assert(final(out)@ =~= old(out)@ + hex_nat(v as nat, w as nat));
        }
    } else {
        proof {
            assert(final(out)@ =~= old(out)@ + hex_nat(v as nat, 0));
        }
    }
}

/// Decodes `n` bytes from the `2 * n` hex characters at `start`.
pub fn unhex_range(v: &[u8], start: usize, n: usize) -> (r: Option<Vec<u8>>)
    requires
        start + 2 * n <= v@.len(),
    ensures
        unhex_bytes(v@.subrange(start as int, start + 2 * n)) == match r {
            Some(out) => Some(out@),
            None => None::<Seq<u8>>,
        },
        match r {
            Some(out) => out@.len() == n,
            None => true,
        },
{
    let ghost full = v@.subrange(start as int, start + 2 * n);
    let vlen: usize = v.len();
    let mut out: Vec<u8> = Vec::new();
    let mut i: usize = 0;
    proof {
        assert(full.skip(0) =~= full);
        if let Some(r) = unhex_bytes(full) {
            assert(Seq::<u8>::empty() + r =~= r);
        }
    }
    while i < n
        invariant
            i <= n,
            vlen == v@.len(),
            start + 2 * n <= vlen,
            full == v@.subrange(start as int, start + 2 * n),
            out@.len() == i,
            unhex_bytes(full) == match unhex_bytes(full.skip(2 * i)) {
                Some(r) => Some(out@ + r),
                None => None::<Seq<u8>>,
            },
        decreases n - i,
    {
        let c1 = v[start + 2 * i];
        let c2 = v[start + 2 * i + 1];
        proof {
            assert(full.skip(2 * i).len() == 2 * (n - i));
            assert(full.skip(2 * i)[0] == c1);
            assert(full.skip(2 * i)[1] == c2);
        }
        match unhex_byte_chars(c1, c2) {
            Some(b) => {
                out.push(b);
                proof {
                    assert(full.skip(2 * i).skip(2) =~= full.skip(2 * (i + 1)));
                    assert(forall|r: Seq<u8>|
                        out@.drop_last() + (seq![b] + r) =~= out@ + r);
                }
                i += 1;
            },
            None => {
                return None;
            },
        }
    }
    proof {
        assert(full.skip(2 * n) =~= Seq::<u8>::empty());
        assert(out@ + Seq::<u8>::empty() =~= out@);
    }
    Some(out)
}

/// Decodes one byte from two hex characters.
pub fn unhex_byte_chars(c1: u8, c2: u8) -> (r: Option<u8>)
    ensures
        r == unhex_byte(c1, c2),
{
    match (hex_value(c1), hex_value(c2)) {
        (Some(a), Some(b)) => Some(16 * a + b),
        _ => None,
    }
}

/// Decodes a `u64` from the 16 hex characters at `start`.
pub fn unhex_u64_at(v: &[u8], start: usize) -> (r: Option<u64>)
    requires
        start + 16 <= v@.len(),
    ensures
        match r {
            Some(x) => unhex_nat(v@.subrange(start as int, start + 16)) == Some(x as nat),
            None => unhex_nat(v@.subrange(start as int, start + 16)) == None::<nat>,
        },
{
    let ghost full = v@.subrange(start as int, start + 16);
    let vlen: usize = v.len();
    let mut acc: u64 = 0;
    let mut i: usize = 0;
    while i < 16
        invariant
            i <= 16,
            vlen == v@.len(),
            start + 16 <= vlen,
            full == v@.subrange(start as int, start + 16),
            unhex_nat(full.take(i as int)) == Some(acc as nat),
            acc < pow16(i as nat),
        decreases 16 - i,
    {
        let c = v[start + i];
        proof {
            assert(full[i as int] == c);
        }
        match hex_value(c) {
            Some(d) => {
                proof {
                    assert(full.take(i + 1) =~= full.take(i as int) + seq![c]);
                    lemma_unhex_nat_snoc(full.take(i as int), c);
                    reveal_with_fuel(pow16, 17);
                    assert(pow16(16) == 0x10000000000000000);
                    lemma_pow16_increases(i as nat, 15);
                    assert(16 * (acc as nat) + (d as nat) < 16 * pow16(i as nat)) by (
                    nonlinear_arith)
                        requires
                            acc < pow16(i as nat),
                            d < 16,
                    ;
                }
                acc = 16 * acc + (d as u64);
            },
            None => {
                proof {
                    assert(full.take(i + 1) =~= full.take(i as int) + seq![c]);
                    lemma_unhex_nat_snoc(full.take(i as int), c);
                    lemma_unhex_nat_extend_none(full, i + 1);
                }
                return None;
            },
        }
        i += 1;
    }
    proof {
        assert(full.take(16) =~= full);
    }
    Some(acc)
}

pub proof fn lemma_pow16_increases(a: nat, b: nat)
    requires
        a <= b,
    ensures
        pow16(a) <= pow16(b),
    decreases b,
{
    if a < b {
        lemma_pow16_increases(a, (b - 1) as nat);
        assert(pow16(b) == 16 * pow16((b - 1) as nat));
    }
}

/// Once a prefix fails to decode, the whole sequence fails.
pub proof fn lemma_unhex_nat_extend_none(s: Seq<u8>, i: int)
    requires
        0 <= i <= s.len(),
        unhex_nat(s.take(i)) == None::<nat>,
    ensures
        unhex_nat(s) == None::<nat>,
    decreases s.len() - i,
{
    if i < s.len() {
        assert(s.take(i + 1).drop_last() =~= s.take(i));
        lemma_unhex_nat_extend_none(s, i + 1);
    } else {
        assert(s.take(i) =~= s);
    }
}

} // verus!
