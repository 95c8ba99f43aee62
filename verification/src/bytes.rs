//! Little-endian byte encoding of fixed-width integers.
//!
//! Every multi-byte value of the wire format is written least significant
//! byte first. Signed values travel as their two's-complement bit pattern.

use vstd::arithmetic::div_mod::{
    lemma_div_multiples_vanish_fancy, lemma_fundamental_div_mod, lemma_mod_breakdown,
    lemma_mod_multiples_vanish, lemma_small_mod,
};
use vstd::prelude::*;

verus! {

/// `256` raised to `n`: the number of values that fit in `n` bytes.
pub open spec fn radix(n: nat) -> nat
    decreases n,
{
    if n == 0 {
        1
    } else {
        256 * radix((n - 1) as nat)
    }
}

/// The `n` least significant bytes of `v`, least significant first.
pub open spec fn le_bytes(v: nat, n: nat) -> Seq<u8>
    decreases n,
{
    if n == 0 {
        Seq::empty()
    } else {
        seq![(v % 256) as u8] + le_bytes(v / 256, (n - 1) as nat)
    }
}

/// The number whose little-endian bytes are `s`.
pub open spec fn le_value(s: Seq<u8>) -> nat
    decreases s.len(),
{
    if s.len() == 0 {
        0
    } else {
        s[0] as nat + 256 * le_value(s.drop_first())
    }
}

/// The `n`-byte two's-complement pattern of `v`.
pub open spec fn twos(v: int, n: nat) -> nat {
    if v >= 0 {
        v as nat
    } else {
        (v + radix(n)) as nat
    }
}

/// The signed value whose `n`-byte two's-complement pattern is `u`.
pub open spec fn untwos(u: nat, n: nat) -> int {
    if u < radix(n) / 2 {
        u as int
    } else {
        u - radix(n)
    }
}

/// Whether `v` fits a signed integer of `n` bytes.
pub open spec fn fits_signed(v: int, n: nat) -> bool {
    -(radix(n) / 2) <= v < radix(n) / 2
}

/// `radix(n)` is at least one.
pub proof fn lemma_radix_positive(n: nat)
    ensures
        radix(n) >= 1,
    decreases n,
{
    if n > 0 {
        lemma_radix_positive((n - 1) as nat);
    }
}

/// More bytes hold more values.
pub proof fn lemma_radix_monotone(a: nat, b: nat)
    requires
        a <= b,
    ensures
        radix(a) <= radix(b),
    decreases b,
{
    if a < b {
        lemma_radix_monotone(a, (b - 1) as nat);
        lemma_radix_positive((b - 1) as nat);
    }
}

/// The radix of the widths that the wire format uses.
pub proof fn lemma_radix_values()
    ensures
        radix(1) == 0x100,
        radix(2) == 0x1_0000,
        radix(4) == 0x1_0000_0000,
        radix(8) == 0x1_0000_0000_0000_0000,
        radix(16) == 0x1_0000_0000_0000_0000_0000_0000_0000_0000,
{
    reveal_with_fuel(radix, 17);
}

/// `le_bytes` always yields exactly `n` bytes.
pub proof fn lemma_le_bytes_len(v: nat, n: nat)
    ensures
        le_bytes(v, n).len() == n,
    decreases n,
{
    if n > 0 {
        lemma_le_bytes_len(v / 256, (n - 1) as nat);
    }
}

/// Reading back the bytes of `v` gives `v` reduced to `n` bytes.
pub proof fn lemma_le_roundtrip(v: nat, n: nat)
    ensures
        le_value(le_bytes(v, n)) == v % radix(n),
    decreases n,
{
    if n == 0 {
        assert(v % 1 == 0);
    } else {
        let m = (n - 1) as nat;
        lemma_le_roundtrip(v / 256, m);
        lemma_le_bytes_len(v / 256, m);
        let s = le_bytes(v, n);
        assert(s.drop_first() =~= le_bytes(v / 256, m));
        lemma_radix_positive(m);
        lemma_mod_breakdown(v as int, 256, radix(m) as int);
    }
}

/// A value is bounded by the radix of its byte count.
pub proof fn lemma_le_value_bound(s: Seq<u8>)
    ensures
        le_value(s) < radix(s.len()),
    decreases s.len(),
{
    if s.len() > 0 {
        lemma_le_value_bound(s.drop_first());
    }
}

/// Writing out the value of `s` gives `s` back.
pub proof fn lemma_le_value_bytes(s: Seq<u8>)
    ensures
        le_bytes(le_value(s), s.len()) == s,
    decreases s.len(),
{
    if s.len() > 0 {
        let t = s.drop_first();
        lemma_le_value_bytes(t);
        let v = le_value(s);
        let w = le_value(t);
        assert(v == s[0] as nat + 256 * w);
        lemma_mod_multiples_vanish(w as int, s[0] as int, 256);
        lemma_small_mod(s[0] as nat, 256);
        lemma_div_multiples_vanish_fancy(w as int, s[0] as int, 256);
        assert(le_bytes(v, s.len()) =~= s);
    }
}

/// The first `k` bytes of a value's encoding encode its low `k` bytes.
pub proof fn lemma_le_value_split(s: Seq<u8>, k: nat)
    requires
        k <= s.len(),
    ensures
        le_value(s) == le_value(s.subrange(0, k as int)) + radix(k) * le_value(
            s.subrange(k as int, s.len() as int),
        ),
    decreases k,
{
    if k == 0 {
        assert(s.subrange(0, s.len() as int) =~= s);
        assert(le_value(s.subrange(0, 0)) == 0);
        assert(radix(0) == 1);
        assert(radix(0) * le_value(s) == le_value(s));
    } else {
        let t = s.drop_first();
        lemma_le_value_split(t, (k - 1) as nat);
        let head = s.subrange(0, k as int);
        assert(head.drop_first() =~= t.subrange(0, k - 1));
        assert(head[0] == s[0]);
        assert(s.subrange(k as int, s.len() as int) =~= t.subrange(k - 1, t.len() as int));
        let a = le_value(t.subrange(0, k - 1));
        let b = le_value(t.subrange(k - 1, t.len() as int));
        let r = radix((k - 1) as nat);
        assert(le_value(head) == s[0] as nat + 256 * a);
        assert(le_value(t) == a + r * b);
        assert(radix(k) == 256 * r);
        assert(256 * (a + r * b) == 256 * a + (256 * r) * b) by (nonlinear_arith);
        assert(le_value(s) == s[0] as nat + 256 * le_value(t));
        assert(le_value(s) == le_value(head) + radix(k) * b);
    }
}

/// Two's complement followed by its inverse is the identity on values that fit.
pub proof fn lemma_twos_roundtrip(v: int, n: nat)
    requires
        n >= 1,
        fits_signed(v, n),
    ensures
        twos(v, n) < radix(n),
        untwos(twos(v, n), n) == v,
{
    lemma_radix_positive((n - 1) as nat);
    assert(radix(n) == 256 * radix((n - 1) as nat));
}

/// Two's complement of a decoded pattern gives the pattern back.
pub proof fn lemma_untwos_roundtrip(u: nat, n: nat)
    requires
        n >= 1,
        u < radix(n),
    ensures
        fits_signed(untwos(u, n), n),
        twos(untwos(u, n), n) == u,
{
    lemma_radix_positive((n - 1) as nat);
    assert(radix(n) == 256 * radix((n - 1) as nat));
}

/// The largest value that fits in `n` bytes, for the widths the wire format uses.
pub fn max_for_width(n: usize) -> (r: u128)
    requires
        n == 1 || n == 2 || n == 4 || n == 8 || n == 16,
    ensures
        r == radix(n as nat) - 1,
{
    proof {
        lemma_radix_values();
    }
    if n == 1 {
        0xff
    } else if n == 2 {
        0xffff
    } else if n == 4 {
        0xffff_ffff
    } else if n == 8 {
        0xffff_ffff_ffff_ffff
    } else {
        u128::MAX
    }
}

/// Appends the `n` low bytes of `v` to `out`, least significant first.
pub fn push_le(out: &mut Vec<u8>, v: u128, n: usize)
    requires
        n <= 16,
    ensures
        final(out)@ == old(out)@ + le_bytes(v as nat, n as nat),
{
    let mut cur: u128 = v;
    let mut i: usize = 0;
    while i < n
        invariant
            i <= n,
            out@ + le_bytes(cur as nat, (n - i) as nat) == old(out)@ + le_bytes(v as nat, n as nat),
        decreases n - i,
    {
        let ghost before = out@;
        out.push((cur % 256) as u8);
        proof {
            let rest = le_bytes((cur / 256) as nat, (n - i - 1) as nat);
            assert(le_bytes(cur as nat, (n - i) as nat) == seq![(cur % 256) as u8] + rest);
            assert(out@ + rest =~= before + (seq![(cur % 256) as u8] + rest));
        }
        cur = cur / 256;
        i = i + 1;
    }
    assert(le_bytes(cur as nat, 0) =~= Seq::<u8>::empty());
    assert(out@ =~= out@ + Seq::<u8>::empty());
}

/// Reads the `n` bytes at `start` as a little-endian value.
pub fn read_le(data: &[u8], start: usize, n: usize) -> (r: u128)
    requires
        n <= 16,
        start + n <= data@.len(),
    ensures
        r as nat == le_value(data@.subrange(start as int, start + n)),
{
    let len = data.len();
    let mut acc: u128 = 0;
    let mut i: usize = n;
    proof {
        lemma_radix_values();
    }
    while i > 0
        invariant
            i <= n <= 16,
            start + n <= len,
            len == data@.len(),
            acc as nat == le_value(data@.subrange(start + i, start + n)),
            radix(16) == 0x1_0000_0000_0000_0000_0000_0000_0000_0000,
        decreases i,
    {
        let ghost tail = data@.subrange(start + i, start + n);
        proof {
            lemma_le_value_bound(tail);
            lemma_radix_monotone((n - i) as nat, 15);
            assert(radix(16) == 256 * radix(15));
        }
        let b = data[start + (i - 1)];
        acc = acc * 256 + b as u128;
        i = i - 1;
        proof {
            let s = data@.subrange(start + i, start + n);
            assert(s.drop_first() =~= tail);
            assert(s[0] == b);
        }
    }
    acc
}

/// The `n`-byte two's-complement pattern of a signed value.
pub fn to_twos(v: i128, n: usize) -> (r: u128)
    requires
        n == 1 || n == 2 || n == 4 || n == 8 || n == 16,
        fits_signed(v as int, n as nat),
    ensures
        r as nat == twos(v as int, n as nat),
        (r as nat) < radix(n as nat),
{
    proof {
        lemma_radix_values();
        lemma_twos_roundtrip(v as int, n as nat);
    }
    if v >= 0 {
        v as u128
    } else {
        let neg: u128 = (-(v + 1)) as u128;
        max_for_width(n) - neg
    }
}

/// The signed value whose `n`-byte two's-complement pattern is `u`.
pub fn from_twos(u: u128, n: usize) -> (r: i128)
    requires
        n == 1 || n == 2 || n == 4 || n == 8 || n == 16,
        (u as nat) < radix(n as nat),
    ensures
        r as int == untwos(u as nat, n as nat),
        fits_signed(r as int, n as nat),
{
    proof {
        lemma_radix_values();
        lemma_untwos_roundtrip(u as nat, n as nat);
    }
    let top = max_for_width(n);
    let half: u128 = top / 2;
    if u <= half {
        u as i128
    } else {
        let below: u128 = top - u;
        -(below as i128) - 1
    }
}

} // verus!
