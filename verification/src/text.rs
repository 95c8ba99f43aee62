//! Building text: characters of a string, decimal numbers.

use crate::formatter::{all_digits, digits_value, is_digit};
use vstd::prelude::*;

verus! {

broadcast use vstd::string::group_string_axioms;

/// The characters of `s`, in order.
pub fn chars_of(s: &str) -> (r: Vec<char>)
    ensures
        r@ == s@,
{
    let mut v: Vec<char> = Vec::new();
    for c in it: s.chars()
        invariant
            v@ == it.seq().take(it.index() as int),
    {
        v.push(c);
    }
    v
}

/// Appends one character to `s`.
///
/// Calls `String::push`. Trusted: afterwards the text of `s` is its former
/// text followed by `c`.
#[verifier::external_body]
pub(crate) fn push_char(s: &mut String, c: char)
    ensures
        final(s)@ == old(s)@.push(c),
{
    s.push(c);
}

/// Appends the characters `cs[start..end]` to `s`.
pub fn push_chars(s: &mut String, cs: &Vec<char>, start: usize, end: usize)
    requires
        start <= end <= cs@.len(),
    ensures
        final(s)@ == old(s)@ + cs@.subrange(start as int, end as int),
{
    let mut i = start;
    while i < end
        invariant
            start <= i <= end <= cs@.len(),
            s@ == old(s)@ + cs@.subrange(start as int, i as int),
        decreases end - i,
    {
        push_char(s, cs[i]);
        i = i + 1;
        assert(s@ =~= old(s)@ + cs@.subrange(start as int, i as int));
    }
}

/// `n` copies of `c`.
pub open spec fn repeat(c: char, n: nat) -> Seq<char> {
    Seq::new(n, |_i: int| c)
}

/// Appends `n` copies of `c` to `s`.
pub fn push_repeat(s: &mut String, c: char, n: usize)
    ensures
        final(s)@ == old(s)@ + repeat(c, n as nat),
{
    let mut i: usize = 0;
    while i < n
        invariant
            i <= n,
            s@ == old(s)@ + repeat(c, i as nat),
        decreases n - i,
    {
        push_char(s, c);
        i = i + 1;
        assert(s@ =~= old(s)@ + repeat(c, i as nat));
    }
}

/// The decimal digit character for `d` (which is below ten).
pub open spec fn digit_char(d: nat) -> char {
    if d == 0 {
        '0'
    } else if d == 1 {
        '1'
    } else if d == 2 {
        '2'
    } else if d == 3 {
        '3'
    } else if d == 4 {
        '4'
    } else if d == 5 {
        '5'
    } else if d == 6 {
        '6'
    } else if d == 7 {
        '7'
    } else if d == 8 {
        '8'
    } else {
        '9'
    }
}

/// The decimal representation of `n`, without leading zeros.
pub open spec fn dec(n: nat) -> Seq<char>
    decreases n,
{
    if n < 10 {
        seq![digit_char(n)]
    } else {
        dec(n / 10) + seq![digit_char(n % 10)]
    }
}

/// The decimal representation of `v`, with a leading `-` when negative.
pub open spec fn dec_int(v: int) -> Seq<char> {
    if v < 0 {
        seq!['-'] + dec((-v) as nat)
    } else {
        dec(v as nat)
    }
}

/// Whether `t` is the decimal numeral of `v`: a `-` exactly when `v` is
/// negative, then one or more digits, with no leading zero unless the
/// digits are `0` itself, whose value is the magnitude of `v`.
pub open spec fn is_decimal_of(t: Seq<char>, v: int) -> bool {
    let digits = if v < 0 {
        t.drop_first()
    } else {
        t
    };
    &&& (v < 0) == (t.len() > 0 && t[0] == '-')
    &&& digits.len() > 0
    &&& all_digits(digits)
    &&& digits_value(digits) == (if v < 0 {
        -v
    } else {
        v
    })
    &&& (digits.len() == 1 || digits[0] != '0')
}

/// A single digit character reads back as its digit.
proof fn lemma_digit_char_value(d: nat)
    requires
        d < 10,
    ensures
        is_digit(digit_char(d)),
        digits_value(seq![digit_char(d)]) == d,
        d != 0 ==> digit_char(d) != '0',
{
    let s = seq![digit_char(d)];
    assert(s.drop_last() =~= Seq::<char>::empty());
    assert('0' as u32 == 48 && '1' as u32 == 49 && '2' as u32 == 50 && '3' as u32 == 51);
    assert('4' as u32 == 52 && '5' as u32 == 53 && '6' as u32 == 54 && '7' as u32 == 55);
    assert('8' as u32 == 56 && '9' as u32 == 57);
    assert(digits_value(s.drop_last()) == 0);
    assert(s.last() == digit_char(d));
    assert(digits_value(s) == (digit_char(d) as u32 - '0' as u32) as nat);
    if d == 0 {
    } else if d == 1 {
    } else if d == 2 {
    } else if d == 3 {
    } else if d == 4 {
    } else if d == 5 {
    } else if d == 6 {
    } else if d == 7 {
    } else if d == 8 {
    } else {
    }
}

/// The digits of a natural number are a decimal numeral of it.
pub proof fn lemma_dec_is_decimal(n: nat)
    ensures
        is_decimal_of(dec(n), n as int),
    decreases n,
{
    if n < 10 {
        lemma_digit_char_value(n);
    } else {
        let q = n / 10;
        let r = n % 10;
        lemma_dec_is_decimal(q);
        lemma_digit_char_value(r);
        let t = dec(n);
        assert(t == dec(q) + seq![digit_char(r)]);
        assert(t.drop_last() =~= dec(q));
        assert(t.last() == digit_char(r));
        assert(digits_value(seq![digit_char(r)]) == (digit_char(r) as u32 - '0' as u32) as nat) by {
            assert(seq![digit_char(r)].drop_last() =~= Seq::<char>::empty());
        }
        assert(n == q * 10 + r) by {
            vstd::arithmetic::div_mod::lemma_fundamental_div_mod(n as int, 10);
        }
        assert(t[0] == dec(q)[0]);
        if q < 10 {
            lemma_digit_char_value(q);
        } else {
            lemma_dec_is_decimal(q / 10);
            assert(dec(q).len() > 1);
        }
    }
}

/// `dec_int` gives the decimal numeral of every integer.
pub proof fn lemma_dec_int_is_decimal(v: int)
    ensures
        is_decimal_of(dec_int(v), v),
{
    if v < 0 {
        lemma_dec_is_decimal((-v) as nat);
        let t = dec_int(v);
        assert(t.drop_first() =~= dec((-v) as nat));
    } else {
        lemma_dec_is_decimal(v as nat);
        let t = dec(v as nat);
        if t[0] == '-' {
            assert(is_digit(t[0]));
        }
    }
}

/// Returns the decimal digit character for `d`.
fn digit(d: u128) -> (c: char)
    requires
        d < 10,
    ensures
        c == digit_char(d as nat),
{
    if d == 0 {
        '0'
    } else if d == 1 {
        '1'
    } else if d == 2 {
        '2'
    } else if d == 3 {
        '3'
    } else if d == 4 {
        '4'
    } else if d == 5 {
        '5'
    } else if d == 6 {
        '6'
    } else if d == 7 {
        '7'
    } else if d == 8 {
        '8'
    } else {
        '9'
    }
}

/// Appends the decimal representation of `v` to `s`.
pub fn push_decimal(s: &mut String, v: u128)
    ensures
        final(s)@ == old(s)@ + dec(v as nat),
{
    let mut rev: Vec<char> = Vec::new();
    let mut cur: u128 = v;
    while cur >= 10
        invariant
            dec(v as nat) == dec(cur as nat) + rev@.reverse(),
        decreases cur,
    {
        let ghost before = rev@;
        rev.push(digit(cur % 10));
        proof {
            assert(rev@.reverse() =~= seq![digit_char((cur % 10) as nat)] + before.reverse());
            assert(dec(cur as nat) == dec((cur / 10) as nat) + seq![digit_char((cur % 10) as nat)]);
        }
        cur = cur / 10;
    }
    push_char(s, digit(cur));
    let ghost mid = s@;
    let mut i = rev.len();
    while i > 0
        invariant
            i <= rev@.len(),
            s@ == mid + rev@.reverse().subrange(0, rev@.len() - i),
        decreases i,
    {
        i = i - 1;
        push_char(s, rev[i]);
        assert(s@ =~= mid + rev@.reverse().subrange(0, rev@.len() - i));
    }
    assert(rev@.reverse().subrange(0, rev@.len() as int) =~= rev@.reverse());
    assert(s@ =~= old(s)@ + dec(v as nat));
}

/// Appends the decimal representation of `v` to `s`, with a leading `-`
/// when negative.
pub fn push_signed_decimal(s: &mut String, v: i128)
    ensures
        final(s)@ == old(s)@ + dec_int(v as int),
{
    if v < 0 {
        push_char(s, '-');
        let magnitude: u128 = ((-(v + 1)) as u128) + 1;
        push_decimal(s, magnitude);
        assert(s@ =~= old(s)@ + dec_int(v as int));
    } else {
        push_decimal(s, v as u128);
    }
}

/// Appends a string literal to `s`.
pub fn push_str(s: &mut String, t: &str)
    ensures
        final(s)@ == old(s)@ + t@,
{
    s.append(t);
}

} // verus!
