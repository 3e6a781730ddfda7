//! Decimal text of natural numbers: rendering, zero-padding and reading back.

use vstd::prelude::*;

verus! {

pub open spec fn is_digit(c: char) -> bool {
    '0' <= c <= '9'
}

/// The character of a decimal digit.
pub open spec fn digit_char(d: nat) -> char
    recommends
        d < 10,
{
    seq!['0', '1', '2', '3', '4', '5', '6', '7', '8', '9'][d as int]
}

/// The value of a decimal digit character.
pub open spec fn digit_value(c: char) -> nat {
    (c as u32 - '0' as u32) as nat
}

pub open spec fn all_digits(s: Seq<char>) -> bool {
    forall|i: int| 0 <= i < s.len() ==> is_digit(#[trigger] s[i])
}

/// The number that a string of digits denotes, most significant first.
pub open spec fn digits_value(s: Seq<char>) -> nat
    decreases s.len(),
{
    if s.len() == 0 {
        0
    } else {
        digits_value(s.drop_last()) * 10 + digit_value(s.last())
    }
}

/// The shortest decimal text of `v`.
pub open spec fn decimal(v: nat) -> Seq<char>
    decreases v,
{
    if v < 10 {
        seq![digit_char(v)]
    } else {
        decimal(v / 10).push(digit_char(v % 10))
    }
}

/// The decimal text of `v`, left-padded with zeros to at least `width` characters.
pub open spec fn padded_decimal(v: nat, width: nat) -> Seq<char> {
    let d = decimal(v);
    if d.len() >= width {
        d
    } else {
        Seq::new((width - d.len()) as nat, |i: int| '0') + d
    }
}

pub open spec fn pow10(n: nat) -> nat
    decreases n,
{
    if n == 0 {
        1
    } else {
        10 * pow10((n - 1) as nat)
    }
}

proof fn lemma_digit_char(d: nat)
    requires
        d < 10,
    ensures
        is_digit(digit_char(d)),
        digit_value(digit_char(d)) == d,
{
}

/// The shortest decimal text of `v` is made of digits and reads back as `v`.
pub proof fn lemma_decimal_reads_back(v: nat)
    ensures
        all_digits(decimal(v)),
        digits_value(decimal(v)) == v,
        decimal(v).len() >= 1,
    decreases v,
{
    if v < 10 {
        lemma_digit_char(v);
        assert(decimal(v).drop_last() =~= Seq::<char>::empty());
        assert(digits_value(Seq::<char>::empty()) == 0);
    } else {
        lemma_decimal_reads_back(v / 10);
        lemma_digit_char(v % 10);
        assert(decimal(v).drop_last() =~= decimal(v / 10));
        assert(decimal(v).last() == digit_char(v % 10));
        assert(v == (v / 10) * 10 + v % 10);
    }
}

/// A number below `10^width` has at most `width` decimal digits.
pub proof fn lemma_decimal_len(v: nat, width: nat)
    requires
        width >= 1,
        v < pow10(width),
    ensures
        decimal(v).len() <= width,
    decreases v,
{
    if v >= 10 {
        assert(width >= 2) by {
            if width == 1 {
                assert(pow10(1) == 10 * pow10(0));
            }
        }
        assert(v / 10 < pow10((width - 1) as nat));
        lemma_decimal_len(v / 10, (width - 1) as nat);
    }
}

/// Leading zeros change neither the value nor the digit-ness of a string.
pub proof fn lemma_leading_zeros(k: nat, s: Seq<char>)
    ensures
        digits_value(Seq::new(k, |i: int| '0') + s) == digits_value(s),
        all_digits(s) ==> all_digits(Seq::new(k, |i: int| '0') + s),
    decreases s.len(), k,
{
    let z = Seq::new(k, |i: int| '0');
    if s.len() == 0 {
        assert(z + s =~= z);
        if k > 0 {
            let z1 = Seq::new((k - 1) as nat, |i: int| '0');
            assert(z.drop_last() =~= z1 + s);
            lemma_leading_zeros((k - 1) as nat, s);
        }
    } else {
        assert((z + s).drop_last() =~= z + s.drop_last());
        lemma_leading_zeros(k, s.drop_last());
    }
}

/// A number below `10^width`, padded to `width`, takes exactly `width`
/// digits and reads back as itself.
pub proof fn lemma_padded_reads_back(v: nat, width: nat)
    requires
        width >= 1,
        v < pow10(width),
    ensures
        padded_decimal(v, width).len() == width,
        all_digits(padded_decimal(v, width)),
        digits_value(padded_decimal(v, width)) == v,
{
    lemma_decimal_reads_back(v);
    lemma_decimal_len(v, width);
    let d = decimal(v);
    if d.len() < width {
        lemma_leading_zeros((width - d.len()) as nat, d);
    }
}

/// A string of `n` digits denotes a number below `10^n`.
pub proof fn lemma_digits_value_bound(s: Seq<char>)
    requires
        all_digits(s),
    ensures
        digits_value(s) < pow10(s.len()),
    decreases s.len(),
{
    if s.len() > 0 {
        let t = s.drop_last();
        assert(all_digits(t)) by {
            assert forall|i: int| 0 <= i < t.len() implies is_digit(#[trigger] t[i]) by {
                assert(t[i] == s[i]);
            }
        }
        lemma_digits_value_bound(t);
        assert(is_digit(s[s.len() - 1]));
        assert(digit_value(s.last()) < 10);
        assert(pow10(s.len()) == 10 * pow10(t.len()));
        assert(digits_value(t) * 10 + 9 < pow10(s.len())) by (nonlinear_arith)
            requires
                digits_value(t) < pow10(t.len()),
                pow10(s.len()) == 10 * pow10(t.len()),
        ;
    }
}

/// The character of a decimal digit.
pub fn digit_to_char(d: u64) -> (c: char)
    requires
        d < 10,
    ensures
        c == digit_char(d as nat),
{
    match d {
        0 => '0',
        1 => '1',
        2 => '2',
        3 => '3',
        4 => '4',
        5 => '5',
        6 => '6',
        7 => '7',
        8 => '8',
        _ => '9',
    }
}

/// Appends the shortest decimal text of `v`.
pub fn push_decimal(out: &mut String, v: u64)
    ensures
        final(out)@ == old(out)@ + decimal(v as nat),
    decreases v,
{
    if v >= 10 {
        push_decimal(out, v / 10);
    }
    out.push(digit_to_char(v % 10));
    proof {
        if v >= 10 {
            assert(decimal(v as nat) == decimal((v / 10) as nat).push(digit_char((v % 10) as nat)));
        }
    }
}

/// Number of characters in the shortest decimal text of `v`.
pub fn decimal_len(v: u64) -> (n: usize)
    ensures
        n == decimal(v as nat).len(),
    decreases v,
{
    if v < 10 {
        1
    } else {
        let n = decimal_len(v / 10);
        proof {
            assert(decimal(v as nat).len() == decimal((v / 10) as nat).len() + 1);
            lemma_decimal_short(v as nat);
        }
        n + 1
    }
}

/// The decimal text of a `u64` has fewer than 21 characters.
proof fn lemma_decimal_short(v: nat)
    requires
        v < 0x1_0000_0000_0000_0000,
    ensures
        decimal(v).len() <= 20,
{
    assert(pow10(20) == 100_000_000_000_000_000_000) by {
        reveal_with_fuel(pow10, 21);
    }
    lemma_decimal_len(v, 20);
}

/// Appends the decimal text of `v`, left-padded with zeros to `width`.
pub fn push_padded(out: &mut String, v: u64, width: usize)
    ensures
        final(out)@ == old(out)@ + padded_decimal(v as nat, width as nat),
{
    let n = decimal_len(v);
    let ghost start = out@;
    if n < width {
        let mut k: usize = 0;
        while k < width - n
            invariant
                n < width,
                k <= width - n,
                out@ == start + Seq::new(k as nat, |i: int| '0'),
            decreases width - n - k,
        {
            out.push('0');
            k = k + 1;
            assert(out@ =~= start + Seq::new(k as nat, |i: int| '0'));
        }
    }
    push_decimal(out, v);
    assert(out@ =~= start + padded_decimal(v as nat, width as nat));
}

} // verus!
