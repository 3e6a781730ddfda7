//! Reading the text of a grid reference: whitespace, case and digit pairs.

use crate::decimal::{
    all_digits, decimal, digit_value, digits_value, is_digit, pow10, push_decimal,
};
use crate::error::{outcome, Error, Fault};
use crate::Precision;
use vstd::arithmetic::div_mod::lemma_mod_multiples_basic;
use vstd::prelude::*;
use vstd::utf8::{encode_utf8, is_ascii_chars, is_ascii_chars_encode_utf8};

verus! {

/// The whitespace that `char::is_ascii_whitespace` names.
pub open spec fn is_ascii_space(c: char) -> bool {
    c == ' ' || c == '\t' || c == '\n' || c == '\x0C' || c == '\r'
}

/// The upper-case form of an ASCII letter; other characters are kept.
pub open spec fn ascii_upper(c: char) -> char {
    if 'a' <= c <= 'z' {
        ((c as u32 - 32) as u8) as char
    } else {
        c
    }
}

/// `s` without its ASCII whitespace, with ASCII letters in upper case.
pub open spec fn trimmed(s: Seq<char>) -> Seq<char>
    decreases s.len(),
{
    if s.len() == 0 {
        s
    } else if is_ascii_space(s.last()) {
        trimmed(s.drop_last())
    } else {
        trimmed(s.drop_last()).push(ascii_upper(s.last()))
    }
}

fn is_space(c: char) -> (r: bool)
    ensures
        r == is_ascii_space(c),
{
    c == ' ' || c == '\t' || c == '\n' || c == '\x0C' || c == '\r'
}

fn to_upper(c: char) -> (r: char)
    ensures
        r == ascii_upper(c),
{
    if 'a' <= c && c <= 'z' {
        ((c as u8) - 32) as char
    } else {
        c
    }
}

/// Removes all ASCII whitespace from a string and converts it to upper
/// case for parsing.
pub fn trim_string(s: &str) -> (r: String)
    ensures
        r@ == trimmed(s@),
{
    let mut out = String::new();
    for c in it: s.chars()
        invariant
            it.seq() == s@,
            out@ == trimmed(s@.take(it.index())),
    {
        let ghost done = s@.take(it.index());
        assert(s@.take(it.index() + 1) == done.push(c));
        assert(done.push(c).drop_last() == done);
        if !is_space(c) {
            out.push(to_upper(c));
        }
    }
    assert(s@.take(s@.len() as int) == s@);
    out
}

/// Length of the UTF-8 encoding of `s`, which is what `str::len` counts.
pub open spec fn byte_len(s: Seq<char>) -> nat {
    encode_utf8(s).len()
}

/// The message of the error for a digit string of the wrong length.
pub open spec fn digit_count_message(n: nat) -> Seq<char> {
    decimal(n) + " is not a valid number of digits. Supported values: 0, 2, 4, 6, 8, 10."@
}

/// The message of the error for a half that is not an unsigned number.
pub open spec fn invalid_digit_message() -> Seq<char> {
    "ParseIntError { kind: InvalidDigit }"@
}

/// The digits of an unsigned number in text: all of it, or all after a
/// leading plus sign, as `str::parse::<u32>` reads them.
pub open spec fn unsigned_body(s: Seq<char>) -> Seq<char> {
    if s.len() > 0 && s[0] == '+' {
        s.drop_first()
    } else {
        s
    }
}

pub open spec fn is_unsigned(s: Seq<char>) -> bool {
    unsigned_body(s).len() > 0 && all_digits(unsigned_body(s))
}

pub open spec fn unsigned_value(s: Seq<char>) -> nat {
    digits_value(unsigned_body(s))
}

/// The precision whose references carry `k` digits per coordinate.
pub open spec fn precision_of_half(k: nat) -> Precision {
    if k == 0 {
        Precision::_100Km
    } else if k == 1 {
        Precision::_10Km
    } else if k == 2 {
        Precision::_1Km
    } else if k == 3 {
        Precision::_100M
    } else if k == 4 {
        Precision::_10M
    } else {
        Precision::_1M
    }
}

/// What splitting the digit string `s` gives: its eastings and northings
/// offsets in metres, and the precision its length stands for.
pub open spec fn split_digits(s: Seq<char>) -> Result<(nat, nat, Precision), Fault> {
    let n = byte_len(s);
    if n > 10 || n % 2 != 0 {
        Err(Fault::Parse(digit_count_message(n)))
    } else if n == 0 {
        Ok((0, 0, Precision::_100Km))
    } else if !is_ascii_chars(s) {
        Err(Fault::Parse(invalid_digit_message()))
    } else {
        let h = n / 2;
        let e = s.subrange(0, h as int);
        let no = s.subrange(h as int, n as int);
        if !is_unsigned(e) || !is_unsigned(no) {
            Err(Fault::Parse(invalid_digit_message()))
        } else {
            let p = precision_of_half(h);
            Ok(((unsigned_value(e) * p.span()) as nat, (unsigned_value(no) * p.span()) as nat, p))
        }
    }
}

/// The outcome of a split, with its offsets as mathematical integers.
pub open spec fn split_outcome(r: Result<(u32, u32, Precision), Error>) -> Result<
    (nat, nat, Precision),
    Fault,
> {
    match r {
        Ok((e, n, p)) => Ok((e as nat, n as nat, p)),
        Err(err) => Err(err@),
    }
}

proof fn lemma_pow10_small(k: nat)
    requires
        k <= 5,
    ensures
        pow10(k) <= 100_000,
        k < 5 ==> pow10(k) <= 10_000,
{
    reveal_with_fuel(pow10, 6);
}

fn invalid_digit() -> (e: Error)
    ensures
        e@ == Fault::Parse(invalid_digit_message()),
{
    Error::ParseError(String::from_str("ParseIntError { kind: InvalidDigit }"))
}

/// Reads an unsigned number of at most five characters, as
/// `str::parse::<u32>` does.
fn parse_unsigned(t: &str) -> (r: Result<u32, Error>)
    requires
        t@.len() <= 5,
    ensures
        outcome(r) == (if is_unsigned(t@) {
            Ok(unsigned_value(t@) as u32)
        } else {
            Err(Fault::Parse(invalid_digit_message()))
        }),
        r matches Ok(v) ==> v == unsigned_value(t@),
{
    let len = t.unicode_len();
    let mut start: usize = 0;
    if len > 0 && t.get_char(0) == '+' {
        start = 1;
    }
    let ghost body = unsigned_body(t@);
    assert(body =~= t@.subrange(start as int, len as int));
    if start == len {
        return Err(invalid_digit());
    }
    let mut i: usize = start;
    let mut v: u32 = 0;
    while i < len
        invariant
            len == t@.len() <= 5,
            start <= i <= len,
            body == t@.subrange(start as int, len as int),
            body == unsigned_body(t@),
            all_digits(t@.subrange(start as int, i as int)),
            v == digits_value(t@.subrange(start as int, i as int)),
            v < pow10((i - start) as nat),
        decreases len - i,
    {
        let c = t.get_char(i);
        if !('0' <= c && c <= '9') {
            proof {
                assert(body[i - start] == c);
            }
            return Err(invalid_digit());
        }
        let ghost done = t@.subrange(start as int, i as int);
        let ghost next = t@.subrange(start as int, i + 1);
        proof {
            assert(next =~= done.push(c));
            assert(next.drop_last() =~= done);
            lemma_pow10_small((i - start) as nat);
            assert(pow10((i + 1 - start) as nat) == 10 * pow10((i - start) as nat));
        }
        v = v * 10 + ((c as u32) - ('0' as u32));
        i = i + 1;
    }
    assert(t@.subrange(start as int, len as int) == body);
    Ok(v)
}

/// Converts a string of digits into eastings and northings offsets in
/// metres, and the precision that the number of digits stands for.
pub fn digits(s: &str) -> (r: Result<(u32, u32, Precision), Error>)
    ensures
        split_outcome(r) == split_digits(s@),
{
    let n = s.as_bytes().len();
    if n > 10 || n % 2 != 0 {
        let mut message = String::new();
        push_decimal(&mut message, n as u64);
        message.append(" is not a valid number of digits. Supported values: 0, 2, 4, 6, 8, 10.");
        return Err(Error::ParseError(message));
    }
    if n == 0 {
        return Ok((0, 0, Precision::_100Km));
    }
    if !s.is_ascii() {
        return Err(invalid_digit());
    }
    proof {
        is_ascii_chars_encode_utf8(s@);
    }
    let h = n / 2;
    let ghost e_text = s@.subrange(0, h as int);
    let ghost n_text = s@.subrange(h as int, n as int);
    let eastings = match parse_unsigned(s.substring_ascii(0, h)) {
        Ok(v) => v,
        Err(e) => return Err(e),
    };
    let northings = match parse_unsigned(s.substring_ascii(h, n)) {
        Ok(v) => v,
        Err(e) => return Err(e),
    };
    assert(is_unsigned(e_text) && is_unsigned(n_text));
    let precision = match h {
        1 => Precision::_10Km,
        2 => Precision::_1Km,
        3 => Precision::_100M,
        4 => Precision::_10M,
        _ => Precision::_1M,
    };
    proof {
        lemma_half_fits(e_text, h as nat);
        lemma_half_fits(n_text, h as nat);
        assert(precision == precision_of_half(h as nat));
        assert(eastings == unsigned_value(e_text));
        assert(northings == unsigned_value(n_text));
    }
    Ok((eastings * precision.metres(), northings * precision.metres(), precision))
}

/// An unsigned number of `k` characters, scaled to its precision, stays
/// within a 100 km square.
proof fn lemma_half_fits(t: Seq<char>, k: nat)
    requires
        1 <= k <= 5,
        t.len() == k,
        is_unsigned(t),
    ensures
        unsigned_value(t) * precision_of_half(k).span() < 100_000,
{
    let b = unsigned_body(t);
    crate::decimal::lemma_digits_value_bound(b);
    let v = unsigned_value(t);
    assert(b.len() <= k);
    lemma_pow10_mono(b.len(), k);
    reveal_with_fuel(pow10, 6);
    let m = precision_of_half(k).span();
    assert(v < pow10(k));
    assert(v * m < 100_000) by (nonlinear_arith)
        requires
            v < pow10(k),
            (k == 1 && pow10(k) == 10 && m == 10_000) || (k == 2 && pow10(k) == 100 && m == 1_000)
                || (k == 3 && pow10(k) == 1_000 && m == 100) || (k == 4 && pow10(k) == 10_000
                && m == 10) || (k == 5 && pow10(k) == 100_000 && m == 1),
    ;
}

proof fn lemma_pow10_mono(a: nat, b: nat)
    requires
        a <= b,
    ensures
        pow10(a) <= pow10(b),
    decreases b,
{
    if a < b {
        lemma_pow10_mono(a, (b - 1) as nat);
    }
}

/// The offsets of a split lie within one 100 km square and are multiples of
/// the span of its precision.
pub proof fn lemma_split_digits_bounds(s: Seq<char>)
    ensures
        split_digits(s) matches Ok((e, n, p)) ==> {
            &&& e < 100_000
            &&& n < 100_000
            &&& e % (p.span() as nat) == 0
            &&& n % (p.span() as nat) == 0
            &&& p == precision_of_half(byte_len(s) / 2)
            &&& byte_len(s) == 2 ==> e % 2_000 == 0 && n % 2_000 == 0
        },
{
    let b = byte_len(s);
    if b <= 10 && b % 2 == 0 && b > 0 && is_ascii_chars(s) {
        is_ascii_chars_encode_utf8(s);
        let h = b / 2;
        let e = s.subrange(0, h as int);
        let no = s.subrange(h as int, b as int);
        if is_unsigned(e) && is_unsigned(no) {
            lemma_half_fits(e, h as nat);
            lemma_half_fits(no, h as nat);
            let m = precision_of_half(h).span() as int;
            lemma_mod_multiples_basic(unsigned_value(e) as int, m);
            lemma_mod_multiples_basic(unsigned_value(no) as int, m);
            if h == 1 {
                lemma_mod_multiples_basic(unsigned_value(e) as int * 5, 2_000);
                lemma_mod_multiples_basic(unsigned_value(no) as int * 5, 2_000);
            }
        }
    }
}

/// The bytes of two strings joined are the bytes of each.
pub proof fn lemma_byte_len_concat(a: Seq<char>, b: Seq<char>)
    ensures
        byte_len(a + b) == byte_len(a) + byte_len(b),
    decreases a.len(),
{
    if a.len() == 0 {
        assert(a + b =~= b);
    } else {
        assert((a + b).drop_first() =~= a.drop_first() + b);
        assert((a + b)[0] == a[0]);
        lemma_byte_len_concat(a.drop_first(), b);
    }
}

/// An ASCII character takes one byte.
pub proof fn lemma_byte_len_ascii(c: char)
    requires
        c <= '\x7f',
    ensures
        byte_len(seq![c]) == 1,
{
    assert(is_ascii_chars(seq![c]));
    is_ascii_chars_encode_utf8(seq![c]);
}

/// A character of canonical reference text: an upper-case ASCII letter or
/// a digit.
pub open spec fn is_canonical_char(c: char) -> bool {
    ('A' <= c <= 'Z') || is_digit(c)
}

pub open spec fn is_canonical(s: Seq<char>) -> bool {
    forall|i: int| 0 <= i < s.len() ==> is_canonical_char(#[trigger] s[i])
}

/// Canonical text is ASCII and trimming leaves it as it is.
pub proof fn lemma_canonical_trimmed(s: Seq<char>)
    requires
        is_canonical(s),
    ensures
        trimmed(s) == s,
        is_ascii_chars(s),
        byte_len(s) == s.len(),
    decreases s.len(),
{
    assert(is_ascii_chars(s)) by {
        assert forall|i: int| 0 <= i < s.len() implies '\0' <= #[trigger] s[i] <= '\u{7f}' by {
            assert(is_canonical_char(s[i]));
        }
    }
    is_ascii_chars_encode_utf8(s);
    if s.len() > 0 {
        let t = s.drop_last();
        assert(is_canonical(t)) by {
            assert forall|i: int| 0 <= i < t.len() implies is_canonical_char(#[trigger] t[i]) by {
                assert(t[i] == s[i]);
            }
        }
        lemma_canonical_trimmed(t);
        assert(is_canonical_char(s[s.len() - 1]));
        assert(t.push(s.last()) =~= s);
    }
}

/// Two halves of digits, of one length from one to five, split into their
/// values scaled to the precision that the length stands for.
pub proof fn lemma_split_halves(a: Seq<char>, b: Seq<char>)
    requires
        a.len() == b.len(),
        1 <= a.len() <= 5,
        all_digits(a),
        all_digits(b),
    ensures
        split_digits(a + b) == Ok::<(nat, nat, Precision), Fault>(
            (
                (digits_value(a) * precision_of_half(a.len()).span()) as nat,
                (digits_value(b) * precision_of_half(a.len()).span()) as nat,
                precision_of_half(a.len()),
            ),
        ),
{
    let s = a + b;
    assert(is_canonical(s)) by {
        assert forall|i: int| 0 <= i < s.len() implies is_canonical_char(#[trigger] s[i]) by {
            if i < a.len() {
                assert(s[i] == a[i]);
                assert(is_digit(a[i]));
            } else {
                assert(s[i] == b[i - a.len()]);
                assert(is_digit(b[i - a.len()]));
            }
        }
    }
    lemma_canonical_trimmed(s);
    let h = a.len();
    assert(s.subrange(0, h as int) =~= a);
    assert(s.subrange(h as int, 2 * h as int) =~= b);
    assert(is_digit(a[0]) && is_digit(b[0]));
    assert(unsigned_body(a) == a);
    assert(unsigned_body(b) == b);
}

/// The digit splitter accepts a string of digits exactly when its length is
/// 0, 2, 4, 6, 8 or 10; a string of any other length, digits or not, is
/// refused with an error that names the length.
pub proof fn lemma_digit_count_legality(s: Seq<char>)
    ensures
        all_digits(s) ==> (split_digits(s) is Ok <==> (s.len() <= 10 && s.len() % 2 == 0)),
        (byte_len(s) > 10 || byte_len(s) % 2 == 1) ==> split_digits(s) == Err::<
            (nat, nat, Precision),
            Fault,
        >(Fault::Parse(digit_count_message(byte_len(s)))),
{
    if all_digits(s) {
        assert(is_canonical(s)) by {
            assert forall|i: int| 0 <= i < s.len() implies is_canonical_char(#[trigger] s[i]) by {
                assert(is_digit(s[i]));
            }
        }
        lemma_canonical_trimmed(s);
        if s.len() <= 10 && s.len() % 2 == 0 && s.len() > 0 {
            let h = s.len() / 2;
            let a = s.subrange(0, h as int);
            let b = s.subrange(h as int, s.len() as int);
            assert(all_digits(a)) by {
                assert forall|i: int| 0 <= i < a.len() implies is_digit(#[trigger] a[i]) by {
                    assert(a[i] == s[i]);
                }
            }
            assert(all_digits(b)) by {
                assert forall|i: int| 0 <= i < b.len() implies is_digit(#[trigger] b[i]) by {
                    assert(b[i] == s[i + h]);
                }
            }
            assert(a + b =~= s);
            lemma_split_halves(a, b);
        }
    }
}

} // verus!
