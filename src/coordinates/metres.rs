use crate::constants::{_100KM, _500KM};
use crate::decimal::{padded_decimal, push_padded};
use crate::error::Error;
use crate::Precision;
use vstd::arithmetic::div_mod::{lemma_fundamental_div_mod, lemma_mod_decreases, lemma_mod_multiples_basic};
use vstd::prelude::*;

verus! {

/// A number of metres within one super-square: always below 500 km.
#[derive(Debug, PartialEq, Eq, Clone, Copy)]
pub struct Metres(u32);

/// `v` with the part below the span of `p` taken off.
pub open spec fn truncated(v: nat, p: Precision) -> nat {
    (v - v % (p.span() as nat)) as nat
}

/// The digits of `v` within its 100 km square at precision `p`, zero-padded
/// to half the digit count of `p`; none at the coarsest precision.
pub open spec fn padded_text(v: nat, p: Precision) -> Seq<char> {
    if p.digit_count() == 0 {
        Seq::empty()
    } else {
        padded_decimal((v % 100_000) / (p.span() as nat), p.width())
    }
}

/// Truncating to a precision is idempotent and never increases a value;
/// the result is a multiple of the precision's span.
pub proof fn lemma_truncate_idempotent(v: nat, p: Precision)
    ensures
        truncated(truncated(v, p), p) == truncated(v, p),
        truncated(v, p) <= v,
        truncated(v, p) % (p.span() as nat) == 0,
{
    let m = p.span() as int;
    let q = v as int / m;
    lemma_fundamental_div_mod(v as int, m);
    lemma_mod_multiples_basic(q, m);
    assert(truncated(v, p) == q * m);
    assert(truncated(v, p) % (m as nat) == 0);
}

/// Every span divides the side of a 100 km square, and so of a super-square.
pub proof fn lemma_span_divides(k: int, p: Precision)
    ensures
        (k * 100_000) % (p.span() as int) == 0,
        (k * 500_000) % (p.span() as int) == 0,
        100_000int % (p.span() as int) == 0,
{
    let m = p.span() as int;
    let q: int = match p {
        Precision::_100Km => 1,
        Precision::_10Km => 10,
        Precision::_2Km => 50,
        Precision::_1Km => 100,
        Precision::_100M => 1_000,
        Precision::_10M => 10_000,
        Precision::_1M => 100_000,
    };
    assert(q * m == 100_000);
    assert(k * 100_000 == (k * q) * m) by (nonlinear_arith)
        requires
            q * m == 100_000,
    ;
    assert(k * 500_000 == (k * 5 * q) * m) by (nonlinear_arith)
        requires
            q * m == 100_000,
    ;
    lemma_mod_multiples_basic(k * q, m);
    lemma_mod_multiples_basic(k * 5 * q, m);
    lemma_mod_multiples_basic(q, m);
}

/// The sum of two multiples of `m` is a multiple of `m`.
pub proof fn lemma_aligned_add(a: int, b: int, m: int)
    requires
        m > 0,
        a % m == 0,
        b % m == 0,
    ensures
        (a + b) % m == 0,
{
    lemma_fundamental_div_mod(a, m);
    lemma_fundamental_div_mod(b, m);
    assert(a + b == (a / m + b / m) * m) by (nonlinear_arith)
        requires
            a == m * (a / m) + a % m,
            b == m * (b / m) + b % m,
            a % m == 0,
            b % m == 0,
    ;
    lemma_mod_multiples_basic(a / m + b / m, m);
}

impl Metres {
    #[verifier::type_invariant]
    spec fn in_domain(self) -> bool {
        self.0 < _500KM
    }

    /// The number of metres.
    pub closed spec fn value(self) -> nat {
        self.0 as nat
    }

    /// The given number of metres, or `OutOfBounds` where it is 500 km or
    /// more.
    pub fn new(value: u32) -> (r: Result<Metres, Error>)
        ensures
            match r {
                Ok(m) => value < _500KM && m.value() == value,
                Err(e) => value >= _500KM && e == Error::OutOfBounds,
            },
    {
        if value >= _500KM {
            Err(Error::OutOfBounds)
        } else {
            Ok(Metres(value))
        }
    }

    /// The value truncated to the given precision.
    pub fn precision(&self, precision: Precision) -> (r: Metres)
        ensures
            r.value() == truncated(self.value(), precision),
            r.value() < _500KM,
    {
        proof {
            use_type_invariant(self);
            lemma_mod_decreases(self.0 as nat, precision.span() as nat);
        }
        let remainder = self.0 % precision.metres();
        Metres(self.0 - remainder)
    }

    /// The number of metres.
    pub fn inner(&self) -> (r: u32)
        ensures
            r == self.value(),
            r < _500KM,
    {
        proof {
            use_type_invariant(self);
        }
        self.0
    }

    /// Returns the number of metres within the current 100 km square,
    /// padded out to a valid grid reference format.
    pub fn padded(&self, precision: Precision) -> (r: String)
        ensures
            r@ == padded_text(self.value(), precision),
    {
        let mut out = String::new();
        if precision.digits() != 0 {
            let metres = self.0 % _100KM;
            push_padded(&mut out, (metres / precision.metres()) as u64, precision.digits() / 2);
        }
        out
    }
}

impl TryFrom<u32> for Metres {
    type Error = Error;

    fn try_from(value: u32) -> Result<Self, Self::Error> {
        Metres::new(value)
    }
}

impl vstd::std_specs::convert::TryFromSpecImpl<u32> for Metres {
    open spec fn obeys_try_from_spec() -> bool {
        true
    }

    closed spec fn try_from_spec(v: u32) -> Result<Self, Self::Error> {
        if v >= _500KM {
            Err(Error::OutOfBounds)
        } else {
            Ok(Metres(v))
        }
    }
}

impl From<Metres> for u32 {
    fn from(m: Metres) -> (r: u32) {
        m.0
    }
}

impl vstd::std_specs::convert::FromSpecImpl<Metres> for u32 {
    open spec fn obeys_from_spec() -> bool {
        true
    }

    open spec fn from_spec(m: Metres) -> u32 {
        m.value() as u32
    }
}

} // verus!
