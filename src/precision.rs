use crate::constants::{_100KM, _100M, _10KM, _10M, _1KM, _1M, _2KM};
use vstd::prelude::*;

verus! {

/// Supported resolutions of a grid reference, coarsest first.
///
/// `_2Km` is the tetrad level: a 10 km square split into a 5 x 5 grid of
/// lettered 2 km cells.
#[derive(Debug, PartialEq, Eq, Structural, PartialOrd, Ord, Copy, Clone)]
pub enum Precision {
    _100Km,
    _10Km,
    _2Km,
    _1Km,
    _100M,
    _10M,
    _1M,
}

impl Precision {
    /// Side of a cell at this precision, in metres.
    pub open spec fn span(self) -> u32 {
        match self {
            Precision::_100Km => _100KM,
            Precision::_10Km => _10KM,
            Precision::_2Km => _2KM,
            Precision::_1Km => _1KM,
            Precision::_100M => _100M,
            Precision::_10M => _10M,
            Precision::_1M => _1M,
        }
    }

    /// Number of digits of a reference at this precision (both halves).
    pub open spec fn digit_count(self) -> usize {
        match self {
            Precision::_100Km => 0,
            Precision::_10Km => 2,
            Precision::_2Km => 2,
            Precision::_1Km => 4,
            Precision::_100M => 6,
            Precision::_10M => 8,
            Precision::_1M => 10,
        }
    }

    /// Number of digits per coordinate.
    pub open spec fn width(self) -> nat {
        (self.digit_count() / 2) as nat
    }

    /// Returns the precision in metres.
    pub fn metres(&self) -> (r: u32)
        ensures
            r == self.span(),
    {
        match self {
            Precision::_100Km => _100KM,
            Precision::_10Km => _10KM,
            Precision::_2Km => _2KM,
            Precision::_1Km => _1KM,
            Precision::_100M => _100M,
            Precision::_10M => _10M,
            Precision::_1M => _1M,
        }
    }

    /// Returns the number of digits needed to represent a grid reference
    /// with this precision.
    pub fn digits(&self) -> (r: usize)
        ensures
            r == self.digit_count(),
    {
        match self {
            Precision::_100Km => 0,
            Precision::_10Km => 2,
            Precision::_2Km => 2,
            Precision::_1Km => 4,
            Precision::_100M => 6,
            Precision::_10M => 8,
            Precision::_1M => 10,
        }
    }
}

} // verus!
