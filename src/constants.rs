//! Metre spans used throughout the grids.

use vstd::prelude::*;

verus! {

/// Side of a super-square, and the extent of the coordinate domain.
pub const _500KM: u32 = 500_000;

/// Side of a grid square.
pub const _100KM: u32 = 100_000;

pub const _10KM: u32 = 10_000;

/// Side of a tetrad.
pub const _2KM: u32 = 2_000;

pub const _1KM: u32 = 1_000;

pub const _100M: u32 = 100;

pub const _10M: u32 = 10;

pub const _1M: u32 = 1;

} // verus!
