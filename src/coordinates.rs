//! Coordinates within one 500 km super-square.

pub mod metres;
pub mod point;
