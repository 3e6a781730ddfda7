//! Conversion between British and Irish national grid references and
//! easting / northing coordinates, at a chosen precision.
//!
//! A grid reference names a square by letters and locates a point within it
//! by digits. The British grid adds a 500 km super-square letter in front.
//! Every function of the library is verified against a contract stated over
//! the spec functions of the module that defines it.

pub mod constants;
pub mod coordinates;
pub mod decimal;
pub mod error;
pub mod grid;
pub mod osgb;
pub mod osi;
pub mod precision;
mod strings;
pub mod utils;

pub use error::Error;
pub use osgb::OSGB;
pub use osi::OSI;
pub use precision::Precision;
