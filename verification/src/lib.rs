//! Geographic coordinates on a spherical Earth, with the parts that can be
//! decided exactly: which bit patterns are valid latitudes and longitudes, how
//! two such numbers compare, how a degree-minute-second text splits into its numeric
//! fields, and the shape of the JSON text of a point.
//!
//! A coordinate is held as the bit pattern of an IEEE 754 binary64 number.
//! Trigonometry on such numbers is left to the caller, who hands the results
//! back as bit patterns.

pub mod binary64;
pub mod point;
pub mod text;
pub mod number;
pub mod dms;

pub use crate::dms::{Axis, DmsAngle, DmsField, DmsPair, Failure, GeoParseError};
pub use crate::point::Coordinates;
