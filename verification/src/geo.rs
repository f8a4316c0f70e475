//! Common geo types.

use vstd::prelude::*;

verus! {

/// 2D coordinate in fixed-point geographic units.
///
/// The engine is unit-agnostic: callers pick one scale (for example
/// nano-degrees) and use it consistently for coordinates, tie-points,
/// pixel scales and transformation matrices. All coordinate arithmetic
/// is exact integer arithmetic in that unit.
#[derive(Debug, Clone, Copy, Default, PartialEq, Eq, Structural, PartialOrd)]
pub struct Coordinate {
    /// Longitude (easting) of the coordinate, in fixed-point units.
    pub x: i128,
    /// Latitude (northing) of the coordinate, in fixed-point units.
    pub y: i128,
}

impl Coordinate {
    /// Create a new coordinate from latitude and longitude.
    pub fn new(latitude: i128, longitude: i128) -> (c: Coordinate)
        ensures
            c.x == longitude,
            c.y == latitude,
    {
        Coordinate { x: longitude, y: latitude }
    }
}

} // verus!
