//! Covering polygons with geohash grid cells.
//!
//! The library works on an exact integer model of the geohash grid: a
//! longitude/latitude position is a pair of fixed-point fractions of the
//! world extent, scaled by 2^30, so that every geohash cell boundary at
//! every precision from 1 to 12 is an exact integer coordinate.  All
//! geometric predicates are computed exactly on these integers.

use vstd::prelude::*;

pub mod cover;
pub mod geometry;
pub mod grid;
pub mod laws;
pub mod seed;

verus! {

/// Coordinates range over `0 ..= COORD_MAX` in both axes: a value `x` stands
/// for the longitude `-180 + 360 * x / 2^30` degrees, and a value `y` for the
/// latitude `-90 + 180 * y / 2^30` degrees.
pub const COORD_MAX: u32 = 0x4000_0000;

/// A position on the earth in fixed-point grid coordinates.
#[derive(Clone, Copy, PartialEq, Eq, Structural, Debug)]
pub struct GeoPoint {
    /// Longitude as a 2^30 fixed-point fraction of the range [-180, 180].
    pub x: u32,
    /// Latitude as a 2^30 fixed-point fraction of the range [-90, 90].
    pub y: u32,
}

pub open spec fn valid_point(p: GeoPoint) -> bool {
    p.x <= COORD_MAX && p.y <= COORD_MAX
}

/// Whether `p` is a representable position.
pub fn point_is_valid(p: GeoPoint) -> (r: bool)
    ensures
        r == valid_point(p),
{
    p.x <= COORD_MAX && p.y <= COORD_MAX
}

/// The failures a coverage computation can report.
#[derive(Clone, Copy, PartialEq, Eq, Structural, Debug)]
pub enum GeohashError {
    /// The requested precision is outside the supported range of 1 to 12.
    InvalidPrecision,
    /// A polygon ring is malformed: too short, not closed, or holding a
    /// coordinate outside the representable range.
    CodecError,
    /// The input geometry is neither a polygon nor a multi-polygon; reported
    /// by adapters that parse foreign geometry formats.
    UnsupportedGeometry,
}

} // verus!
