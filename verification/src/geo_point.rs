use vstd::prelude::*;

verus! {

/// Half a turn, in nanoradians.
pub const PI_NRAD: i64 = 3_141_592_654;

/// A quarter turn, in nanoradians.
pub const HALF_PI_NRAD: i64 = 1_570_796_327;

/// The coordinate axis that a split or a comparison runs along: `0` is
/// latitude, every other value is longitude.
pub const LATITUDE: usize = 0;

/// See [`LATITUDE`].
pub const LONGITUDE: usize = 1;

/// A point on the sphere: an identifier and a position in nanoradians.
#[derive(Debug, Clone, Copy)]
pub struct Point {
    pub id: usize,
    pub lat: i64,
    pub lon: i64,
}

impl Point {
    /// The latitude lies within a quarter turn of the equator and the
    /// longitude within half a turn of the prime meridian.
    pub open spec fn valid(&self) -> bool {
        &&& -HALF_PI_NRAD <= self.lat <= HALF_PI_NRAD
        &&& -PI_NRAD <= self.lon <= PI_NRAD
    }

    /// The coordinate of the point along `dimension`.
    pub open spec fn coordinate(&self, dimension: usize) -> i64 {
        if dimension == LATITUDE {
            self.lat
        } else {
            self.lon
        }
    }

    /// The coordinate of the point along `dimension`, counted in half
    /// nanoradians.
    pub open spec fn fine(&self, dimension: usize) -> int {
        2 * self.coordinate(dimension)
    }

    /// The same point seen from the other hemisphere.
    pub open spec fn mirrored(&self) -> Point {
        Point { id: self.id, lat: (-self.lat) as i64, lon: self.lon }
    }

    pub fn is_valid(&self) -> (ok: bool)
        ensures
            ok == self.valid(),
    {
        -HALF_PI_NRAD <= self.lat && self.lat <= HALF_PI_NRAD && -PI_NRAD <= self.lon && self.lon
            <= PI_NRAD
    }

    pub fn coord(&self, dimension: usize) -> (c: i64)
        ensures
            c == self.coordinate(dimension),
    {
        if dimension == LATITUDE {
            self.lat
        } else {
            self.lon
        }
    }
}

} // verus!
