use vstd::prelude::*;
use crate::geo_point::{Point, HALF_PI_NRAD, LATITUDE, PI_NRAD};

verus! {

/// An axis-aligned rectangle of latitudes and longitudes, bounds included.
///
/// It describes the region that a node of the tree covers as well as the
/// region that a query asks for.
#[derive(Debug, Clone, Copy)]
pub struct SearchBox {
    pub lat_from: i64,
    pub lat_to: i64,
    pub lon_from: i64,
    pub lon_to: i64,
}

impl SearchBox {
    /// Both intervals are ordered.
    pub open spec fn wf(&self) -> bool {
        self.lat_from <= self.lat_to && self.lon_from <= self.lon_to
    }

    /// All four inclusive bounds hold for `point`.
    pub open spec fn contains(&self, point: Point) -> bool {
        &&& self.lat_from <= point.lat <= self.lat_to
        &&& self.lon_from <= point.lon <= self.lon_to
    }

    /// `self` lies within `outer` on both axes.
    pub open spec fn nested_in(&self, outer: SearchBox) -> bool {
        &&& outer.lat_from <= self.lat_from
        &&& self.lat_to <= outer.lat_to
        &&& outer.lon_from <= self.lon_from
        &&& self.lon_to <= outer.lon_to
    }

    /// The two boxes lie apart on one axis at least, so they share no point.
    pub open spec fn apart(&self, other: SearchBox) -> bool {
        ||| self.lat_to < other.lat_from
        ||| other.lat_to < self.lat_from
        ||| self.lon_to < other.lon_from
        ||| other.lon_to < self.lon_from
    }

    /// The lower bound along `dimension`.
    pub open spec fn lower(&self, dimension: usize) -> i64 {
        if dimension == LATITUDE {
            self.lat_from
        } else {
            self.lon_from
        }
    }

    /// The upper bound along `dimension`.
    pub open spec fn upper(&self, dimension: usize) -> i64 {
        if dimension == LATITUDE {
            self.lat_to
        } else {
            self.lon_to
        }
    }

    /// The box with its upper bound along `dimension` replaced by `bound`.
    pub open spec fn capped(&self, dimension: usize, bound: i64) -> SearchBox {
        if dimension == LATITUDE {
            SearchBox { lat_to: bound, ..*self }
        } else {
            SearchBox { lon_to: bound, ..*self }
        }
    }

    /// The box with its lower bound along `dimension` replaced by `bound`.
    pub open spec fn raised(&self, dimension: usize, bound: i64) -> SearchBox {
        if dimension == LATITUDE {
            SearchBox { lat_from: bound, ..*self }
        } else {
            SearchBox { lon_from: bound, ..*self }
        }
    }

    /// The box that holds every valid point.
    pub open spec fn whole_sphere() -> SearchBox {
        SearchBox {
            lat_from: (-HALF_PI_NRAD) as i64,
            lat_to: HALF_PI_NRAD,
            lon_from: (-PI_NRAD) as i64,
            lon_to: PI_NRAD,
        }
    }

    /// The predicate "lies in `self`", as a value.
    pub open spec fn holds(&self) -> spec_fn(Point) -> bool {
        |point: Point| self.contains(point)
    }

    /// Every bound of the box is a coordinate of the sphere.
    pub open spec fn on_sphere(&self) -> bool {
        &&& -HALF_PI_NRAD <= self.lat_from <= HALF_PI_NRAD
        &&& -HALF_PI_NRAD <= self.lat_to <= HALF_PI_NRAD
        &&& -PI_NRAD <= self.lon_from <= PI_NRAD
        &&& -PI_NRAD <= self.lon_to <= PI_NRAD
    }

    /// Twice each bound is a number of the machine.
    pub open spec fn can_double(&self) -> bool {
        &&& i64::MIN <= 2 * self.lat_from <= i64::MAX
        &&& i64::MIN <= 2 * self.lat_to <= i64::MAX
        &&& i64::MIN <= 2 * self.lon_from <= i64::MAX
        &&& i64::MIN <= 2 * self.lon_to <= i64::MAX
    }

    /// The same box with its bounds counted in half nanoradians.
    pub open spec fn doubled(&self) -> SearchBox {
        SearchBox {
            lat_from: (2 * self.lat_from) as i64,
            lat_to: (2 * self.lat_to) as i64,
            lon_from: (2 * self.lon_from) as i64,
            lon_to: (2 * self.lon_to) as i64,
        }
    }

    /// All four inclusive bounds, which count in half nanoradians, hold for
    /// `point`.
    pub open spec fn contains_fine(&self, point: Point) -> bool {
        &&& self.lat_from <= 2 * point.lat <= self.lat_to
        &&& self.lon_from <= 2 * point.lon <= self.lon_to
    }

    /// The predicate "lies in `self`", as a value, for a box that counts in
    /// half nanoradians.
    pub open spec fn holds_fine(&self) -> spec_fn(Point) -> bool {
        |point: Point| self.contains_fine(point)
    }

    pub fn new(lat_from: i64, lat_to: i64, lon_from: i64, lon_to: i64) -> (b: Self)
        requires
            lat_from <= lat_to,
            lon_from <= lon_to,
        ensures
            b == (SearchBox { lat_from, lat_to, lon_from, lon_to }),
            b.wf(),
    {
        SearchBox { lat_from, lat_to, lon_from, lon_to }
    }

    pub fn world() -> (b: Self)
        ensures
            b == Self::whole_sphere(),
            b.wf(),
    {
        SearchBox {
            lat_from: -HALF_PI_NRAD,
            lat_to: HALF_PI_NRAD,
            lon_from: -PI_NRAD,
            lon_to: PI_NRAD,
        }
    }

    /// The same box with its bounds counted in half nanoradians.
    pub fn double(&self) -> (fine: Self)
        requires
            self.can_double(),
        ensures
            fine == self.doubled(),
    {
        SearchBox {
            lat_from: 2 * self.lat_from,
            lat_to: 2 * self.lat_to,
            lon_from: 2 * self.lon_from,
            lon_to: 2 * self.lon_to,
        }
    }

    /// Does a box that counts in half nanoradians hold `point`?
    pub fn is_inside_fine(&self, point: &Point) -> (inside: bool)
        ensures
            inside == self.contains_fine(*point),
    {
        let lat: i128 = 2 * (point.lat as i128);
        let lon: i128 = 2 * (point.lon as i128);
        let cond_1 = self.lat_from as i128 <= lat;
        let cond_2 = lat <= self.lat_to as i128;
        let cond_3 = self.lon_from as i128 <= lon;
        let cond_4 = lon <= self.lon_to as i128;

        cond_1 && cond_2 && cond_3 && cond_4
    }

    pub fn is_inside(&self, point: &Point) -> (inside: bool)
        ensures
            inside == self.contains(*point),
    {
        let cond_1 = self.lat_from <= point.lat;
        let cond_2 = point.lat <= self.lat_to;
        let cond_3 = self.lon_from <= point.lon;
        let cond_4 = point.lon <= self.lon_to;

        cond_1 && cond_2 && cond_3 && cond_4
    }

    pub fn nested_box(box_internal: &Self, box_external: &Self) -> (nested: bool)
        ensures
            nested == box_internal.nested_in(*box_external),
    {
        let cond_1 = box_external.lat_from <= box_internal.lat_from;
        let cond_2 = box_internal.lat_to <= box_external.lat_to;
        let cond_3 = box_external.lon_from <= box_internal.lon_from;
        let cond_4 = box_internal.lon_to <= box_external.lon_to;

        cond_1 && cond_2 && cond_3 && cond_4
    }

}

} // verus!
