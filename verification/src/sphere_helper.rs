use vstd::prelude::*;
use crate::geo_point::{Point, HALF_PI_NRAD, PI_NRAD};
use crate::search_box::SearchBox;

verus! {

/// The number of nanoradians in one radian.
pub const NRAD_PER_RAD: u64 = 1_000_000_000;

/// The geometry of latitude and longitude boxes on a sphere.
pub struct SphereHelper {}

/// One or two boxes that together stand for a region; none for an empty one.
pub type BoxPair = (Option<SearchBox>, Option<SearchBox>);

/// `point` lies in one of the boxes.
pub open spec fn covers(boxes: BoxPair, point: Point) -> bool {
    ||| boxes.0 matches Some(first) && first.contains(point)
    ||| boxes.1 matches Some(second) && second.contains(point)
}

/// The predicate "lies in one of the boxes", as a value.
pub open spec fn within(boxes: BoxPair) -> spec_fn(Point) -> bool {
    |point: Point| covers(boxes, point)
}

/// The predicate "lies in the rectangle between the two corners", as a value.
pub open spec fn in_rectangle(corner_west: Point, corner_east: Point) -> spec_fn(Point) -> bool {
    |point: Point| SphereHelper::in_query(corner_west, corner_east, point)
}

/// The predicate "lies in reach of `center` and does not slip through at the
/// antimeridian", as a value.
pub open spec fn in_cover(center: Point, d_lat: int, d_lon: int) -> spec_fn(Point) -> bool {
    |point: Point|
        SphereHelper::in_reach(center, d_lat, d_lon, point) && !SphereHelper::seam_slip(
            center,
            d_lat,
            d_lon,
            point,
        )
}

/// Every bound of the boxes is a coordinate of the sphere.
pub open spec fn on_sphere(boxes: BoxPair) -> bool {
    &&& boxes.0 matches Some(first) ==> first.on_sphere()
    &&& boxes.1 matches Some(second) ==> second.on_sphere()
}

/// Two boxes, where there are two, share no point.
pub open spec fn apart(boxes: BoxPair) -> bool {
    boxes.0 matches Some(first) ==> (boxes.1 matches Some(second) ==> first.apart(second))
}

/// The boxes that are there are ordered, a box in the second place follows
/// one in the first, and two boxes share no point.
pub open spec fn well_formed(boxes: BoxPair) -> bool {
    &&& boxes.0 matches Some(first) ==> first.wf()
    &&& boxes.1 matches Some(second) ==> second.wf()
    &&& boxes.0 is None ==> boxes.1 is None
    &&& apart(boxes)
}

/// How far apart two longitudes lie around the circle.
pub open spec fn lon_gap(a: int, b: int) -> int {
    let straight = if a >= b {
        a - b
    } else {
        b - a
    };
    if straight <= PI_NRAD {
        straight
    } else {
        2 * PI_NRAD - straight
    }
}

impl SphereHelper {
    /// The angle that an arc of length `distance` spans on a sphere of radius
    /// `radius`, in nanoradians, rounded up and held to half a turn, which
    /// reaches all of the sphere.
    pub open spec fn reach(distance: u64, radius: u64) -> int {
        let exact = (distance * NRAD_PER_RAD + radius - 1) / (radius as int);
        if exact >= PI_NRAD {
            PI_NRAD as int
        } else {
            exact
        }
    }

    /// A disc of angular radius `d_lat` around `center` touches a pole.
    pub open spec fn pole_in_reach(center: Point, d_lat: int) -> bool {
        center.lat + d_lat >= HALF_PI_NRAD || center.lat - d_lat <= -HALF_PI_NRAD
    }

    /// `point` lies no further than `d_lat` from `center` in latitude, and,
    /// unless a pole is that near, no further than `d_lon` in longitude around
    /// the circle. Nothing is in reach of an invalid center or of a negative
    /// angle.
    pub open spec fn in_reach(center: Point, d_lat: int, d_lon: int, point: Point) -> bool {
        &&& center.valid()
        &&& d_lat >= 0
        &&& d_lon >= 0
        &&& -d_lat <= point.lat - center.lat <= d_lat
        &&& Self::pole_in_reach(center, d_lat) || lon_gap(point.lon as int, center.lon as int)
            <= d_lon
    }

    /// The one way in which a point in reach escapes the cover: the disc ends
    /// exactly on the antimeridian, so that no box is laid on its far side, and
    /// `point` lies on the antimeridian under its other longitude.
    pub open spec fn seam_slip(center: Point, d_lat: int, d_lon: int, point: Point) -> bool {
        &&& Self::in_reach(center, d_lat, d_lon, point)
        &&& !Self::pole_in_reach(center, d_lat)
        &&& d_lon < PI_NRAD
        &&& {
            ||| center.lon + d_lon == PI_NRAD && point.lon == -PI_NRAD
            ||| center.lon - d_lon == -PI_NRAD && point.lon == PI_NRAD
        }
    }

    /// The boxes that cover a disc around `center` which reaches `d_lat` in
    /// latitude and `d_lon` in longitude.
    ///
    /// Near a pole the cover is a cap of all longitudes. A reach of half a turn
    /// in longitude gives a band of all longitudes. A disc over the
    /// antimeridian gives two boxes, one on each side of it.
    pub open spec fn cover(center: Point, d_lat: int, d_lon: int) -> BoxPair {
        let south = center.lat - d_lat;
        let north = center.lat + d_lat;
        let west = center.lon - d_lon;
        let east = center.lon + d_lon;
        if !center.valid() || d_lat < 0 || d_lon < 0 {
            (None, None)
        } else if north >= HALF_PI_NRAD {
            (
                Some(
                    SearchBox {
                        lat_from: (if south >= -HALF_PI_NRAD {
                            south
                        } else {
                            -HALF_PI_NRAD as int
                        }) as i64,
                        lat_to: HALF_PI_NRAD,
                        lon_from: (-PI_NRAD) as i64,
                        lon_to: PI_NRAD,
                    },
                ),
                None,
            )
        } else if south <= -HALF_PI_NRAD {
            (
                Some(
                    SearchBox {
                        lat_from: (-HALF_PI_NRAD) as i64,
                        lat_to: north as i64,
                        lon_from: (-PI_NRAD) as i64,
                        lon_to: PI_NRAD,
                    },
                ),
                None,
            )
        } else if d_lon >= PI_NRAD {
            (
                Some(
                    SearchBox {
                        lat_from: south as i64,
                        lat_to: north as i64,
                        lon_from: (-PI_NRAD) as i64,
                        lon_to: PI_NRAD,
                    },
                ),
                None,
            )
        } else if east > PI_NRAD {
            (
                Some(
                    SearchBox {
                        lat_from: south as i64,
                        lat_to: north as i64,
                        lon_from: west as i64,
                        lon_to: PI_NRAD,
                    },
                ),
                Some(
                    SearchBox {
                        lat_from: south as i64,
                        lat_to: north as i64,
                        lon_from: (-PI_NRAD) as i64,
                        lon_to: (east - 2 * PI_NRAD) as i64,
                    },
                ),
            )
        } else if west < -PI_NRAD {
            (
                Some(
                    SearchBox {
                        lat_from: south as i64,
                        lat_to: north as i64,
                        lon_from: (-PI_NRAD) as i64,
                        lon_to: east as i64,
                    },
                ),
                Some(
                    SearchBox {
                        lat_from: south as i64,
                        lat_to: north as i64,
                        lon_from: (west + 2 * PI_NRAD) as i64,
                        lon_to: PI_NRAD,
                    },
                ),
            )
        } else {
            (
                Some(
                    SearchBox {
                        lat_from: south as i64,
                        lat_to: north as i64,
                        lon_from: west as i64,
                        lon_to: east as i64,
                    },
                ),
                None,
            )
        }
    }

    /// `point` lies in the rectangle that runs from the latitude and longitude
    /// of `corner_west` northwards and eastwards to those of `corner_east`. A
    /// rectangle whose east corner lies west of its west corner runs over the
    /// antimeridian. Between corners that are not valid there is no
    /// rectangle.
    pub open spec fn in_query(corner_west: Point, corner_east: Point, point: Point) -> bool {
        &&& corner_west.valid()
        &&& corner_east.valid()
        &&& corner_west.lat <= point.lat <= corner_east.lat
        &&& if corner_east.lon < corner_west.lon {
            (corner_west.lon <= point.lon <= PI_NRAD) || (-PI_NRAD <= point.lon <= corner_east.lon)
        } else {
            corner_west.lon <= point.lon <= corner_east.lon
        }
    }

    /// The boxes of the rectangle between two corners: one, or two where the
    /// rectangle runs over the antimeridian.
    pub open spec fn query_boxes(corner_west: Point, corner_east: Point) -> BoxPair {
        if !corner_west.valid() || !corner_east.valid() {
            (None, None)
        } else if corner_east.lon < corner_west.lon {
            (
                Some(
                    SearchBox {
                        lat_from: corner_west.lat,
                        lat_to: corner_east.lat,
                        lon_from: corner_west.lon,
                        lon_to: PI_NRAD,
                    },
                ),
                Some(
                    SearchBox {
                        lat_from: corner_west.lat,
                        lat_to: corner_east.lat,
                        lon_from: (-PI_NRAD) as i64,
                        lon_to: corner_east.lon,
                    },
                ),
            )
        } else {
            (
                Some(
                    SearchBox {
                        lat_from: corner_west.lat,
                        lat_to: corner_east.lat,
                        lon_from: corner_west.lon,
                        lon_to: corner_east.lon,
                    },
                ),
                None,
            )
        }
    }

    /// The boxes in which to look for the points of the rectangle between the
    /// two corners.
    pub fn construct_searchbox(corner_west: &Point, corner_east: &Point) -> (boxes: BoxPair)
        ensures
            boxes == Self::query_boxes(*corner_west, *corner_east),
    {
        if !corner_west.is_valid() || !corner_east.is_valid() {
            return (None, None);
        }
        if corner_east.lon < corner_west.lon {
            (
                Some(
                    SearchBox {
                        lat_from: corner_west.lat,
                        lat_to: corner_east.lat,
                        lon_from: corner_west.lon,
                        lon_to: PI_NRAD,
                    },
                ),
                Some(
                    SearchBox {
                        lat_from: corner_west.lat,
                        lat_to: corner_east.lat,
                        lon_from: -PI_NRAD,
                        lon_to: corner_east.lon,
                    },
                ),
            )
        } else {
            (
                Some(
                    SearchBox {
                        lat_from: corner_west.lat,
                        lat_to: corner_east.lat,
                        lon_from: corner_west.lon,
                        lon_to: corner_east.lon,
                    },
                ),
                None,
            )
        }
    }

    /// The boxes of a rectangle hold exactly the points of the rectangle, and
    /// no point twice. Their bounds are coordinates of the sphere, and where
    /// the west corner lies no further north than the east corner, each box
    /// is ordered.
    pub proof fn lemma_query_exact(corner_west: Point, corner_east: Point, point: Point)
        ensures
            covers(Self::query_boxes(corner_west, corner_east), point) <==> Self::in_query(
                corner_west,
                corner_east,
                point,
            ),
            apart(Self::query_boxes(corner_west, corner_east)),
            on_sphere(Self::query_boxes(corner_west, corner_east)),
            corner_west.lat <= corner_east.lat ==> well_formed(
                Self::query_boxes(corner_west, corner_east),
            ),
    {
    }

    /// The angle that an arc of length `distance` spans on a sphere of radius
    /// `radius`. Both lengths are in the same unit.
    pub fn angular_radius(distance: u64, radius: u64) -> (d_lat: i64)
        requires
            radius > 0,
        ensures
            d_lat == Self::reach(distance, radius),
            0 <= d_lat <= PI_NRAD,
    {
        assert(distance * NRAD_PER_RAD <= u64::MAX * NRAD_PER_RAD) by (nonlinear_arith);
        let scaled: u128 = distance as u128 * NRAD_PER_RAD as u128 + (radius - 1) as u128;
        let exact: u128 = scaled / radius as u128;
        if exact >= PI_NRAD as u128 {
            PI_NRAD
        } else {
            exact as i64
        }
    }

    /// The boxes in which to look for the points within `distance` of `point`
    /// on a sphere of radius `radius`, where `d_lon` is the widest angle in
    /// longitude between `point` and the rim of that disc.
    pub fn find_box(point: &Point, distance: u64, radius: u64, d_lon: i64) -> (boxes: BoxPair)
        requires
            radius > 0,
        ensures
            boxes == Self::cover(*point, Self::reach(distance, radius), d_lon as int),
    {
        let d_lat: i64 = Self::angular_radius(distance, radius);

        if !point.is_valid() || d_lon < 0 {
            return (None, None);
        }
        // near the north pole: look around the pole

        if point.lat + d_lat >= HALF_PI_NRAD {
            let south: i64 = point.lat - d_lat;
            return (
                Some(
                    SearchBox {
                        lat_from: if south >= -HALF_PI_NRAD {
                            south
                        } else {
                            -HALF_PI_NRAD
                        },
                        lat_to: HALF_PI_NRAD,
                        lon_from: -PI_NRAD,
                        lon_to: PI_NRAD,
                    },
                ),
                None,
            );
        }
        // near the south pole: look around the pole

        if point.lat - d_lat <= -HALF_PI_NRAD {
            let north: i64 = point.lat + d_lat;
            return (
                Some(
                    SearchBox {
                        lat_from: -HALF_PI_NRAD,
                        lat_to: if north <= HALF_PI_NRAD {
                            north
                        } else {
                            HALF_PI_NRAD
                        },
                        lon_from: -PI_NRAD,
                        lon_to: PI_NRAD,
                    },
                ),
                None,
            );
        }
        // the disc goes round the sphere: look at every longitude

        if d_lon >= PI_NRAD {
            return (
                Some(
                    SearchBox {
                        lat_from: point.lat - d_lat,
                        lat_to: point.lat + d_lat,
                        lon_from: -PI_NRAD,
                        lon_to: PI_NRAD,
                    },
                ),
                None,
            );
        }
        // the disc crosses the antimeridian eastwards: look at its far side too

        if point.lon + d_lon > PI_NRAD {
            let delta: i64 = point.lon + d_lon - PI_NRAD;
            let over: i64 = delta - PI_NRAD;
            let west: i64 = point.lon - d_lon;
            return (
                Some(
                    SearchBox {
                        lat_from: point.lat - d_lat,
                        lat_to: point.lat + d_lat,
                        lon_from: west,
                        lon_to: PI_NRAD,
                    },
                ),
                Some(
                    SearchBox {
                        lat_from: point.lat - d_lat,
                        lat_to: point.lat + d_lat,
                        lon_from: -PI_NRAD,
                        lon_to: if over <= west {
                            over
                        } else {
                            west
                        },
                    },
                ),
            );
        }
        // the disc crosses the antimeridian westwards

        if point.lon - d_lon < -PI_NRAD {
            let delta: i64 = d_lon - point.lon - PI_NRAD;
            let over: i64 = PI_NRAD - delta;
            let east: i64 = point.lon + d_lon;
            return (
                Some(
                    SearchBox {
                        lat_from: point.lat - d_lat,
                        lat_to: point.lat + d_lat,
                        lon_from: -PI_NRAD,
                        lon_to: east,
                    },
                ),
                Some(
                    SearchBox {
                        lat_from: point.lat - d_lat,
                        lat_to: point.lat + d_lat,
                        lon_from: if over >= east {
                            over
                        } else {
                            east
                        },
                        lon_to: PI_NRAD,
                    },
                ),
            );
        }
        // in other cases one box is enough

        (
            Some(
                SearchBox {
                    lat_from: point.lat - d_lat,
                    lat_to: point.lat + d_lat,
                    lon_from: point.lon - d_lon,
                    lon_to: point.lon + d_lon,
                },
            ),
            None,
        )
    }

    /// The cover of a disc holds exactly the valid points in reach of its
    /// center, but for those that slip through at the antimeridian, and its
    /// boxes are ordered and apart.
    pub proof fn lemma_cover_exact(center: Point, d_lat: int, d_lon: int, point: Point)
        requires
            point.valid(),
        ensures
            covers(Self::cover(center, d_lat, d_lon), point) <==> Self::in_reach(
                center,
                d_lat,
                d_lon,
                point,
            ) && !Self::seam_slip(center, d_lat, d_lon, point),
            well_formed(Self::cover(center, d_lat, d_lon)),
            on_sphere(Self::cover(center, d_lat, d_lon)),
    {
        let boxes = Self::cover(center, d_lat, d_lon);
        if !center.valid() || d_lat < 0 || d_lon < 0 {
            assert(boxes.0 is None && boxes.1 is None);
        } else if center.lat + d_lat >= HALF_PI_NRAD {
            assert(boxes.0 is Some && boxes.1 is None);
        } else if center.lat - d_lat <= -HALF_PI_NRAD {
            assert(boxes.0 is Some && boxes.1 is None);
        } else if d_lon >= PI_NRAD {
            assert(boxes.0 is Some && boxes.1 is None);
        } else if center.lon + d_lon > PI_NRAD {
            assert(boxes.0 is Some && boxes.1 is Some);
        } else if center.lon - d_lon < -PI_NRAD {
            assert(boxes.0 is Some && boxes.1 is Some);
        } else {
            assert(boxes.0 is Some && boxes.1 is None);
        }
    }
}

} // verus!
