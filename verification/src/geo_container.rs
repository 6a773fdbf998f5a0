use vstd::prelude::*;
use crate::geo_point::Point;
use crate::sphere_helper::{in_rectangle, SphereHelper};
use crate::seq_facts::lemma_filter_none;
use crate::tree_model::ids_of;

verus! {

/// The points of one globe, kept as a plain list.
///
/// For a small number of points a scan of the list answers a query as well as
/// a tree does.
#[derive(Debug)]
pub struct GeoContainer {
    /// The globe that the points belong to.
    globe: u64,
    /// The radius of the globe.
    sphere_radius: u64,
    /// The points of the globe.
    points: Vec<Point>,
}

impl View for GeoContainer {
    type V = Seq<Point>;

    /// The points, in the order in which they were given.
    closed spec fn view(&self) -> Seq<Point> {
        self.points@
    }
}

impl GeoContainer {
    /// The radius of the globe.
    pub closed spec fn radius(&self) -> u64 {
        self.sphere_radius
    }

    /// The globe that the points belong to.
    pub closed spec fn globe_id(&self) -> u64 {
        self.globe
    }

    /// A container of `points` for the globe `globe` of radius `sphere_radius`.
    pub fn new(points: &Vec<Point>, sphere_radius: u64, globe: u64) -> (container: Self)
        ensures
            container@ == points@,
            container.radius() == sphere_radius,
            container.globe_id() == globe,
    {
        let mut data_points: Vec<Point> = Vec::new();
        let mut i: usize = 0;
        while i < points.len()
            invariant
                i <= points.len(),
                data_points@ == points@.take(i as int),
            decreases points.len() - i,
        {
            data_points.push(points[i]);
            i += 1;
            assert(points@.take(i as int) =~= points@.take(i - 1).push(points@[i - 1]));
        }
        assert(points@.take(points.len() as int) =~= points@);
        GeoContainer { globe, sphere_radius, points: data_points }
    }

    /// The globe that the points belong to.
    pub fn globe(&self) -> (globe: u64)
        ensures
            globe == self.globe_id(),
    {
        self.globe
    }

    /// The radius of the globe.
    pub fn sphere_radius(&self) -> (radius: u64)
        ensures
            radius == self.radius(),
    {
        self.sphere_radius
    }

    /// The points, in the order in which they were given.
    pub fn points(&self) -> (points: &Vec<Point>)
        ensures
            points@ == self@,
    {
        &self.points
    }

    /// The identifiers of the points that lie in the rectangle between the
    /// two corners, in the order of the points.
    pub fn search_by_box(&self, corner_west: &Point, corner_east: &Point) -> (ids: Vec<usize>)
        ensures
            ids@ == ids_of(self@.filter(in_rectangle(*corner_west, *corner_east))),
    {
        let (box_0, box_1) = SphereHelper::construct_searchbox(corner_west, corner_east);
        let ghost keep = in_rectangle(*corner_west, *corner_east);

        let mut ids: Vec<usize> = Vec::new();
        let mut i: usize = 0;
        proof {
            assert(self.points@.take(0) =~= Seq::<Point>::empty());
            lemma_filter_none(self.points@.take(0), keep);
            assert(ids@ =~= ids_of(self.points@.take(0).filter(keep)));
        }
        while i < self.points.len()
            invariant
                i <= self.points.len(),
                (box_0, box_1) == SphereHelper::query_boxes(*corner_west, *corner_east),
                keep == in_rectangle(*corner_west, *corner_east),
                ids@ == ids_of(self.points@.take(i as int).filter(keep)),
            decreases self.points.len() - i,
        {
            let candidate: Point = self.points[i];
            let inside = match (box_0, box_1) {
                (Some(target_0), Some(target_1)) => {
                    target_0.is_inside(&candidate) || target_1.is_inside(&candidate)
                },
                (Some(target_0), None) => target_0.is_inside(&candidate),
                _ => false,
            };
            if inside {
                ids.push(candidate.id);
            }
            proof {
                let seen = self.points@.take(i as int);
                Seq::lemma_filter_push(seen, candidate, keep);
                assert(self.points@.take(i + 1) =~= seen.push(candidate));
                SphereHelper::lemma_query_exact(*corner_west, *corner_east, candidate);
                assert(inside == keep(candidate));
                assert(ids@ =~= ids_of(self.points@.take(i + 1).filter(keep)));
            }
            i += 1;
        }
        assert(self.points@.take(self.points.len() as int) =~= self.points@);
        ids
    }
}

} // verus!
