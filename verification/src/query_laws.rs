use vstd::prelude::*;
use vstd::seq_lib::{to_multiset_build, to_multiset_contains};
use crate::build_model::{
    all_indices, all_valid, built, general_position, lemma_built_inside, lemma_built_ordered,
    lemma_built_points, lemma_built_separated, picked,
};
use crate::geo_point::Point;
use crate::kd_tree::KDTree;
use crate::search_box::SearchBox;
use crate::sphere_helper::{in_cover, in_rectangle, within, BoxPair, SphereHelper};
use crate::tree_model::Tree;

verus! {

/// The batch seen from the other hemisphere.
pub open spec fn mirrored_batch(points: Seq<Point>) -> Seq<Point> {
    points.map_values(|point: Point| point.mirrored())
}

/// Every point that a tree on the sphere holds is valid.
proof fn lemma_held_is_valid(tree: Tree, point: Point)
    requires
        tree.on_sphere(),
        tree.points().to_multiset().count(point) > 0,
    ensures
        point.valid(),
{
    to_multiset_contains(tree.points(), point);
    let at = choose|at: int| 0 <= at < tree.points().len() && tree.points()[at] == point;
    assert(SearchBox::whole_sphere().doubled().contains_fine(tree.points()[at]));
}

/// A box query collects exactly the points of the tree that lie in the
/// rectangle between its corners, each as often as the tree holds it,
/// provided that no point lies on a splitter where a traversal turns away
/// from it.
pub proof fn lemma_box_query(tree: Tree, corner_west: Point, corner_east: Point)
    requires
        tree.ordered(),
        tree.on_sphere(),
        tree.fit_for_all(SphereHelper::query_boxes(corner_west, corner_east)),
    ensures
        tree.found_in(SphereHelper::query_boxes(corner_west, corner_east)).to_multiset()
            == tree.points().to_multiset().filter(in_rectangle(corner_west, corner_east)),
{
    broadcast use vstd::multiset::group_multiset_axioms;

    let boxes = SphereHelper::query_boxes(corner_west, corner_east);
    let held = tree.points().to_multiset();
    assert forall|point: Point| #![trigger held.count(point)]
        within(boxes)(point) == in_rectangle(corner_west, corner_east)(point) by {
        SphereHelper::lemma_query_exact(corner_west, corner_east, point);
    }
    SphereHelper::lemma_query_exact(corner_west, corner_east, corner_west);
    tree.lemma_found_in_exact(boxes);
    assert(tree.points().to_multiset().filter(within(boxes)) =~= tree.points().to_multiset().filter(
        in_rectangle(corner_west, corner_east),
    ));
}

/// A box query collects no point outside the rectangle between its corners,
/// and none more often than the tree holds it.
pub proof fn lemma_box_query_sound(tree: Tree, corner_west: Point, corner_east: Point)
    requires
        tree.ordered(),
        tree.on_sphere(),
    ensures
        tree.found_in(SphereHelper::query_boxes(corner_west, corner_east)).to_multiset().subset_of(
            tree.points().to_multiset().filter(in_rectangle(corner_west, corner_east)),
        ),
{
    broadcast use vstd::multiset::group_multiset_axioms;

    let boxes = SphereHelper::query_boxes(corner_west, corner_east);
    let held = tree.points().to_multiset();
    assert forall|point: Point| #![trigger held.count(point)]
        within(boxes)(point) == in_rectangle(corner_west, corner_east)(point) by {
        SphereHelper::lemma_query_exact(corner_west, corner_east, point);
    }
    SphereHelper::lemma_query_exact(corner_west, corner_east, corner_west);
    tree.lemma_found_in_sound(boxes);
    assert(tree.points().to_multiset().filter(within(boxes)) =~= tree.points().to_multiset().filter(
        in_rectangle(corner_west, corner_east),
    ));
}

/// The box stage of a radial query collects exactly the points of the tree
/// that lie in reach of the center, each as often as the tree holds it, but
/// for those that slip through at the antimeridian, and provided that no
/// point lies on a splitter where a traversal turns away from it.
pub proof fn lemma_disc_query(tree: Tree, center: Point, d_lat: int, d_lon: int)
    requires
        tree.ordered(),
        tree.on_sphere(),
        tree.fit_for_all(SphereHelper::cover(center, d_lat, d_lon)),
    ensures
        tree.found_in(SphereHelper::cover(center, d_lat, d_lon)).to_multiset()
            == tree.points().to_multiset().filter(in_cover(center, d_lat, d_lon)),
{
    broadcast use vstd::multiset::group_multiset_axioms;

    let boxes = SphereHelper::cover(center, d_lat, d_lon);
    let held = tree.points().to_multiset();
    assert forall|point: Point| #[trigger] held.count(point) > 0 implies within(boxes)(point)
        == in_cover(center, d_lat, d_lon)(point) by {
        lemma_held_is_valid(tree, point);
        SphereHelper::lemma_cover_exact(center, d_lat, d_lon, point);
    }
    SphereHelper::lemma_cover_exact(center, d_lat, d_lon, Point { id: 0, lat: 0, lon: 0 });
    tree.lemma_found_in_exact(boxes);
    assert(held.filter(within(boxes)) =~= held.filter(in_cover(center, d_lat, d_lon)));
}

/// The box stage of a radial query collects no point out of reach of the
/// center, and none more often than the tree holds it.
pub proof fn lemma_disc_query_sound(tree: Tree, center: Point, d_lat: int, d_lon: int)
    requires
        tree.ordered(),
        tree.on_sphere(),
    ensures
        tree.found_in(SphereHelper::cover(center, d_lat, d_lon)).to_multiset().subset_of(
            tree.points().to_multiset().filter(in_cover(center, d_lat, d_lon)),
        ),
{
    broadcast use vstd::multiset::group_multiset_axioms;

    let boxes = SphereHelper::cover(center, d_lat, d_lon);
    let held = tree.points().to_multiset();
    assert forall|point: Point| #[trigger] held.count(point) > 0 implies within(boxes)(point)
        == in_cover(center, d_lat, d_lon)(point) by {
        lemma_held_is_valid(tree, point);
        SphereHelper::lemma_cover_exact(center, d_lat, d_lon, point);
    }
    SphereHelper::lemma_cover_exact(center, d_lat, d_lon, Point { id: 0, lat: 0, lon: 0 });
    tree.lemma_found_in_sound(boxes);
    assert(held.filter(within(boxes)) =~= held.filter(in_cover(center, d_lat, d_lon)));
}

/// Two trees that were built from one batch answer every query alike.
pub proof fn lemma_rebuild(
    first: KDTree,
    second: KDTree,
    points: Seq<Point>,
    n_stop: nat,
    boxes: BoxPair,
)
    requires
        first@ == built(points, all_indices(points.len()), n_stop),
        second@ == built(points, all_indices(points.len()), n_stop),
    ensures
        first@.found_in(boxes) == second@.found_in(boxes),
{
}

/// A mirrored batch holds the mirror image of a point as often as the batch
/// holds the point.
pub proof fn lemma_mirrored_count(points: Seq<Point>, point: Point)
    requires
        all_valid(points),
        point.valid(),
    ensures
        mirrored_batch(points).to_multiset().count(point.mirrored()) == points.to_multiset().count(
            point,
        ),
    decreases points.len(),
{
    broadcast use vstd::multiset::group_multiset_axioms;
    broadcast use vstd::seq_lib::group_to_multiset_ensures;

    if points.len() == 0 {
        assert(mirrored_batch(points) =~= Seq::<Point>::empty());
        assert(points =~= Seq::<Point>::empty());
        crate::seq_facts::lemma_empty_multiset::<Point>();
    } else {
        let rest = points.drop_last();
        let last = points.last();
        lemma_mirrored_count(rest, point);
        assert(points =~= rest.push(last));
        assert(mirrored_batch(points) =~= mirrored_batch(rest).push(last.mirrored()));
        to_multiset_build(rest, last);
        to_multiset_build(mirrored_batch(rest), last.mirrored());
        assert(last.valid());
        assert((last.mirrored() == point.mirrored()) == (last == point));
    }
}

/// The tree over a batch, and how often the batch holds each point.
proof fn lemma_built_counts(points: Seq<Point>, n_stop: nat)
    requires
        n_stop >= 1,
        1 <= points.len() <= usize::MAX,
        all_valid(points),
    ensures
        built(points, all_indices(points.len()), n_stop).ordered(),
        built(points, all_indices(points.len()), n_stop).on_sphere(),
        built(points, all_indices(points.len()), n_stop).points().to_multiset()
            == points.to_multiset(),
{
    let named = all_indices(points.len());
    lemma_built_ordered(points, named, n_stop);
    lemma_built_inside(points, named, n_stop);
    lemma_built_points(points, named, n_stop);
    assert(picked(points, named) =~= points);
}

/// The tree over a batch in general position is fit for every target.
proof fn lemma_built_fits(points: Seq<Point>, n_stop: nat, boxes: BoxPair)
    requires
        points.len() <= usize::MAX,
        all_valid(points),
        general_position(points),
    ensures
        built(points, all_indices(points.len()), n_stop).fit_for_all(boxes),
{
    let tree = built(points, all_indices(points.len()), n_stop);
    lemma_built_separated(points, all_indices(points.len()), n_stop);
    if let Some(target) = boxes.0 {
        tree.lemma_separated_fits(target);
    }
    if let Some(target) = boxes.1 {
        tree.lemma_separated_fits(target);
    }
}

/// Over a batch in general position a box query collects exactly the points
/// of the batch that lie in the rectangle between its corners, each as often
/// as the batch holds it.
pub proof fn lemma_box_query_of_batch(
    points: Seq<Point>,
    n_stop: nat,
    corner_west: Point,
    corner_east: Point,
)
    requires
        n_stop >= 1,
        1 <= points.len() <= usize::MAX,
        all_valid(points),
        general_position(points),
    ensures
        built(points, all_indices(points.len()), n_stop).found_in(
            SphereHelper::query_boxes(corner_west, corner_east),
        ).to_multiset() == points.to_multiset().filter(in_rectangle(corner_west, corner_east)),
{
    let boxes = SphereHelper::query_boxes(corner_west, corner_east);
    lemma_built_counts(points, n_stop);
    lemma_built_fits(points, n_stop, boxes);
    lemma_box_query(built(points, all_indices(points.len()), n_stop), corner_west, corner_east);
}

/// Over a batch in general position the box stage of a radial query collects
/// exactly the points of the batch that lie in reach of the center, each as
/// often as the batch holds it, but for those that slip through at the
/// antimeridian.
pub proof fn lemma_disc_query_of_batch(
    points: Seq<Point>,
    n_stop: nat,
    center: Point,
    d_lat: int,
    d_lon: int,
)
    requires
        n_stop >= 1,
        1 <= points.len() <= usize::MAX,
        all_valid(points),
        general_position(points),
    ensures
        built(points, all_indices(points.len()), n_stop).found_in(
            SphereHelper::cover(center, d_lat, d_lon),
        ).to_multiset() == points.to_multiset().filter(in_cover(center, d_lat, d_lon)),
{
    let boxes = SphereHelper::cover(center, d_lat, d_lon);
    lemma_built_counts(points, n_stop);
    lemma_built_fits(points, n_stop, boxes);
    lemma_disc_query(built(points, all_indices(points.len()), n_stop), center, d_lat, d_lon);
}

/// Mirroring a batch and the corners of a box query mirrors what the query
/// collects: the tree over the mirrored batch yields the mirror image of a
/// point as often as the tree over the batch yields the point, provided that
/// in neither tree a point lies on a splitter where a traversal turns away
/// from it.
pub proof fn lemma_mirror_box_query(
    points: Seq<Point>,
    n_stop: nat,
    corner_west: Point,
    corner_east: Point,
    point: Point,
)
    requires
        n_stop >= 1,
        1 <= points.len() <= usize::MAX,
        all_valid(points),
        corner_west.valid(),
        corner_east.valid(),
        point.valid(),
        built(points, all_indices(points.len()), n_stop).fit_for_all(
            SphereHelper::query_boxes(corner_west, corner_east),
        ),
        built(mirrored_batch(points), all_indices(points.len()), n_stop).fit_for_all(
            SphereHelper::query_boxes(
                Point { lat: corner_east.mirrored().lat, ..corner_west },
                Point { lat: corner_west.mirrored().lat, ..corner_east },
            ),
        ),
    ensures
        built(mirrored_batch(points), all_indices(points.len()), n_stop).found_in(
            SphereHelper::query_boxes(
                Point { lat: corner_east.mirrored().lat, ..corner_west },
                Point { lat: corner_west.mirrored().lat, ..corner_east },
            ),
        ).to_multiset().count(point.mirrored()) == built(
            points,
            all_indices(points.len()),
            n_stop,
        ).found_in(SphereHelper::query_boxes(corner_west, corner_east)).to_multiset().count(point),
{
    broadcast use vstd::multiset::group_multiset_axioms;

    let north = built(points, all_indices(points.len()), n_stop);
    let south = built(mirrored_batch(points), all_indices(points.len()), n_stop);
    let south_west = Point { lat: corner_east.mirrored().lat, ..corner_west };
    let north_east = Point { lat: corner_west.mirrored().lat, ..corner_east };
    assert(all_valid(mirrored_batch(points))) by {
        assert forall|k: int| 0 <= k < points.len() implies (#[trigger] mirrored_batch(
            points,
        )[k]).valid() by {
            assert(points[k].valid());
        }
    }
    lemma_built_counts(points, n_stop);
    lemma_built_counts(mirrored_batch(points), n_stop);
    lemma_box_query(north, corner_west, corner_east);
    lemma_box_query(south, south_west, north_east);
    lemma_mirrored_count(points, point);
}

/// Mirroring a batch and the center of a radial query mirrors what the box
/// stage of the query collects, provided that in neither tree a point lies on
/// a splitter where a traversal turns away from it.
pub proof fn lemma_mirror_disc_query(
    points: Seq<Point>,
    n_stop: nat,
    center: Point,
    d_lat: int,
    d_lon: int,
    point: Point,
)
    requires
        n_stop >= 1,
        1 <= points.len() <= usize::MAX,
        all_valid(points),
        center.valid(),
        point.valid(),
        built(points, all_indices(points.len()), n_stop).fit_for_all(
            SphereHelper::cover(center, d_lat, d_lon),
        ),
        built(mirrored_batch(points), all_indices(points.len()), n_stop).fit_for_all(
            SphereHelper::cover(center.mirrored(), d_lat, d_lon),
        ),
    ensures
        built(mirrored_batch(points), all_indices(points.len()), n_stop).found_in(
            SphereHelper::cover(center.mirrored(), d_lat, d_lon),
        ).to_multiset().count(point.mirrored()) == built(
            points,
            all_indices(points.len()),
            n_stop,
        ).found_in(SphereHelper::cover(center, d_lat, d_lon)).to_multiset().count(point),
{
    broadcast use vstd::multiset::group_multiset_axioms;

    let north = built(points, all_indices(points.len()), n_stop);
    let south = built(mirrored_batch(points), all_indices(points.len()), n_stop);
    assert(all_valid(mirrored_batch(points))) by {
        assert forall|k: int| 0 <= k < points.len() implies (#[trigger] mirrored_batch(
            points,
        )[k]).valid() by {
            assert(points[k].valid());
        }
    }
    lemma_built_counts(points, n_stop);
    lemma_built_counts(mirrored_batch(points), n_stop);
    lemma_disc_query(north, center, d_lat, d_lon);
    lemma_disc_query(south, center.mirrored(), d_lat, d_lon);
    lemma_mirrored_count(points, point);
    assert(SphereHelper::in_reach(center.mirrored(), d_lat, d_lon, point.mirrored())
        == SphereHelper::in_reach(center, d_lat, d_lon, point));
    assert(SphereHelper::seam_slip(center.mirrored(), d_lat, d_lon, point.mirrored())
        == SphereHelper::seam_slip(center, d_lat, d_lon, point));
}

} // verus!
