use vstd::prelude::*;
use vstd::seq_lib::lemma_multiset_commutative;
use crate::geo_point::{Point, LATITUDE, LONGITUDE};
use crate::index_order::{before, in_order, lemma_in_order};
use crate::seq_facts::lemma_map_permutation;
use crate::tree_model::Tree;

verus! {

/// The sum of the values.
pub open spec fn sum(values: Seq<i64>) -> int
    decreases values.len(),
{
    if values.len() == 0 {
        0
    } else {
        sum(values.drop_last()) + values.last()
    }
}

/// The sum of the squares of the values.
pub open spec fn sum_squares(values: Seq<i64>) -> int
    decreases values.len(),
{
    if values.len() == 0 {
        0
    } else {
        sum_squares(values.drop_last()) + values.last() * values.last()
    }
}

/// The variance of the values, times the square of their number: for `n`
/// values `x` it is `n * sum(x * x) - sum(x) * sum(x)`.
pub open spec fn spread(values: Seq<i64>) -> int {
    values.len() * sum_squares(values) - sum(values) * sum(values)
}

/// The points that the indices name, in the order of the indices.
pub open spec fn picked(points: Seq<Point>, indices: Seq<usize>) -> Seq<Point> {
    indices.map_values(|i: usize| points[i as int])
}

/// The coordinates along `dimension` of the points that the indices name.
pub open spec fn coordinates(points: Seq<Point>, indices: Seq<usize>, dimension: usize) -> Seq<
    i64,
> {
    indices.map_values(|i: usize| points[i as int].coordinate(dimension))
}

/// The axis along which the named points vary more; longitude where they
/// vary alike.
pub open spec fn split_axis(points: Seq<Point>, indices: Seq<usize>) -> usize {
    if spread(coordinates(points, indices, LATITUDE)) > spread(
        coordinates(points, indices, LONGITUDE),
    ) {
        LATITUDE
    } else {
        LONGITUDE
    }
}

/// The value half way between two coordinates, counted in half nanoradians.
pub open spec fn midpoint(low: i64, high: i64) -> i64 {
    (low + high) as i64
}

/// The indices `0, 1, ..` of `len` points.
pub open spec fn all_indices(len: nat) -> Seq<usize> {
    Seq::new(len, |k: int| k as usize)
}

/// The tree over the points that `indices` names.
///
/// At most `n_stop` points make a leaf. More are sorted along the axis of
/// their greater variance and split behind the median: the lower half goes
/// left, the upper half right, and the splitter lies half way between the two
/// points around the cut, where it counts in half nanoradians.
pub open spec fn built(points: Seq<Point>, indices: Seq<usize>, n_stop: nat) -> Tree
    decreases indices.len(),
    via built_decreases
{
    if indices.len() <= n_stop || indices.len() < 2 {
        Tree::Leaf { points: picked(points, indices) }
    } else {
        let dimension = split_axis(points, indices);
        let sorted = in_order(points, indices, dimension);
        let median = (indices.len() - 1) / 2;
        Tree::Inner {
            splitter: midpoint(
                points[sorted[median] as int].coordinate(dimension),
                points[sorted[median + 1] as int].coordinate(dimension),
            ),
            dimension,
            left: Box::new(built(points, sorted.subrange(0, median + 1), n_stop)),
            right: Box::new(
                built(points, sorted.subrange(median + 1, indices.len() as int), n_stop),
            ),
        }
    }
}

#[via_fn]
proof fn built_decreases(points: Seq<Point>, indices: Seq<usize>, n_stop: nat) {
    if !(indices.len() <= n_stop || indices.len() < 2) {
        lemma_in_order(points, indices, split_axis(points, indices));
    }
}

/// What holds of every named point holds of every point of the tree.
pub proof fn lemma_built_keeps(
    points: Seq<Point>,
    indices: Seq<usize>,
    n_stop: nat,
    holds: spec_fn(Point) -> bool,
)
    requires
        forall|k: int| 0 <= k < indices.len() ==> holds(points[#[trigger] indices[k] as int]),
    ensures
        forall|k: int|
            0 <= k < built(points, indices, n_stop).points().len() ==> holds(
                #[trigger] built(points, indices, n_stop).points()[k],
            ),
    decreases indices.len(),
{
    let tree = built(points, indices, n_stop);
    if indices.len() <= n_stop || indices.len() < 2 {
        assert forall|k: int| 0 <= k < tree.points().len() implies holds(
            #[trigger] tree.points()[k],
        ) by {
            assert(tree.points()[k] == points[indices[k] as int]);
        }
    } else {
        let dimension = split_axis(points, indices);
        let sorted = in_order(points, indices, dimension);
        let median = (indices.len() - 1) / 2;
        let lower = sorted.subrange(0, median + 1);
        let upper = sorted.subrange(median + 1, indices.len() as int);
        lemma_in_order(points, indices, dimension);
        assert forall|k: int| 0 <= k < sorted.len() implies holds(
            points[#[trigger] sorted[k] as int],
        ) by {
            assert(indices.contains(sorted[k]));
            let at = choose|at: int| 0 <= at < indices.len() && indices[at] == sorted[k];
            assert(holds(points[indices[at] as int]));
        }
        assert forall|k: int| 0 <= k < lower.len() implies holds(
            points[#[trigger] lower[k] as int],
        ) by {
            assert(lower[k] == sorted[k]);
        }
        assert forall|k: int| 0 <= k < upper.len() implies holds(
            points[#[trigger] upper[k] as int],
        ) by {
            assert(upper[k] == sorted[k + median + 1]);
        }
        lemma_built_keeps(points, lower, n_stop, holds);
        lemma_built_keeps(points, upper, n_stop, holds);
        let left = built(points, lower, n_stop).points();
        let right = built(points, upper, n_stop).points();
        assert(tree.points() == left + right);
        assert forall|k: int| 0 <= k < tree.points().len() implies holds(
            #[trigger] tree.points()[k],
        ) by {
            if k < left.len() {
                assert(tree.points()[k] == left[k]);
            } else {
                assert(tree.points()[k] == right[k - left.len()]);
            }
        }
    }
}

/// The tree holds the named points, each as often as it is named.
pub proof fn lemma_built_points(points: Seq<Point>, indices: Seq<usize>, n_stop: nat)
    ensures
        built(points, indices, n_stop).points().to_multiset() == picked(
            points,
            indices,
        ).to_multiset(),
    decreases indices.len(),
{
    if indices.len() <= n_stop || indices.len() < 2 {
    } else {
        let dimension = split_axis(points, indices);
        let sorted = in_order(points, indices, dimension);
        let median = (indices.len() - 1) / 2;
        let lower = sorted.subrange(0, median + 1);
        let upper = sorted.subrange(median + 1, indices.len() as int);
        lemma_in_order(points, indices, dimension);
        lemma_built_points(points, lower, n_stop);
        lemma_built_points(points, upper, n_stop);
        let left = built(points, lower, n_stop).points();
        let right = built(points, upper, n_stop).points();
        lemma_multiset_commutative(left, right);
        lemma_multiset_commutative(picked(points, lower), picked(points, upper));
        assert(picked(points, lower) + picked(points, upper) =~= picked(points, sorted));
        lemma_map_permutation(sorted, indices, |i: usize| points[i as int]);
    }
}

/// The tree splits its points in order, and each of its leaves holds at least
/// one point and at most `n_stop`.
pub proof fn lemma_built_ordered(points: Seq<Point>, indices: Seq<usize>, n_stop: nat)
    requires
        n_stop >= 1,
        indices.len() >= 1,
        forall|k: int| 0 <= k < indices.len() ==> points[#[trigger] indices[k] as int].valid(),
    ensures
        built(points, indices, n_stop).ordered(),
        built(points, indices, n_stop).leaves_within(n_stop),
    decreases indices.len(),
{
    if indices.len() <= n_stop || indices.len() < 2 {
    } else {
        let dimension = split_axis(points, indices);
        let sorted = in_order(points, indices, dimension);
        let median = (indices.len() - 1) / 2;
        let lower = sorted.subrange(0, median + 1);
        let upper = sorted.subrange(median + 1, indices.len() as int);
        let low = points[sorted[median] as int].coordinate(dimension);
        let high = points[sorted[median + 1] as int].coordinate(dimension);
        let splitter = midpoint(low, high);
        let leq = before(points, dimension);
        lemma_in_order(points, indices, dimension);
        lemma_in_order_valid(points, indices, dimension);
        assert(leq(sorted[median], sorted[median + 1]));
        assert(points[sorted[median] as int].valid());
        assert(points[sorted[median + 1] as int].valid());
        assert(2 * low <= splitter <= 2 * high);
        assert forall|k: int| 0 <= k < lower.len() implies points[#[trigger] lower[k] as int].fine(
            dimension,
        ) <= splitter by {
            assert(lower[k] == sorted[k]);
            if k < median {
                assert(leq(sorted[k], sorted[median]));
            }
        }
        assert forall|k: int| 0 <= k < upper.len() implies points[#[trigger] upper[k] as int].fine(
            dimension,
        ) >= splitter by {
            assert(upper[k] == sorted[k + median + 1]);
            if k > 0 {
                assert(leq(sorted[median + 1], sorted[k + median + 1]));
            }
        }
        lemma_built_keeps(points, lower, n_stop, |p: Point| p.fine(dimension) <= splitter);
        lemma_built_keeps(points, upper, n_stop, |p: Point| p.fine(dimension) >= splitter);
        assert forall|k: int| 0 <= k < lower.len() implies points[#[trigger] lower[k] as int].valid() by {
            assert(lower[k] == sorted[k]);
        }
        assert forall|k: int| 0 <= k < upper.len() implies points[#[trigger] upper[k] as int].valid() by {
            assert(upper[k] == sorted[k + median + 1]);
        }
        lemma_built_ordered(points, lower, n_stop);
        lemma_built_ordered(points, upper, n_stop);
    }
}

/// No two of the named points share their coordinate along `dimension`.
pub open spec fn distinct_along(points: Seq<Point>, indices: Seq<usize>, dimension: usize) -> bool {
    forall|j: int, k: int|
        0 <= j < k < indices.len() ==> points[#[trigger] indices[j] as int].coordinate(dimension)
            != points[#[trigger] indices[k] as int].coordinate(dimension)
}

/// Every point of `points` is valid.
pub open spec fn all_valid(points: Seq<Point>) -> bool {
    forall|k: int| 0 <= k < points.len() ==> (#[trigger] points[k]).valid()
}

/// No two points of the batch share a latitude, and no two a longitude.
pub open spec fn general_position(points: Seq<Point>) -> bool {
    &&& distinct_along(points, all_indices(points.len()), LATITUDE)
    &&& distinct_along(points, all_indices(points.len()), LONGITUDE)
}

/// Sorting keeps the named points valid.
proof fn lemma_in_order_valid(points: Seq<Point>, indices: Seq<usize>, dimension: usize)
    requires
        forall|k: int| 0 <= k < indices.len() ==> points[#[trigger] indices[k] as int].valid(),
    ensures
        forall|k: int|
            0 <= k < indices.len() ==> points[#[trigger] in_order(
                points,
                indices,
                dimension,
            )[k] as int].valid(),
{
    let sorted = in_order(points, indices, dimension);
    lemma_in_order(points, indices, dimension);
    assert forall|k: int| 0 <= k < indices.len() implies points[#[trigger] sorted[k] as int].valid() by {
        assert(indices.contains(sorted[k]));
        let at = choose|at: int| 0 <= at < indices.len() && indices[at] == sorted[k];
        assert(points[indices[at] as int].valid());
    }
}

/// Sorting keeps the named points apart.
proof fn lemma_in_order_distinct(
    points: Seq<Point>,
    indices: Seq<usize>,
    dimension: usize,
    along: usize,
)
    requires
        distinct_along(points, indices, along),
    ensures
        distinct_along(points, in_order(points, indices, dimension), along),
{
    broadcast use vstd::seq_lib::group_to_multiset_ensures;

    let sorted = in_order(points, indices, dimension);
    lemma_in_order(points, indices, dimension);
    assert(indices.no_duplicates()) by {
        assert forall|j: int, k: int|
            0 <= j < indices.len() && 0 <= k < indices.len() && j != k implies indices[j]
            != indices[k] by {
            if j < k {
                assert(points[indices[j] as int].coordinate(along) != points[indices[k] as int].coordinate(
                    along,
                ));
            } else {
                assert(points[indices[k] as int].coordinate(along) != points[indices[j] as int].coordinate(
                    along,
                ));
            }
        }
    }
    indices.lemma_multiset_has_no_duplicates();
    sorted.lemma_multiset_has_no_duplicates_conv();
    assert forall|j: int, k: int| 0 <= j < k < sorted.len() implies points[#[trigger] sorted[j] as int].coordinate(
        along,
    ) != points[#[trigger] sorted[k] as int].coordinate(along) by {
        assert(indices.contains(sorted[j]));
        assert(indices.contains(sorted[k]));
        let a = choose|a: int| 0 <= a < indices.len() && indices[a] == sorted[j];
        let b = choose|b: int| 0 <= b < indices.len() && indices[b] == sorted[k];
        assert(sorted[j] != sorted[k]);
        if a < b {
            assert(points[indices[a] as int].coordinate(along) != points[indices[b] as int].coordinate(
                along,
            ));
        } else {
            assert(points[indices[b] as int].coordinate(along) != points[indices[a] as int].coordinate(
                along,
            ));
        }
    }
}

/// Where no two of the named points share a latitude or a longitude, every
/// split of the tree lies strictly between the points on its two sides.
pub proof fn lemma_built_separated(points: Seq<Point>, indices: Seq<usize>, n_stop: nat)
    requires
        distinct_along(points, indices, LATITUDE),
        distinct_along(points, indices, LONGITUDE),
        forall|k: int| 0 <= k < indices.len() ==> points[#[trigger] indices[k] as int].valid(),
    ensures
        built(points, indices, n_stop).separated(),
    decreases indices.len(),
{
    if indices.len() <= n_stop || indices.len() < 2 {
    } else {
        let dimension = split_axis(points, indices);
        let sorted = in_order(points, indices, dimension);
        let median = (indices.len() - 1) / 2;
        let lower = sorted.subrange(0, median + 1);
        let upper = sorted.subrange(median + 1, indices.len() as int);
        let low = points[sorted[median] as int].coordinate(dimension);
        let high = points[sorted[median + 1] as int].coordinate(dimension);
        let splitter = midpoint(low, high);
        let leq = before(points, dimension);
        lemma_in_order(points, indices, dimension);
        lemma_in_order_distinct(points, indices, dimension, LATITUDE);
        lemma_in_order_distinct(points, indices, dimension, LONGITUDE);
        lemma_in_order_valid(points, indices, dimension);
        assert(leq(sorted[median], sorted[median + 1]));
        assert(points[sorted[median] as int].valid());
        assert(points[sorted[median + 1] as int].valid());
        assert(low != high);
        assert(2 * low < splitter < 2 * high);
        assert forall|k: int| 0 <= k < lower.len() implies points[#[trigger] lower[k] as int].fine(
            dimension,
        ) < splitter by {
            assert(lower[k] == sorted[k]);
            if k < median {
                assert(leq(sorted[k], sorted[median]));
            }
        }
        assert forall|k: int| 0 <= k < upper.len() implies points[#[trigger] upper[k] as int].fine(
            dimension,
        ) > splitter by {
            assert(upper[k] == sorted[k + median + 1]);
            if k > 0 {
                assert(leq(sorted[median + 1], sorted[k + median + 1]));
            }
        }
        lemma_built_keeps(points, lower, n_stop, |p: Point| p.fine(dimension) < splitter);
        lemma_built_keeps(points, upper, n_stop, |p: Point| p.fine(dimension) > splitter);
        assert forall|along: usize| along == LATITUDE || along == LONGITUDE implies distinct_along(
            points,
            lower,
            along,
        ) && distinct_along(points, upper, along) by {
            assert forall|j: int, k: int| 0 <= j < k < lower.len() implies points[#[trigger] lower[j] as int].coordinate(
                along,
            ) != points[#[trigger] lower[k] as int].coordinate(along) by {
                assert(lower[j] == sorted[j] && lower[k] == sorted[k]);
            }
            assert forall|j: int, k: int| 0 <= j < k < upper.len() implies points[#[trigger] upper[j] as int].coordinate(
                along,
            ) != points[#[trigger] upper[k] as int].coordinate(along) by {
                assert(upper[j] == sorted[j + median + 1] && upper[k] == sorted[k + median + 1]);
            }
        }
        assert forall|k: int| 0 <= k < lower.len() implies points[#[trigger] lower[k] as int].valid() by {
            assert(lower[k] == sorted[k]);
        }
        assert forall|k: int| 0 <= k < upper.len() implies points[#[trigger] upper[k] as int].valid() by {
            assert(upper[k] == sorted[k + median + 1]);
        }
        lemma_built_separated(points, lower, n_stop);
        lemma_built_separated(points, upper, n_stop);
    }
}

/// A tree over valid points lies on the sphere.
pub proof fn lemma_built_inside(points: Seq<Point>, indices: Seq<usize>, n_stop: nat)
    requires
        forall|k: int| 0 <= k < indices.len() ==> points[#[trigger] indices[k] as int].valid(),
    ensures
        built(points, indices, n_stop).on_sphere(),
{
    lemma_built_keeps(points, indices, n_stop, |p: Point| p.valid());
}

} // verus!
