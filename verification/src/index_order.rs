use vstd::prelude::*;
use vstd::relations::{sorted_by, total_ordering};
use vstd::seq_lib::{lemma_multiset_commutative, lemma_sorted_unique, to_multiset_build};
use crate::geo_point::Point;

verus! {

/// Every index of `indices` names one of `len` points.
pub open spec fn in_range(indices: Seq<usize>, len: nat) -> bool {
    forall|k: int| 0 <= k < indices.len() ==> (#[trigger] indices[k]) < len
}

/// The order in which the points named by two indices stand along
/// `dimension`: by coordinate, and by index where the coordinates are equal.
pub open spec fn before(points: Seq<Point>, dimension: usize) -> spec_fn(usize, usize) -> bool {
    |a: usize, b: usize|
        {
            let key_a = points[a as int].coordinate(dimension);
            let key_b = points[b as int].coordinate(dimension);
            key_a < key_b || (key_a == key_b && a <= b)
        }
}

/// The indices in the order of their points along `dimension`.
pub open spec fn in_order(points: Seq<Point>, indices: Seq<usize>, dimension: usize) -> Seq<usize> {
    indices.sort_by(before(points, dimension))
}

/// `before` orders all indices in one line.
pub proof fn lemma_before_total(points: Seq<Point>, dimension: usize)
    ensures
        total_ordering(before(points, dimension)),
{
    let leq = before(points, dimension);
    assert forall|x: usize, y: usize| #[trigger] leq(x, y) && #[trigger] leq(y, x) implies x
        == y by {}
    assert forall|x: usize, y: usize, z: usize| #[trigger] leq(x, y) && #[trigger] leq(
        y,
        z,
    ) implies leq(x, z) by {}
    assert forall|x: usize, y: usize| #[trigger] leq(x, y) || #[trigger] leq(y, x) by {}
    assert forall|x: usize| #[trigger] leq(x, x) by {}
}

/// Sorting keeps the indices: as many as before, each of them in range, in
/// ascending order of `before`.
pub proof fn lemma_in_order(points: Seq<Point>, indices: Seq<usize>, dimension: usize)
    ensures
        in_order(points, indices, dimension).len() == indices.len(),
        in_order(points, indices, dimension).to_multiset() == indices.to_multiset(),
        sorted_by(in_order(points, indices, dimension), before(points, dimension)),
        in_range(indices, points.len()) ==> in_range(
            in_order(points, indices, dimension),
            points.len(),
        ),
        forall|k: int|
            0 <= k < indices.len() ==> indices.contains(
                #[trigger] in_order(points, indices, dimension)[k],
            ),
{
    broadcast use vstd::seq_lib::group_to_multiset_ensures;

    let sorted = in_order(points, indices, dimension);
    lemma_before_total(points, dimension);
    indices.lemma_sort_by_ensures(before(points, dimension));
    assert(sorted.to_multiset().len() == sorted.len());
    assert(indices.to_multiset().len() == indices.len());
    assert forall|k: int| 0 <= k < sorted.len() implies indices.contains(#[trigger] sorted[k]) by {
        assert(sorted.contains(sorted[k]));
    }
    if in_range(indices, points.len()) {
        assert forall|k: int| 0 <= k < sorted.len() implies (#[trigger] sorted[k])
            < points.len() by {
            let x = sorted[k];
            assert(indices.contains(x));
            let at = choose|at: int| 0 <= at < indices.len() && indices[at] == x;
            assert(indices[at] < points.len());
        }
    }
}

/// Does the point at `a` stand before the point at `b`?
fn stands_before(points: &Vec<Point>, dimension: usize, a: usize, b: usize) -> (yes: bool)
    requires
        a < points.len(),
        b < points.len(),
    ensures
        yes == before(points@, dimension)(a, b),
{
    let key_a: i64 = points[a].coord(dimension);
    let key_b: i64 = points[b].coord(dimension);
    key_a < key_b || (key_a == key_b && a <= b)
}

/// Merges two ascending runs into one.
fn merge(points: &Vec<Point>, dimension: usize, left: &Vec<usize>, right: &Vec<usize>) -> (merged:
    Vec<usize>)
    requires
        sorted_by(left@, before(points@, dimension)),
        sorted_by(right@, before(points@, dimension)),
        in_range(left@, points@.len()),
        in_range(right@, points@.len()),
    ensures
        sorted_by(merged@, before(points@, dimension)),
        merged@.to_multiset() == (left@ + right@).to_multiset(),
        in_range(merged@, points@.len()),
{
    let ghost leq = before(points@, dimension);
    let mut merged: Vec<usize> = Vec::new();
    let mut i: usize = 0;
    let mut j: usize = 0;
    assert(left@.take(0) =~= Seq::<usize>::empty());
    assert(right@.take(0) =~= Seq::<usize>::empty());
    assert(merged@.to_multiset() =~= left@.take(0).to_multiset().add(
        right@.take(0).to_multiset(),
    )) by {
        broadcast use vstd::seq_lib::group_to_multiset_ensures;
        broadcast use vstd::multiset::group_multiset_axioms;

    }
    while i < left.len() || j < right.len()
        invariant
            leq == before(points@, dimension),
            i <= left.len(),
            j <= right.len(),
            sorted_by(left@, leq),
            sorted_by(right@, leq),
            in_range(left@, points@.len()),
            in_range(right@, points@.len()),
            in_range(merged@, points@.len()),
            sorted_by(merged@, leq),
            merged@.to_multiset() == left@.take(i as int).to_multiset().add(
                right@.take(j as int).to_multiset(),
            ),
            forall|k: int|
                0 <= k < merged@.len() && i < left.len() ==> #[trigger] leq(
                    merged@[k],
                    left@[i as int],
                ),
            forall|k: int|
                0 <= k < merged@.len() && j < right.len() ==> #[trigger] leq(
                    merged@[k],
                    right@[j as int],
                ),
        decreases left.len() - i + right.len() - j,
    {
        let ghost before_push = merged@;
        let from_left = if j == right.len() {
            true
        } else if i == left.len() {
            false
        } else {
            stands_before(points, dimension, left[i], right[j])
        };
        if from_left {
            let x: usize = left[i];
            merged.push(x);
            proof {
                broadcast use vstd::multiset::group_multiset_axioms;

                assert(left@.take(i + 1) =~= left@.take(i as int).push(x));
                to_multiset_build(left@.take(i as int), x);
                to_multiset_build(before_push, x);
                assert(merged@.to_multiset() =~= left@.take(i + 1).to_multiset().add(
                    right@.take(j as int).to_multiset(),
                ));
                assert forall|k: int|
                    0 <= k < merged@.len() && i + 1 < left.len() implies #[trigger] leq(
                    merged@[k],
                    left@[i + 1],
                ) by {
                    assert(leq(left@[i as int], left@[i + 1]));
                    if k < before_push.len() {
                        assert(leq(before_push[k], left@[i as int]));
                    }
                }
                assert forall|k: int|
                    0 <= k < merged@.len() && j < right.len() implies #[trigger] leq(
                    merged@[k],
                    right@[j as int],
                ) by {
                    if k < before_push.len() {
                        assert(leq(before_push[k], right@[j as int]));
                    }
                }
                assert forall|a: int, b: int| 0 <= a < b < merged@.len() implies #[trigger] leq(
                    merged@[a],
                    merged@[b],
                ) by {
                    if b < before_push.len() {
                        assert(leq(before_push[a], before_push[b]));
                    } else {
                        assert(leq(before_push[a], left@[i as int]));
                    }
                }
            }
            i += 1;
        } else {
            let x: usize = right[j];
            merged.push(x);
            proof {
                broadcast use vstd::multiset::group_multiset_axioms;

                assert(right@.take(j + 1) =~= right@.take(j as int).push(x));
                to_multiset_build(right@.take(j as int), x);
                to_multiset_build(before_push, x);
                assert(merged@.to_multiset() =~= left@.take(i as int).to_multiset().add(
                    right@.take(j + 1).to_multiset(),
                ));
                assert forall|k: int|
                    0 <= k < merged@.len() && j + 1 < right.len() implies #[trigger] leq(
                    merged@[k],
                    right@[j + 1],
                ) by {
                    assert(leq(right@[j as int], right@[j + 1]));
                    if k < before_push.len() {
                        assert(leq(before_push[k], right@[j as int]));
                    }
                }
                assert forall|k: int|
                    0 <= k < merged@.len() && i < left.len() implies #[trigger] leq(
                    merged@[k],
                    left@[i as int],
                ) by {
                    if k < before_push.len() {
                        assert(leq(before_push[k], left@[i as int]));
                    }
                }
                assert forall|a: int, b: int| 0 <= a < b < merged@.len() implies #[trigger] leq(
                    merged@[a],
                    merged@[b],
                ) by {
                    if b < before_push.len() {
                        assert(leq(before_push[a], before_push[b]));
                    } else {
                        assert(leq(before_push[a], right@[j as int]));
                    }
                }
            }
            j += 1;
        }
    }
    proof {
        assert(left@.take(left.len() as int) =~= left@);
        assert(right@.take(right.len() as int) =~= right@);
        lemma_multiset_commutative(left@, right@);
    }
    merged
}

/// Sorts by merging sorted halves.
fn merge_sort(points: &Vec<Point>, indices: Vec<usize>, dimension: usize) -> (sorted: Vec<usize>)
    requires
        in_range(indices@, points@.len()),
    ensures
        sorted_by(sorted@, before(points@, dimension)),
        sorted@.to_multiset() == indices@.to_multiset(),
        in_range(sorted@, points@.len()),
    decreases indices.len(),
{
    let n: usize = indices.len();
    if n <= 1 {
        return indices;
    }
    let mut left = indices;
    let right = left.split_off(n / 2);
    proof {
        assert(left@ + right@ =~= indices@);
        lemma_multiset_commutative(left@, right@);
    }
    let left_sorted = merge_sort(points, left, dimension);
    let right_sorted = merge_sort(points, right, dimension);
    proof {
        lemma_multiset_commutative(left_sorted@, right_sorted@);
    }
    merge(points, dimension, &left_sorted, &right_sorted)
}

/// The indices in the order of their points along `dimension`.
pub fn sort_indices(points: &Vec<Point>, indices: Vec<usize>, dimension: usize) -> (sorted: Vec<
    usize,
>)
    requires
        in_range(indices@, points@.len()),
    ensures
        sorted@ == in_order(points@, indices@, dimension),
{
    let sorted = merge_sort(points, indices, dimension);
    proof {
        lemma_before_total(points@, dimension);
        lemma_in_order(points@, indices@, dimension);
        lemma_sorted_unique(
            sorted@,
            in_order(points@, indices@, dimension),
            before(points@, dimension),
        );
    }
    sorted
}

} // verus!
