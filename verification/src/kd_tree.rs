use vstd::prelude::*;
use crate::build_model::{
    all_indices, built, coordinates, general_position, lemma_built_inside, lemma_built_ordered,
    lemma_built_points, lemma_built_separated, midpoint, picked, split_axis, spread, sum,
    sum_squares,
};
use crate::geo_point::{Point, LATITUDE, LONGITUDE, PI_NRAD};
use crate::index_order::{before, in_range, lemma_in_order, sort_indices};
use crate::search_box::SearchBox;
use crate::query_laws::{
    lemma_box_query, lemma_box_query_sound, lemma_disc_query, lemma_disc_query_sound,
};
use crate::sphere_helper::{in_cover, in_rectangle, BoxPair, SphereHelper};
use crate::seq_facts::lemma_filter_none;
use crate::tree_model::{ids_of, Tree};

verus! {

/// The most points that one tree takes: with no more than these, the sums
/// behind the choice of an axis are exact.
pub const MAX_POINTS: usize = 0x7fff_ffff;

/// Why a batch of points makes no tree.
#[derive(Debug, Clone, Copy, PartialEq, Eq)]
pub enum InvalidInput {
    /// There is no point.
    NoPoints,
    /// A leaf may hold no point at all.
    ZeroLeafSize,
    /// The sphere has no radius.
    ZeroRadius,
    /// A latitude or a longitude lies outside the sphere's coordinates.
    CoordinateOutOfRange,
}

/// One node of the tree: an inner node that splits its points in two, or a
/// leaf that holds points.
#[derive(Debug)]
enum KDTreeNode {
    Node {
        /// The value at which the points were split, in half nanoradians.
        splitter: i64,
        /// The axis of the split: `0` for latitude, else longitude.
        dimension: usize,
        /// Where the left child stands among the nodes.
        left_child: usize,
        /// Where the right child stands among the nodes.
        right_child: usize,
    },
    Leaf { points: Vec<Point> },
}

/// A k-d tree over points of a sphere, built once and then only read.
///
/// The nodes stand in one vector, each child before its parent, so that the
/// root is the last node.
#[derive(Debug)]
pub struct KDTree {
    root: usize,
    nodes: Vec<KDTreeNode>,
    sphere_radius: u64,
}

/// Every inner node names two different nodes that stand before it.
spec fn arena_wf(nodes: Seq<KDTreeNode>) -> bool {
    forall|i: int|
        0 <= i < nodes.len() ==> match #[trigger] nodes[i] {
            KDTreeNode::Node { left_child, right_child, .. } => left_child < i && right_child < i
                && left_child != right_child,
            KDTreeNode::Leaf { .. } => true,
        }
}

/// The tree below the node at `index`.
spec fn tree_at(nodes: Seq<KDTreeNode>, index: int) -> Tree
    decreases index,
{
    if 0 <= index < nodes.len() {
        match nodes[index] {
            KDTreeNode::Leaf { points } => Tree::Leaf { points: points@ },
            KDTreeNode::Node { splitter, dimension, left_child, right_child } => {
                if left_child < index && right_child < index {
                    Tree::Inner {
                        splitter,
                        dimension,
                        left: Box::new(tree_at(nodes, left_child as int)),
                        right: Box::new(tree_at(nodes, right_child as int)),
                    }
                } else {
                    Tree::Leaf { points: Seq::empty() }
                }
            },
        }
    } else {
        Tree::Leaf { points: Seq::empty() }
    }
}

/// `after` holds the nodes of `before`, unchanged, and perhaps more behind them.
spec fn extends(before: Seq<KDTreeNode>, after: Seq<KDTreeNode>) -> bool {
    &&& before.len() <= after.len()
    &&& forall|i: int| 0 <= i < before.len() ==> #[trigger] after[i] == before[i]
}

/// Nodes that come later leave the tree below an earlier node as it is.
proof fn lemma_tree_at_stable(before: Seq<KDTreeNode>, after: Seq<KDTreeNode>, index: int)
    requires
        extends(before, after),
        0 <= index < before.len(),
    ensures
        tree_at(after, index) == tree_at(before, index),
    decreases index,
{
    assert(after[index] == before[index]);
    match before[index] {
        KDTreeNode::Leaf { .. } => {},
        KDTreeNode::Node { left_child, right_child, .. } => {
            if left_child < index && right_child < index {
                lemma_tree_at_stable(before, after, left_child as int);
                lemma_tree_at_stable(before, after, right_child as int);
            }
        },
    }
}

/// The points that `indices` names.
fn pick_points(points: &Vec<Point>, indices: &Vec<usize>) -> (chosen: Vec<Point>)
    requires
        in_range(indices@, points@.len()),
    ensures
        chosen@ == picked(points@, indices@),
{
    let mut chosen: Vec<Point> = Vec::new();
    let mut i: usize = 0;
    while i < indices.len()
        invariant
            i <= indices.len(),
            in_range(indices@, points@.len()),
            chosen@ == picked(points@, indices@.take(i as int)),
        decreases indices.len() - i,
    {
        chosen.push(points[indices[i]]);
        i += 1;
        assert(chosen@ =~= picked(points@, indices@.take(i as int)));
    }
    assert(indices@.take(indices.len() as int) =~= indices@);
    chosen
}

/// The coordinates along `dimension` of the points that `indices` names.
fn coordinates_of(points: &Vec<Point>, indices: &Vec<usize>, dimension: usize) -> (values: Vec<
    i64,
>)
    requires
        in_range(indices@, points@.len()),
    ensures
        values@ == coordinates(points@, indices@, dimension),
{
    let mut values: Vec<i64> = Vec::new();
    let mut i: usize = 0;
    while i < indices.len()
        invariant
            i <= indices.len(),
            in_range(indices@, points@.len()),
            values@ == coordinates(points@, indices@.take(i as int), dimension),
        decreases indices.len() - i,
    {
        values.push(points[indices[i]].coord(dimension));
        i += 1;
        assert(values@ =~= coordinates(points@, indices@.take(i as int), dimension));
    }
    assert(indices@.take(indices.len() as int) =~= indices@);
    values
}

/// The identifiers of `points`.
fn ids_from(points: &Vec<Point>) -> (ids: Vec<usize>)
    ensures
        ids@ == ids_of(points@),
{
    let mut ids: Vec<usize> = Vec::new();
    let mut i: usize = 0;
    while i < points.len()
        invariant
            i <= points.len(),
            ids@ == ids_of(points@.take(i as int)),
        decreases points.len() - i,
    {
        ids.push(points[i].id);
        i += 1;
        assert(ids@ =~= ids_of(points@.take(i as int)));
    }
    assert(points@.take(points.len() as int) =~= points@);
    ids
}

/// A copy of `points`.
fn copy_points(points: &Vec<Point>) -> (copy: Vec<Point>)
    ensures
        copy@ == points@,
{
    let mut copy: Vec<Point> = Vec::new();
    let mut i: usize = 0;
    while i < points.len()
        invariant
            i <= points.len(),
            copy@ == points@.take(i as int),
        decreases points.len() - i,
    {
        copy.push(points[i]);
        i += 1;
        assert(points@.take(i as int) =~= points@.take(i - 1).push(points@[i - 1]));
    }
    assert(points@.take(points.len() as int) =~= points@);
    copy
}

/// The points of `points` that lie in `target`, which counts in half
/// nanoradians, in their order.
fn points_inside(points: &Vec<Point>, target: &SearchBox) -> (kept: Vec<Point>)
    ensures
        kept@ == points@.filter(target.holds_fine()),
{
    let mut kept: Vec<Point> = Vec::new();
    let mut i: usize = 0;
    assert(points@.take(0) =~= Seq::<Point>::empty());
    proof {
        lemma_filter_none(points@.take(0), target.holds_fine());
    }
    while i < points.len()
        invariant
            i <= points.len(),
            kept@ == points@.take(i as int).filter(target.holds_fine()),
        decreases points.len() - i,
    {
        if target.is_inside_fine(&points[i]) {
            kept.push(points[i]);
        }
        proof {
            Seq::lemma_filter_push(points@.take(i as int), points@[i as int], target.holds_fine());
            assert(points@.take(i + 1) =~= points@.take(i as int).push(points@[i as int]));
        }
        i += 1;
    }
    assert(points@.take(points.len() as int) =~= points@);
    kept
}

impl View for KDTree {
    type V = Tree;

    /// The tree below the root.
    closed spec fn view(&self) -> Tree {
        tree_at(self.nodes@, self.root as int)
    }
}

impl KDTree {
    /// The stored nodes describe a tree: the root is one of them, and every
    /// child stands before its parent.
    pub closed spec fn stored(&self) -> bool {
        &&& arena_wf(self.nodes@)
        &&& self.root < self.nodes.len()
    }

    /// The radius of the sphere that the points lie on.
    pub closed spec fn radius(&self) -> u64 {
        self.sphere_radius
    }

    /// The tree is stored soundly, splits its points in order, holds valid
    /// points only, and lies on a sphere of positive radius.
    pub open spec fn wf(&self) -> bool {
        &&& self.stored()
        &&& self@.ordered()
        &&& self@.on_sphere()
        &&& self.radius() > 0
    }

    /// Every tree is well-formed.
    #[verifier::type_invariant]
    spec fn inv(&self) -> bool {
        self.wf()
    }

    /// The first fault of a batch, if it has one.
    pub open spec fn fault(points: Seq<Point>, n_stop: usize, sphere_radius: u64) -> Option<
        InvalidInput,
    > {
        if points.len() == 0 {
            Some(InvalidInput::NoPoints)
        } else if n_stop == 0 {
            Some(InvalidInput::ZeroLeafSize)
        } else if sphere_radius == 0 {
            Some(InvalidInput::ZeroRadius)
        } else if exists|k: int| 0 <= k < points.len() && !(#[trigger] points[k]).valid() {
            Some(InvalidInput::CoordinateOutOfRange)
        } else {
            None
        }
    }

    /// Builds the tree over `points`, with leaves of at most `n_stop` points,
    /// on a sphere of radius `sphere_radius`.
    pub fn new(points: &Vec<Point>, n_stop: usize, sphere_radius: u64) -> (made: Result<
        Self,
        InvalidInput,
    >)
        requires
            points.len() <= MAX_POINTS,
        ensures
            match made {
                Ok(tree) => {
                    &&& Self::fault(points@, n_stop, sphere_radius) is None
                    &&& tree.wf()
                    &&& tree.radius() == sphere_radius
                    &&& tree@ == built(points@, all_indices(points@.len()), n_stop as nat)
                    &&& tree@.leaves_within(n_stop as nat)
                    &&& tree@.points().to_multiset() == points@.to_multiset()
                    &&& general_position(points@) ==> tree@.separated()
                },
                Err(reason) => Self::fault(points@, n_stop, sphere_radius) == Some(reason),
            },
    {
        if points.len() == 0 {
            return Err(InvalidInput::NoPoints);
        }
        if n_stop == 0 {
            return Err(InvalidInput::ZeroLeafSize);
        }
        if sphere_radius == 0 {
            return Err(InvalidInput::ZeroRadius);
        }
        let mut indices: Vec<usize> = Vec::new();
        let mut i: usize = 0;
        while i < points.len()
            invariant
                i <= points.len(),
                n_stop != 0,
                sphere_radius != 0,
                indices@ == all_indices(i as nat),
                forall|k: int| 0 <= k < i ==> (#[trigger] points@[k]).valid(),
            decreases points.len() - i,
        {
            if !points[i].is_valid() {
                assert(!points@[i as int].valid());
                return Err(InvalidInput::CoordinateOutOfRange);
            }
            indices.push(i);
            i += 1;
            assert(indices@ =~= all_indices(i as nat));
        }

        let mut nodes: Vec<KDTreeNode> = Vec::new();
        let idx = Self::build(&mut nodes, indices, points, n_stop);
        proof {
            let named = all_indices(points@.len());
            lemma_built_ordered(points@, named, n_stop as nat);
            lemma_built_inside(points@, named, n_stop as nat);
            lemma_built_points(points@, named, n_stop as nat);
            assert(picked(points@, named) =~= points@);
            if general_position(points@) {
                lemma_built_separated(points@, named, n_stop as nat);
            }
        }
        Ok(KDTree { root: idx, nodes, sphere_radius })
    }

    /// The boxes in which a radial query looks for its candidates.
    pub open spec fn disc_boxes(&self, center: Point, distance: u64, d_lon: i64) -> BoxPair {
        SphereHelper::cover(center, SphereHelper::reach(distance, self.radius()), d_lon as int)
    }

    /// The radius of the sphere that the points lie on.
    pub fn sphere_radius(&self) -> (radius: u64)
        ensures
            self.wf(),
            radius == self.radius(),
            radius > 0,
    {
        proof {
            use_type_invariant(self);
        }
        self.sphere_radius
    }

    /// Where the root splits its points, in half nanoradians, and along which
    /// axis; nothing for a tree of one leaf.
    pub fn root_split(&self) -> (split: Option<(i64, usize)>)
        ensures
            self.wf(),
            split == self@.split(),
    {
        proof {
            use_type_invariant(self);
        }
        match &self.nodes[self.root] {
            KDTreeNode::Node { splitter, dimension, left_child: _, right_child: _ } => Some(
                (*splitter, *dimension),
            ),
            KDTreeNode::Leaf { points: _ } => None,
        }
    }

    /// The number of points in each leaf, from left to right.
    pub fn leaf_sizes(&self) -> (sizes: Vec<usize>)
        ensures
            self.wf(),
            sizes@ == self@.leaf_sizes(),
    {
        proof {
            use_type_invariant(self);
        }
        self.sizes_below(self.root)
    }

    /// The number of points in each leaf below the node at `node_idx`.
    fn sizes_below(&self, node_idx: usize) -> (sizes: Vec<usize>)
        requires
            arena_wf(self.nodes@),
            node_idx < self.nodes.len(),
        ensures
            sizes@ == tree_at(self.nodes@, node_idx as int).leaf_sizes(),
        decreases node_idx,
    {
        match &self.nodes[node_idx] {
            KDTreeNode::Node { splitter: _, dimension: _, left_child, right_child } => {
                let mut sizes = self.sizes_below(*left_child);
                let mut right = self.sizes_below(*right_child);
                sizes.append(&mut right);
                sizes
            },
            KDTreeNode::Leaf { points } => {
                let mut sizes: Vec<usize> = Vec::new();
                sizes.push(points.len());
                assert(sizes@ =~= seq![points@.len() as usize]);
                sizes
            },
        }
    }

    /// The points of the tree that lie in one of the boxes which cover the
    /// disc of radius `distance` around `point`, where `d_lon` is the widest
    /// angle in longitude between `point` and the rim of that disc.
    ///
    /// These are the candidates of a radial query. The caller keeps those
    /// that lie no further than `distance` from `point`.
    pub fn search_by_distance(&self, point: &Point, distance: u64, d_lon: i64) -> (candidates: Vec<
        Point,
    >)
        ensures
            self.wf(),
            candidates@ == self@.found_in(self.disc_boxes(*point, distance, d_lon)),
            candidates@.to_multiset().subset_of(
                self@.points().to_multiset().filter(
                    in_cover(*point, SphereHelper::reach(distance, self.radius()), d_lon as int),
                ),
            ),
            self@.fit_for_all(self.disc_boxes(*point, distance, d_lon))
                ==> candidates@.to_multiset() == self@.points().to_multiset().filter(
                in_cover(*point, SphereHelper::reach(distance, self.radius()), d_lon as int),
            ),
    {
        proof {
            use_type_invariant(self);
            let d_lat = SphereHelper::reach(distance, self.radius());
            lemma_disc_query_sound(self@, *point, d_lat, d_lon as int);
            if self@.fit_for_all(self.disc_boxes(*point, distance, d_lon)) {
                lemma_disc_query(self@, *point, d_lat, d_lon as int);
            }
        }
        let (box_0, box_1) = SphereHelper::find_box(point, distance, self.sphere_radius, d_lon);
        let initial_box = SearchBox::world().double();
        proof {
            SphereHelper::lemma_cover_exact(
                *point,
                SphereHelper::reach(distance, self.radius()),
                d_lon as int,
                Point { id: 0, lat: 0, lon: 0 },
            );
        }

        let mut candidates: Vec<Point> = Vec::new();

        if let Some(target) = box_0 {
            let mut found = self.search(self.root, &initial_box, &target.double());
            candidates.append(&mut found);
        }
        if let Some(target) = box_1 {
            let mut found = self.search(self.root, &initial_box, &target.double());
            candidates.append(&mut found);
        }
        candidates
    }

    /// The identifiers of the points of the tree that lie in the rectangle
    /// between the two corners.
    pub fn search_by_box(&self, corner_west: &Point, corner_east: &Point) -> (ids: Vec<usize>)
        ensures
            self.wf(),
            ids@ == ids_of(self@.found_in(SphereHelper::query_boxes(*corner_west, *corner_east))),
            self@.found_in(
                SphereHelper::query_boxes(*corner_west, *corner_east),
            ).to_multiset().subset_of(
                self@.points().to_multiset().filter(in_rectangle(*corner_west, *corner_east)),
            ),
            self@.fit_for_all(SphereHelper::query_boxes(*corner_west, *corner_east)) ==> self@.found_in(
                SphereHelper::query_boxes(*corner_west, *corner_east),
            ).to_multiset() == self@.points().to_multiset().filter(
                in_rectangle(*corner_west, *corner_east),
            ),
    {
        proof {
            use_type_invariant(self);
            lemma_box_query_sound(self@, *corner_west, *corner_east);
            if self@.fit_for_all(SphereHelper::query_boxes(*corner_west, *corner_east)) {
                lemma_box_query(self@, *corner_west, *corner_east);
            }
        }
        let (box_0, box_1) = SphereHelper::construct_searchbox(corner_west, corner_east);
        let initial_box = SearchBox::world().double();
        proof {
            SphereHelper::lemma_query_exact(*corner_west, *corner_east, *corner_west);
        }

        let mut results: Vec<Point> = Vec::new();

        if let Some(target) = box_0 {
            let mut found = self.search(self.root, &initial_box, &target.double());
            results.append(&mut found);
        }
        if let Some(target) = box_1 {
            let mut found = self.search(self.root, &initial_box, &target.double());
            results.append(&mut found);
        }
        ids_from(&results)
    }

    /// Appends to `nodes` the tree over the points that `indices` names, and
    /// returns where its root stands.
    fn build(nodes: &mut Vec<KDTreeNode>, indices: Vec<usize>, points: &Vec<Point>, n_stop: usize) -> (idx:
        usize)
        requires
            arena_wf(old(nodes)@),
            n_stop >= 1,
            1 <= indices.len() <= MAX_POINTS,
            in_range(indices@, points@.len()),
            forall|k: int| 0 <= k < points.len() ==> (#[trigger] points@[k]).valid(),
        ensures
            arena_wf(final(nodes)@),
            extends(old(nodes)@, final(nodes)@),
            old(nodes)@.len() < final(nodes)@.len(),
            idx == final(nodes)@.len() - 1,
            tree_at(final(nodes)@, idx as int) == built(points@, indices@, n_stop as nat),
        decreases indices.len(),
    {
        // few enough points make a leaf
        if indices.len() <= n_stop {
            let idx: usize = nodes.len();
            nodes.push(KDTreeNode::Leaf { points: pick_points(points, &indices) });
            return idx;
        }
        // find the axis of the split and lay the points out along it

        let dimension: usize = Self::choose_dimension(points, &indices);
        let ghost given = indices@;
        let mut sorted = sort_indices(points, indices, dimension);
        let ghost ordered = sorted@;
        proof {
            lemma_in_order(points@, given, dimension);
        }

        // cut behind the median, and split half way to the next point
        let median_index: usize = (sorted.len() - 1) / 2;
        let low: i64 = points[sorted[median_index]].coord(dimension);
        let high: i64 = points[sorted[median_index + 1]].coord(dimension);
        assert(before(points@, dimension)(ordered[median_index as int], ordered[median_index + 1]));
        let split_value: i64 = low + high;

        let upper = sorted.split_off(median_index + 1);
        let ghost start = nodes@;
        let left_child: usize = Self::build(nodes, sorted, points, n_stop);
        let ghost with_left = nodes@;
        let right_child: usize = Self::build(nodes, upper, points, n_stop);
        let ghost with_right = nodes@;

        let idx: usize = nodes.len();
        nodes.push(
            KDTreeNode::Node { splitter: split_value, dimension, left_child, right_child },
        );
        proof {
            lemma_tree_at_stable(with_left, with_right, left_child as int);
            lemma_tree_at_stable(with_right, nodes@, left_child as int);
            lemma_tree_at_stable(with_right, nodes@, right_child as int);
            assert(split_value == midpoint(low, high));
        }
        idx
    }

    /// The axis along which the named points vary more; longitude where they
    /// vary alike.
    pub fn choose_dimension(points: &Vec<Point>, indices: &Vec<usize>) -> (dimension: usize)
        requires
            indices.len() <= MAX_POINTS,
            in_range(indices@, points@.len()),
            forall|k: int| 0 <= k < points.len() ==> (#[trigger] points@[k]).valid(),
        ensures
            dimension == split_axis(points@, indices@),
    {
        let x_values = coordinates_of(points, indices, LATITUDE);
        let y_values = coordinates_of(points, indices, LONGITUDE);

        if Self::calculate_variance(&x_values) > Self::calculate_variance(&y_values) {
            LATITUDE
        } else {
            LONGITUDE
        }
    }

    /// The variance of the values, times the square of their number.
    pub fn calculate_variance(values: &Vec<i64>) -> (variance: i128)
        requires
            values.len() <= MAX_POINTS,
            forall|k: int| 0 <= k < values.len() ==> -PI_NRAD <= #[trigger] values@[k] <= PI_NRAD,
        ensures
            variance == spread(values@),
    {
        let n: usize = values.len();
        let mut total: i128 = 0;
        let mut squares: i128 = 0;
        let mut i: usize = 0;
        assert(values@.take(0) =~= Seq::<i64>::empty());
        while i < n
            invariant
                n == values.len(),
                n <= MAX_POINTS,
                i <= n,
                forall|k: int|
                    0 <= k < values.len() ==> -PI_NRAD <= #[trigger] values@[k] <= PI_NRAD,
                total == sum(values@.take(i as int)),
                squares == sum_squares(values@.take(i as int)),
                -(i * 3_141_592_654) <= total <= i * 3_141_592_654,
                0 <= squares <= i * 9_869_604_403_666_763_716,
            decreases n - i,
        {
            let v: i128 = values[i] as i128;
            proof {
                assert(values@.take(i + 1).drop_last() =~= values@.take(i as int));
                assert(values@.take(i + 1).last() == values@[i as int]);
                assert(0 <= v * v <= 9_869_604_403_666_763_716) by (nonlinear_arith)
                    requires
                        -3_141_592_654 <= v <= 3_141_592_654,
                ;
            }
            total = total + v;
            squares = squares + v * v;
            i += 1;
        }
        proof {
            assert(values@.take(n as int) =~= values@);
            assert(0 <= n * squares <= 0x7fff_ffff * (0x7fff_ffff * 9_869_604_403_666_763_716))
                by (nonlinear_arith)
                requires
                    0 <= n <= 0x7fff_ffff,
                    0 <= squares <= n * 9_869_604_403_666_763_716,
            ;
            assert(0 <= total * total <= 6_746_518_850_000_329_138 * 6_746_518_850_000_329_138)
                by (nonlinear_arith)
                requires
                    -6_746_518_850_000_329_138 <= total <= 6_746_518_850_000_329_138,
            ;
        }
        (n as i128) * squares - total * total
    }

    /// All points below the node at `node_idx`, from left to right.
    fn extract_all(&self, node_idx: usize) -> (result: Vec<Point>)
        requires
            arena_wf(self.nodes@),
            node_idx < self.nodes.len(),
        ensures
            result@ == tree_at(self.nodes@, node_idx as int).points(),
        decreases node_idx,
    {
        match &self.nodes[node_idx] {
            KDTreeNode::Node { splitter: _, dimension: _, left_child, right_child } => {
                let mut result = self.extract_all(*left_child);
                let mut right = self.extract_all(*right_child);
                result.append(&mut right);
                result
            },
            KDTreeNode::Leaf { points } => copy_points(points),
        }
    }

    /// The points below the node at `node_idx` that a traversal for `target`
    /// collects, given that the node covers `current_box`. Both boxes count in
    /// half nanoradians.
    fn search(&self, node_idx: usize, current_box: &SearchBox, target: &SearchBox) -> (result:
        Vec<Point>)
        requires
            arena_wf(self.nodes@),
            node_idx < self.nodes.len(),
        ensures
            result@ == tree_at(self.nodes@, node_idx as int).visited(*current_box, *target),
        decreases node_idx,
    {
        if SearchBox::nested_box(current_box, target) {
            return self.extract_all(node_idx);
        }
        match &self.nodes[node_idx] {
            KDTreeNode::Leaf { points } => points_inside(points, target),
            KDTreeNode::Node { splitter, dimension, left_child, right_child } => {
                let splitter: i64 = *splitter;
                let left_child: usize = *left_child;
                let right_child: usize = *right_child;
                let mut result: Vec<Point> = Vec::new();

                if *dimension == LATITUDE {
                    if target.lat_from <= splitter && splitter < target.lat_to {
                        // the target reaches over the splitter: both sides
                        let mut left = self.search(
                            left_child,
                            &SearchBox {
                                lat_from: current_box.lat_from,
                                lat_to: splitter,
                                lon_from: current_box.lon_from,
                                lon_to: current_box.lon_to,
                            },
                            &SearchBox {
                                lat_from: target.lat_from,
                                lat_to: splitter,
                                lon_from: target.lon_from,
                                lon_to: target.lon_to,
                            },
                        );
                        let mut right = self.search(
                            right_child,
                            &SearchBox {
                                lat_from: splitter,
                                lat_to: current_box.lat_to,
                                lon_from: current_box.lon_from,
                                lon_to: current_box.lon_to,
                            },
                            &SearchBox {
                                lat_from: splitter,
                                lat_to: target.lat_to,
                                lon_from: target.lon_from,
                                lon_to: target.lon_to,
                            },
                        );
                        result.append(&mut left);
                        result.append(&mut right);
                    } else if target.lat_from < splitter && target.lat_to <= splitter {
                        // the target ends at the splitter: the left side only
                        let mut left = self.search(
                            left_child,
                            &SearchBox {
                                lat_from: current_box.lat_from,
                                lat_to: splitter,
                                lon_from: current_box.lon_from,
                                lon_to: current_box.lon_to,
                            },
                            target,
                        );
                        result.append(&mut left);
                    } else {
                        // the right side only
                        let mut right = self.search(
                            right_child,
                            &SearchBox {
                                lat_from: splitter,
                                lat_to: current_box.lat_to,
                                lon_from: current_box.lon_from,
                                lon_to: current_box.lon_to,
                            },
                            target,
                        );
                        result.append(&mut right);
                    }
                } else {
                    if target.lon_from <= splitter && splitter < target.lon_to {
                        let mut left = self.search(
                            left_child,
                            &SearchBox {
                                lat_from: current_box.lat_from,
                                lat_to: current_box.lat_to,
                                lon_from: current_box.lon_from,
                                lon_to: splitter,
                            },
                            &SearchBox {
                                lat_from: target.lat_from,
                                lat_to: target.lat_to,
                                lon_from: target.lon_from,
                                lon_to: splitter,
                            },
                        );
                        let mut right = self.search(
                            right_child,
                            &SearchBox {
                                lat_from: current_box.lat_from,
                                lat_to: current_box.lat_to,
                                lon_from: splitter,
                                lon_to: current_box.lon_to,
                            },
                            &SearchBox {
                                lat_from: target.lat_from,
                                lat_to: target.lat_to,
                                lon_from: splitter,
                                lon_to: target.lon_to,
                            },
                        );
                        result.append(&mut left);
                        result.append(&mut right);
                    } else if target.lon_from < splitter && target.lon_to <= splitter {
                        let mut left = self.search(
                            left_child,
                            &SearchBox {
                                lat_from: current_box.lat_from,
                                lat_to: current_box.lat_to,
                                lon_from: current_box.lon_from,
                                lon_to: splitter,
                            },
                            target,
                        );
                        result.append(&mut left);
                    } else {
                        let mut right = self.search(
                            right_child,
                            &SearchBox {
                                lat_from: current_box.lat_from,
                                lat_to: current_box.lat_to,
                                lon_from: splitter,
                                lon_to: current_box.lon_to,
                            },
                            target,
                        );
                        result.append(&mut right);
                    }
                }

                result
            },
        }
    }
}

} // verus!
