use vstd::prelude::*;
use vstd::seq_lib::lemma_multiset_commutative;
use crate::geo_point::{Point, LATITUDE, LONGITUDE};
use crate::search_box::SearchBox;
use crate::seq_facts::{
    lemma_empty_multiset, lemma_filter_agree, lemma_filter_all, lemma_filter_multiset,
    lemma_filter_none,
};
use crate::sphere_helper::{apart, on_sphere, within, BoxPair};

verus! {

// The points of a tree count their coordinates in nanoradians. Its splitters
// and the boxes of a traversal count in half nanoradians, so that the value
// half way between two coordinates is a whole number.

/// No point of `points` lies above `bound` along `dimension`.
pub open spec fn all_at_most(points: Seq<Point>, dimension: usize, bound: i64) -> bool {
    forall|i: int| 0 <= i < points.len() ==> (#[trigger] points[i]).fine(dimension) <= bound
}

/// No point of `points` lies below `bound` along `dimension`.
pub open spec fn all_at_least(points: Seq<Point>, dimension: usize, bound: i64) -> bool {
    forall|i: int| 0 <= i < points.len() ==> (#[trigger] points[i]).fine(dimension) >= bound
}

/// Every point of `points` lies strictly below `bound` along `dimension`.
pub open spec fn all_below(points: Seq<Point>, dimension: usize, bound: i64) -> bool {
    forall|i: int| 0 <= i < points.len() ==> (#[trigger] points[i]).fine(dimension) < bound
}

/// Every point of `points` lies strictly above `bound` along `dimension`.
pub open spec fn all_above(points: Seq<Point>, dimension: usize, bound: i64) -> bool {
    forall|i: int| 0 <= i < points.len() ==> (#[trigger] points[i]).fine(dimension) > bound
}

/// Every point of `points` lies in `region`.
pub open spec fn all_inside(points: Seq<Point>, region: SearchBox) -> bool {
    forall|i: int| 0 <= i < points.len() ==> region.contains_fine(#[trigger] points[i])
}

/// The identifiers of the points, in their order.
pub open spec fn ids_of(points: Seq<Point>) -> Seq<usize> {
    points.map_values(|point: Point| point.id)
}

/// The axis that a dimension value names.
pub open spec fn axis_of(dimension: usize) -> usize {
    if dimension == LATITUDE {
        LATITUDE
    } else {
        LONGITUDE
    }
}

/// Two dimension values name the same axis.
pub open spec fn same_axis(a: usize, b: usize) -> bool {
    (a == LATITUDE) == (b == LATITUDE)
}

/// The shape of a k-d tree, free of how it is stored.
pub enum Tree {
    Leaf { points: Seq<Point> },
    Inner { splitter: i64, dimension: usize, left: Box<Tree>, right: Box<Tree> },
}

impl Tree {
    /// The points of all leaves, from left to right.
    pub open spec fn points(self) -> Seq<Point>
        decreases self,
    {
        match self {
            Tree::Leaf { points } => points,
            Tree::Inner { left, right, .. } => left.points() + right.points(),
        }
    }

    /// At every inner node no point on the left lies above the splitter and no
    /// point on the right lies below it.
    pub open spec fn ordered(self) -> bool
        decreases self,
    {
        match self {
            Tree::Leaf { .. } => true,
            Tree::Inner { splitter, dimension, left, right } => {
                &&& all_at_most(left.points(), dimension, splitter)
                &&& all_at_least(right.points(), dimension, splitter)
                &&& left.ordered()
                &&& right.ordered()
            },
        }
    }

    /// Every leaf holds at least one point and at most `n_stop`.
    pub open spec fn leaves_within(self, n_stop: nat) -> bool
        decreases self,
    {
        match self {
            Tree::Leaf { points } => 1 <= points.len() <= n_stop,
            Tree::Inner { left, right, .. } => left.leaves_within(n_stop) && right.leaves_within(
                n_stop,
            ),
        }
    }

    /// Where the tree splits its points, and along which axis; nothing for a
    /// leaf.
    pub open spec fn split(self) -> Option<(i64, usize)> {
        match self {
            Tree::Leaf { .. } => None,
            Tree::Inner { splitter, dimension, .. } => Some((splitter, dimension)),
        }
    }

    /// The number of points in each leaf, from left to right.
    pub open spec fn leaf_sizes(self) -> Seq<usize>
        decreases self,
    {
        match self {
            Tree::Leaf { points } => seq![points.len() as usize],
            Tree::Inner { left, right, .. } => left.leaf_sizes() + right.leaf_sizes(),
        }
    }

    /// Every point of the tree lies in `region`.
    pub open spec fn inside(self, region: SearchBox) -> bool {
        all_inside(self.points(), region)
    }

    /// Every point of the tree is valid.
    pub open spec fn on_sphere(self) -> bool {
        self.inside(SearchBox::whole_sphere().doubled())
    }

    /// At every inner node the points on the left lie strictly below the
    /// splitter and the points on the right strictly above it: the two points
    /// around the median differed.
    pub open spec fn separated(self) -> bool
        decreases self,
    {
        match self {
            Tree::Leaf { .. } => true,
            Tree::Inner { splitter, dimension, left, right } => {
                &&& all_below(left.points(), dimension, splitter)
                &&& all_above(right.points(), dimension, splitter)
                &&& left.separated()
                &&& right.separated()
            },
        }
    }

    /// No inner node that splits the axis of `dimension` exactly at `bound`
    /// has a point on the splitter on its left.
    pub open spec fn no_left_tie(self, dimension: usize, bound: i64) -> bool
        decreases self,
    {
        match self {
            Tree::Leaf { .. } => true,
            Tree::Inner { splitter, dimension: axis, left, right } => {
                &&& same_axis(axis, dimension) && splitter == bound ==> all_below(
                    left.points(),
                    axis,
                    splitter,
                )
                &&& left.no_left_tie(dimension, bound)
                &&& right.no_left_tie(dimension, bound)
            },
        }
    }

    /// No inner node that splits the axis of `dimension` exactly at `bound`
    /// has a point on the splitter on its right.
    pub open spec fn no_right_tie(self, dimension: usize, bound: i64) -> bool
        decreases self,
    {
        match self {
            Tree::Leaf { .. } => true,
            Tree::Inner { splitter, dimension: axis, left, right } => {
                &&& same_axis(axis, dimension) && splitter == bound ==> all_above(
                    right.points(),
                    axis,
                    splitter,
                )
                &&& left.no_right_tie(dimension, bound)
                &&& right.no_right_tie(dimension, bound)
            },
        }
    }

    /// No splitter is met again, together with a point that lies on it, on
    /// the far side of a node below it: on the left of a node no later node
    /// splits at the same value with such a point on its right, and on the
    /// right of a node none with such a point on its left.
    pub open spec fn tidy(self) -> bool
        decreases self,
    {
        match self {
            Tree::Leaf { .. } => true,
            Tree::Inner { splitter, dimension, left, right } => {
                &&& left.no_right_tie(axis_of(dimension), splitter)
                &&& right.no_left_tie(axis_of(dimension), splitter)
                &&& left.tidy()
                &&& right.tidy()
            },
        }
    }

    /// No point lies on a splitter where a traversal for `target` turns away
    /// from it: the tree is tidy, no point on the left of a node lies on a
    /// splitter that is a lower bound of `target`, and no point on the right of
    /// a node lies on a splitter that is an upper bound of `target`. The
    /// target counts in half nanoradians.
    pub open spec fn fit_for_fine(self, target: SearchBox) -> bool {
        &&& self.tidy()
        &&& self.no_left_tie(LATITUDE, target.lat_from)
        &&& self.no_left_tie(LONGITUDE, target.lon_from)
        &&& self.no_right_tie(LATITUDE, target.lat_to)
        &&& self.no_right_tie(LONGITUDE, target.lon_to)
    }

    /// No point lies on a splitter where a traversal for `target` turns away
    /// from it.
    pub open spec fn fit_for(self, target: SearchBox) -> bool {
        self.fit_for_fine(target.doubled())
    }

    /// The tree is fit for each of the boxes.
    pub open spec fn fit_for_all(self, boxes: BoxPair) -> bool {
        &&& boxes.0 matches Some(target) ==> self.fit_for(target)
        &&& boxes.1 matches Some(target) ==> self.fit_for(target)
    }

    /// What a traversal for `target` collects from a tree that covers
    /// `current`. Both boxes count in half nanoradians.
    ///
    /// A subtree whose region lies within the target is taken whole. A leaf is
    /// filtered. An inner node sends the traversal to the left, to the right or
    /// to both, by where its splitter lies relative to the target's interval.
    pub open spec fn visited(self, current: SearchBox, target: SearchBox) -> Seq<Point>
        decreases self,
    {
        if current.nested_in(target) {
            self.points()
        } else {
            match self {
                Tree::Leaf { points } => points.filter(target.holds_fine()),
                Tree::Inner { splitter, dimension, left, right } => {
                    if target.lower(dimension) <= splitter && splitter < target.upper(dimension) {
                        left.visited(
                            current.capped(dimension, splitter),
                            target.capped(dimension, splitter),
                        ) + right.visited(
                            current.raised(dimension, splitter),
                            target.raised(dimension, splitter),
                        )
                    } else if target.lower(dimension) < splitter && target.upper(dimension)
                        <= splitter {
                        left.visited(current.capped(dimension, splitter), target)
                    } else {
                        right.visited(current.raised(dimension, splitter), target)
                    }
                },
            }
        }
    }

    /// What a box query for `target` collects from the whole tree.
    pub open spec fn found(self, target: SearchBox) -> Seq<Point> {
        self.visited(SearchBox::whole_sphere().doubled(), target.doubled())
    }

    /// What a query collects for the first box, and behind it what it
    /// collects for the second.
    pub open spec fn found_in(self, boxes: BoxPair) -> Seq<Point> {
        (match boxes.0 {
            Some(target) => self.found(target),
            None => Seq::empty(),
        }) + (match boxes.1 {
            Some(target) => self.found(target),
            None => Seq::empty(),
        })
    }
}

/// What holds of every point of a concatenation holds of every point of
/// either part.
pub proof fn lemma_inside_parts(a: Seq<Point>, b: Seq<Point>, region: SearchBox)
    requires
        all_inside(a + b, region),
    ensures
        all_inside(a, region),
        all_inside(b, region),
{
    assert forall|i: int| 0 <= i < a.len() implies region.contains_fine(#[trigger] a[i]) by {
        assert((a + b)[i] == a[i]);
    }
    assert forall|i: int| 0 <= i < b.len() implies region.contains_fine(#[trigger] b[i]) by {
        assert((a + b)[i + a.len()] == b[i]);
    }
}

impl Tree {
    /// A tree that is split strictly between its points has no point on the
    /// left of a node on the node's splitter.
    pub proof fn lemma_separated_left(self, dimension: usize, bound: i64)
        requires
            self.separated(),
        ensures
            self.no_left_tie(dimension, bound),
        decreases self,
    {
        match self {
            Tree::Leaf { .. } => {},
            Tree::Inner { left, right, .. } => {
                left.lemma_separated_left(dimension, bound);
                right.lemma_separated_left(dimension, bound);
            },
        }
    }

    /// A tree that is split strictly between its points has no point on the
    /// right of a node on the node's splitter.
    pub proof fn lemma_separated_right(self, dimension: usize, bound: i64)
        requires
            self.separated(),
        ensures
            self.no_right_tie(dimension, bound),
        decreases self,
    {
        match self {
            Tree::Leaf { .. } => {},
            Tree::Inner { left, right, .. } => {
                left.lemma_separated_right(dimension, bound);
                right.lemma_separated_right(dimension, bound);
            },
        }
    }

    /// A tree that is split strictly between its points is tidy.
    pub proof fn lemma_separated_tidy(self)
        requires
            self.separated(),
        ensures
            self.tidy(),
        decreases self,
    {
        match self {
            Tree::Leaf { .. } => {},
            Tree::Inner { splitter, dimension, left, right } => {
                left.lemma_separated_right(axis_of(dimension), splitter);
                right.lemma_separated_left(axis_of(dimension), splitter);
                left.lemma_separated_tidy();
                right.lemma_separated_tidy();
            },
        }
    }

    /// A tree that is split strictly between its points is fit for every
    /// target.
    pub proof fn lemma_separated_fits(self, target: SearchBox)
        requires
            self.separated(),
        ensures
            self.fit_for_fine(target),
            self.fit_for(target),
    {
        let fine = target.doubled();
        self.lemma_separated_tidy();
        self.lemma_separated_left(LATITUDE, target.lat_from);
        self.lemma_separated_left(LONGITUDE, target.lon_from);
        self.lemma_separated_right(LATITUDE, target.lat_to);
        self.lemma_separated_right(LONGITUDE, target.lon_to);
        self.lemma_separated_left(LATITUDE, fine.lat_from);
        self.lemma_separated_left(LONGITUDE, fine.lon_from);
        self.lemma_separated_right(LATITUDE, fine.lat_to);
        self.lemma_separated_right(LONGITUDE, fine.lon_to);
    }

    /// A traversal collects exactly the points of the tree that lie in the
    /// target, in the order of the leaves, provided that no point lies on a
    /// splitter where the traversal turns away from it.
    pub proof fn lemma_visited_exact(self, current: SearchBox, target: SearchBox)
        requires
            self.ordered(),
            self.inside(current),
            self.fit_for_fine(target),
        ensures
            self.visited(current, target) == self.points().filter(target.holds_fine()),
        decreases self,
    {
        let keep = target.holds_fine();
        if current.nested_in(target) {
            lemma_filter_all(self.points(), keep);
        } else {
            match self {
                Tree::Leaf { .. } => {},
                Tree::Inner { splitter, dimension, left, right } => {
                    let l = left.points();
                    let r = right.points();
                    lemma_inside_parts(l, r, current);
                    Seq::filter_distributes_over_add(l, r, keep);
                    let lo = target.lower(dimension);
                    let hi = target.upper(dimension);
                    if lo <= splitter && splitter < hi {
                        let t_left = target.capped(dimension, splitter);
                        let t_right = target.raised(dimension, splitter);
                        left.lemma_visited_exact(current.capped(dimension, splitter), t_left);
                        right.lemma_visited_exact(current.raised(dimension, splitter), t_right);
                        lemma_filter_agree(l, t_left.holds_fine(), keep);
                        lemma_filter_agree(r, t_right.holds_fine(), keep);
                    } else if lo < splitter && hi <= splitter {
                        left.lemma_visited_exact(current.capped(dimension, splitter), target);
                        lemma_filter_none(r, keep);
                    } else {
                        right.lemma_visited_exact(current.raised(dimension, splitter), target);
                        lemma_filter_none(l, keep);
                    }
                },
            }
        }
    }

    /// A traversal collects no point that lies outside the target, and none
    /// more often than the tree holds it.
    pub proof fn lemma_visited_sound(self, current: SearchBox, target: SearchBox)
        requires
            self.ordered(),
            self.inside(current),
        ensures
            self.visited(current, target).to_multiset().subset_of(
                self.points().to_multiset().filter(target.holds_fine()),
            ),
        decreases self,
    {
        broadcast use vstd::multiset::group_multiset_axioms;

        let keep = target.holds_fine();
        lemma_filter_multiset(self.points(), keep);
        if current.nested_in(target) {
            lemma_filter_all(self.points(), keep);
        } else {
            match self {
                Tree::Leaf { .. } => {},
                Tree::Inner { splitter, dimension, left, right } => {
                    let l = left.points();
                    let r = right.points();
                    lemma_inside_parts(l, r, current);
                    Seq::filter_distributes_over_add(l, r, keep);
                    lemma_multiset_commutative(l.filter(keep), r.filter(keep));
                    lemma_filter_multiset(l, keep);
                    lemma_filter_multiset(r, keep);
                    let lo = target.lower(dimension);
                    let hi = target.upper(dimension);
                    if lo <= splitter && splitter < hi {
                        let t_left = target.capped(dimension, splitter);
                        let t_right = target.raised(dimension, splitter);
                        let from_left = left.visited(current.capped(dimension, splitter), t_left);
                        let from_right = right.visited(
                            current.raised(dimension, splitter),
                            t_right,
                        );
                        left.lemma_visited_sound(current.capped(dimension, splitter), t_left);
                        right.lemma_visited_sound(current.raised(dimension, splitter), t_right);
                        lemma_filter_agree(l, t_left.holds_fine(), keep);
                        lemma_filter_agree(r, t_right.holds_fine(), keep);
                        lemma_filter_multiset(l, t_left.holds_fine());
                        lemma_filter_multiset(r, t_right.holds_fine());
                        lemma_multiset_commutative(from_left, from_right);
                    } else if lo < splitter && hi <= splitter {
                        left.lemma_visited_sound(current.capped(dimension, splitter), target);
                    } else {
                        right.lemma_visited_sound(current.raised(dimension, splitter), target);
                    }
                },
            }
        }
    }

    /// A box on the sphere holds the same points of a tree, whether it counts
    /// in nanoradians or in half nanoradians.
    pub proof fn lemma_doubled_holds(self, target: SearchBox)
        requires
            target.on_sphere(),
        ensures
            self.points().filter(target.doubled().holds_fine()) == self.points().filter(
                target.holds(),
            ),
    {
        lemma_filter_agree(self.points(), target.doubled().holds_fine(), target.holds());
    }

    /// A query collects no point that lies outside its boxes, and none more
    /// often than the tree holds it.
    pub proof fn lemma_found_in_sound(self, boxes: BoxPair)
        requires
            self.ordered(),
            self.on_sphere(),
            on_sphere(boxes),
            apart(boxes),
        ensures
            self.found_in(boxes).to_multiset().subset_of(
                self.points().to_multiset().filter(within(boxes)),
            ),
    {
        broadcast use vstd::multiset::group_multiset_axioms;

        let first = match boxes.0 {
            Some(target) => self.found(target),
            None => Seq::empty(),
        };
        let second = match boxes.1 {
            Some(target) => self.found(target),
            None => Seq::empty(),
        };
        lemma_multiset_commutative(first, second);
        if let Some(target) = boxes.0 {
            self.lemma_visited_sound(SearchBox::whole_sphere().doubled(), target.doubled());
            self.lemma_doubled_holds(target);
            lemma_filter_multiset(self.points(), target.doubled().holds_fine());
            lemma_filter_multiset(self.points(), target.holds());
        } else {
            lemma_empty_multiset::<Point>();
        }
        if let Some(target) = boxes.1 {
            self.lemma_visited_sound(SearchBox::whole_sphere().doubled(), target.doubled());
            self.lemma_doubled_holds(target);
            lemma_filter_multiset(self.points(), target.doubled().holds_fine());
            lemma_filter_multiset(self.points(), target.holds());
        } else {
            lemma_empty_multiset::<Point>();
        }
    }

    /// A query collects exactly the points of the tree that lie in its boxes,
    /// each as often as the tree holds it, provided that no point lies on a
    /// splitter where a traversal turns away from it.
    pub proof fn lemma_found_in_exact(self, boxes: BoxPair)
        requires
            self.ordered(),
            self.on_sphere(),
            self.fit_for_all(boxes),
            on_sphere(boxes),
            apart(boxes),
        ensures
            self.found_in(boxes).to_multiset() == self.points().to_multiset().filter(
                within(boxes),
            ),
    {
        broadcast use vstd::multiset::group_multiset_axioms;

        let first = match boxes.0 {
            Some(target) => self.found(target),
            None => Seq::empty(),
        };
        let second = match boxes.1 {
            Some(target) => self.found(target),
            None => Seq::empty(),
        };
        lemma_multiset_commutative(first, second);
        if let Some(target) = boxes.0 {
            self.lemma_visited_exact(SearchBox::whole_sphere().doubled(), target.doubled());
            self.lemma_doubled_holds(target);
            lemma_filter_multiset(self.points(), target.holds());
        } else {
            lemma_empty_multiset::<Point>();
        }
        if let Some(target) = boxes.1 {
            self.lemma_visited_exact(SearchBox::whole_sphere().doubled(), target.doubled());
            self.lemma_doubled_holds(target);
            lemma_filter_multiset(self.points(), target.holds());
        } else {
            lemma_empty_multiset::<Point>();
        }
        assert(self.found_in(boxes).to_multiset() =~= self.points().to_multiset().filter(
            within(boxes),
        ));
    }
}

} // verus!
