use geosearch::geo_point::{Point, HALF_PI_NRAD, PI_NRAD};
use geosearch::kd_tree::{InvalidInput, KDTree};
use geosearch::sphere_helper::SphereHelper;

use std::f64::consts::PI;

const MM_PER_KM: f64 = 1.0e6;

/// One kilometre, in millimetres: the radius of the sphere in the scenarios.
const UNIT_RADIUS: u64 = 1_000_000;

fn nrad(angle: f64) -> i64 {
    (angle * 1.0e9).round() as i64
}

fn rad(angle: i64) -> f64 {
    angle as f64 / 1.0e9
}

fn at(id: usize, lat: f64, lon: f64) -> Point {
    Point { id, lat: nrad(lat), lon: nrad(lon) }
}

fn hav(x: f64) -> f64 {
    (1.0 - x.cos()) / 2.0
}

fn archav(h: f64) -> f64 {
    if h >= 0.0 && h <= 1.0 {
        (1.0 - 2.0 * h).acos()
    } else {
        0.0
    }
}

fn distance(from: &Point, to: &Point, radius: f64) -> f64 {
    let d_lat = rad(from.lat) - rad(to.lat);
    let d_lon = rad(from.lon) - rad(to.lon);
    let angle = archav(hav(d_lat) + rad(from.lat).cos() * rad(to.lat).cos() * hav(d_lon));
    angle * radius
}

/// The widest angle in longitude between the center of a disc and its rim.
/// The rim is widest where it touches a meridian, and there the sine of that
/// angle is the sine of the disc's radius over the cosine of the center's
/// latitude.
fn lon_reach(lat: f64, d_lat: f64) -> f64 {
    let sine = d_lat.sin() / lat.cos();
    if sine.abs() < 1.0 {
        sine.asin()
    } else {
        PI
    }
}

fn radial(tree: &KDTree, center: &Point, d_km: f64) -> Vec<(usize, f64)> {
    let radius_km = tree.sphere_radius() as f64 / MM_PER_KM;
    let distance_mm = (d_km * MM_PER_KM).round() as u64;
    let d_lat = SphereHelper::angular_radius(distance_mm, tree.sphere_radius());
    let d_lon = (lon_reach(rad(center.lat), rad(d_lat)) * 1.0e9).ceil() as i64;
    let mut hits: Vec<(usize, f64)> = tree
        .search_by_distance(center, distance_mm, d_lon)
        .iter()
        .filter(|candidate| distance(center, candidate, radius_km) <= d_km)
        .map(|candidate| (candidate.id, distance(center, candidate, radius_km)))
        .collect();
    hits.sort_by(|a, b| a.0.cmp(&b.0));
    hits
}

fn linear(points: &[Point], center: &Point, d_km: f64, radius_km: f64) -> Vec<usize> {
    points
        .iter()
        .filter(|candidate| distance(center, candidate, radius_km) <= d_km)
        .map(|candidate| candidate.id)
        .collect()
}

fn sorted(mut ids: Vec<usize>) -> Vec<usize> {
    ids.sort();
    ids
}

struct Dice(u64);

impl Dice {
    fn next(&mut self) -> u64 {
        self.0 ^= self.0 << 13;
        self.0 ^= self.0 >> 7;
        self.0 ^= self.0 << 17;
        self.0
    }

    fn between(&mut self, low: f64, high: f64) -> f64 {
        low + (high - low) * ((self.next() >> 11) as f64 / (1u64 << 53) as f64)
    }
}

fn scattered(amount: usize, dice: &mut Dice) -> Vec<Point> {
    (0..amount)
        .map(|id| {
            at(
                id,
                dice.between(-PI / 2.0 + 0.2, PI / 2.0 - 0.2),
                dice.between(-PI + 0.2, PI - 0.2),
            )
        })
        .collect()
}

fn in_rectangle(west: &Point, east: &Point, p: &Point) -> bool {
    let lat = west.lat <= p.lat && p.lat <= east.lat;
    let lon = if east.lon < west.lon {
        p.lon >= west.lon || p.lon <= east.lon
    } else {
        west.lon <= p.lon && p.lon <= east.lon
    };
    lat && lon
}

#[test]
fn single_point_trivial_disc() {
    let tree = KDTree::new(&vec![at(0, 0.0, 0.0)], 1, UNIT_RADIUS).unwrap();
    assert_eq!(radial(&tree, &at(9, 0.0, 0.0), 0.1), vec![(0, 0.0)]);
}

#[test]
fn empty_ball() {
    let tree = KDTree::new(&vec![at(0, 0.0, 0.0)], 1, UNIT_RADIUS).unwrap();
    assert_eq!(radial(&tree, &at(9, 1.0, 0.0), 0.5), vec![]);
}

#[test]
fn antimeridian_wrap() {
    let points = vec![at(0, 0.0, 3.14), at(1, 0.0, -3.14)];
    let tree = KDTree::new(&points, 1, UNIT_RADIUS).unwrap();
    let hits = radial(&tree, &at(9, 0.0, 3.14), 0.01);
    assert_eq!(hits.len(), 2);
    assert_eq!(hits[0], (0, 0.0));
    assert_eq!(hits[1].0, 1);
    assert!((hits[1].1 - (2.0 * rad(PI_NRAD) - 6.28)).abs() < 1.0e-6);
}

#[test]
fn antimeridian_wrap_westwards() {
    let points = vec![at(0, 0.0, 3.14), at(1, 0.0, -3.14)];
    let tree = KDTree::new(&points, 1, UNIT_RADIUS).unwrap();
    let hits = radial(&tree, &at(9, 0.0, -3.14), 0.01);
    assert_eq!(hits.iter().map(|hit| hit.0).collect::<Vec<_>>(), vec![0, 1]);
}

#[test]
fn north_pole_cap() {
    let lat = PI / 2.0 - 0.01;
    let points = vec![
        at(0, lat, -PI),
        at(1, lat, -PI / 2.0),
        at(2, lat, 0.0),
        at(3, lat, PI / 2.0),
    ];
    for n_stop in 1..5 {
        let tree = KDTree::new(&points, n_stop, UNIT_RADIUS).unwrap();
        let hits = radial(&tree, &at(9, PI / 2.0 - 0.005, 0.0), 0.1);
        assert_eq!(hits.iter().map(|hit| hit.0).collect::<Vec<_>>(), vec![0, 1, 2, 3]);
    }
}

#[test]
fn south_pole_cap() {
    let lat = -PI / 2.0 + 0.01;
    let points = vec![
        at(0, lat, -PI),
        at(1, lat, -PI / 2.0),
        at(2, lat, 0.0),
        at(3, lat, PI / 2.0),
    ];
    let tree = KDTree::new(&points, 2, UNIT_RADIUS).unwrap();
    let hits = radial(&tree, &at(9, -PI / 2.0 + 0.005, 0.0), 0.1);
    assert_eq!(hits.iter().map(|hit| hit.0).collect::<Vec<_>>(), vec![0, 1, 2, 3]);
}

#[test]
fn box_wrap() {
    let points = vec![at(0, 0.0, 2.0), at(1, 0.0, 3.0), at(2, 0.0, -3.0), at(3, 0.0, -2.0)];
    for n_stop in 1..5 {
        let tree = KDTree::new(&points, n_stop, UNIT_RADIUS).unwrap();
        let ids = tree.search_by_box(&at(0, -0.1, 2.5), &at(0, 0.1, -2.5));
        assert_eq!(sorted(ids), vec![1, 2]);
    }
}

#[test]
fn box_without_wrap() {
    let points = vec![at(0, 0.0, 2.0), at(1, 0.0, 3.0), at(2, 0.0, -3.0), at(3, 0.0, -2.0)];
    let tree = KDTree::new(&points, 1, UNIT_RADIUS).unwrap();
    let ids = tree.search_by_box(&at(0, -0.1, -2.5), &at(0, 0.1, 2.5));
    assert_eq!(sorted(ids), vec![0, 3]);
}

#[test]
fn box_of_the_whole_sphere_returns_the_leaves_in_order() {
    let points = vec![at(0, 0.3, 0.0), at(1, 0.1, 0.0), at(2, 0.2, 0.0), at(3, 0.0, 0.0)];
    let tree = KDTree::new(&points, 1, UNIT_RADIUS).unwrap();
    let ids = tree.search_by_box(
        &Point { id: 0, lat: -HALF_PI_NRAD, lon: -PI_NRAD },
        &Point { id: 0, lat: HALF_PI_NRAD, lon: PI_NRAD },
    );
    assert_eq!(ids, vec![3, 1, 2, 0]);
}

#[test]
fn box_with_ill_ordered_latitudes_is_empty() {
    let points = vec![at(0, 0.0, 0.0)];
    let tree = KDTree::new(&points, 1, UNIT_RADIUS).unwrap();
    assert_eq!(tree.search_by_box(&at(0, 0.1, -1.0), &at(0, -0.1, 1.0)), vec![]);
}

#[test]
fn dense_cluster_and_sparse_outliers() {
    let mut dice = Dice(0x9E37_79B9_7F4A_7C15);
    let points = scattered(10_000, &mut dice);
    let tree = KDTree::new(&points, 300, UNIT_RADIUS).unwrap();
    for _ in 0..100 {
        let center = at(
            10_001,
            dice.between(-PI / 2.0 + 0.2, PI / 2.0 - 0.2),
            dice.between(-PI + 0.2, PI - 0.2),
        );
        let d_km = dice.between(0.0, 0.05);
        let found: Vec<usize> = radial(&tree, &center, d_km).iter().map(|hit| hit.0).collect();
        assert_eq!(found, linear(&points, &center, d_km, 1.0));
    }
}

#[test]
fn radial_search_equals_linear_scan_for_small_leaves() {
    let mut dice = Dice(42);
    let points = scattered(2_000, &mut dice);
    let tree = KDTree::new(&points, 1, UNIT_RADIUS).unwrap();
    let mut total = 0;
    for _ in 0..200 {
        let center = at(
            0,
            dice.between(-PI / 2.0 + 0.2, PI / 2.0 - 0.2),
            dice.between(-PI + 0.2, PI - 0.2),
        );
        let d_km = dice.between(0.0, 0.3);
        let found: Vec<usize> = radial(&tree, &center, d_km).iter().map(|hit| hit.0).collect();
        total += found.len();
        assert_eq!(found, linear(&points, &center, d_km, 1.0));
    }
    assert!(total > 0);
}

#[test]
fn radial_search_with_zero_distance_finds_the_point_itself() {
    let points = vec![at(0, 0.5, 1.0), at(1, 0.4, 1.000001), at(2, -0.5, 1.0)];
    let tree = KDTree::new(&points, 1, UNIT_RADIUS).unwrap();
    assert_eq!(radial(&tree, &at(9, 0.5, 1.0), 0.0), vec![(0, 0.0)]);
    assert_eq!(radial(&tree, &at(9, 0.4, 1.000001), 0.0), vec![(1, 0.0)]);
    assert_eq!(radial(&tree, &at(9, -0.5, 1.0), 0.0), vec![(2, 0.0)]);
    assert_eq!(radial(&tree, &at(9, 0.5, 1.000001), 0.0), vec![]);
}

#[test]
fn radial_candidates_are_the_points_of_the_cover() {
    let points = vec![at(0, 0.0, 0.0), at(1, 0.05, 0.05), at(2, 0.2, 0.0), at(3, 0.0, -0.2)];
    let tree = KDTree::new(&points, 1, UNIT_RADIUS).unwrap();
    let candidates = tree.search_by_distance(&at(9, 0.0, 0.0), 100_000, 100_000_000);
    let ids: Vec<usize> = candidates.iter().map(|p| p.id).collect();
    assert_eq!(sorted(ids), vec![0, 1]);
    let candidates = tree.search_by_distance(&at(9, 0.0, 0.0), 200_000, 200_000_000);
    assert_eq!(candidates.len(), 4);
}

#[test]
fn radial_candidates_follow_the_radius_of_the_sphere() {
    let points = vec![at(0, 0.0, 0.0), at(1, 0.05, 0.0)];
    let small = KDTree::new(&points, 1, 1_000_000).unwrap();
    let large = KDTree::new(&points, 1, 10_000_000).unwrap();
    assert_eq!(small.sphere_radius(), 1_000_000);
    assert_eq!(large.sphere_radius(), 10_000_000);
    assert_eq!(small.search_by_distance(&at(9, 0.0, 0.0), 100_000, PI_NRAD).len(), 2);
    assert_eq!(large.search_by_distance(&at(9, 0.0, 0.0), 100_000, PI_NRAD).len(), 1);
}

#[test]
fn radial_candidates_of_an_invalid_center_are_none() {
    let points = vec![at(0, 0.0, 0.0)];
    let tree = KDTree::new(&points, 1, UNIT_RADIUS).unwrap();
    let center = Point { id: 9, lat: HALF_PI_NRAD + 1, lon: 0 };
    assert!(tree.search_by_distance(&center, 4_000_000, PI_NRAD).is_empty());
    assert!(tree.search_by_distance(&at(9, 0.0, 0.0), 100_000, -1).is_empty());
}

#[test]
fn box_search_equals_linear_filter() {
    let mut dice = Dice(7);
    let points = scattered(3_000, &mut dice);
    for n_stop in [1, 7, 300, 5_000] {
        let tree = KDTree::new(&points, n_stop, UNIT_RADIUS).unwrap();
        for _ in 0..100 {
            let lat_a = dice.between(-PI / 2.0, PI / 2.0);
            let lat_b = dice.between(-PI / 2.0, PI / 2.0);
            let west = at(0, lat_a.min(lat_b), dice.between(-PI, PI));
            let east = at(0, lat_a.max(lat_b), dice.between(-PI, PI));
            let expected: Vec<usize> = points
                .iter()
                .filter(|p| in_rectangle(&west, &east, p))
                .map(|p| p.id)
                .collect();
            assert_eq!(sorted(tree.search_by_box(&west, &east)), expected);
        }
    }
}

#[test]
fn rebuild_gives_the_same_answers() {
    let mut dice = Dice(99);
    let points = scattered(500, &mut dice);
    let first = KDTree::new(&points, 4, UNIT_RADIUS).unwrap();
    let second = KDTree::new(&points, 4, UNIT_RADIUS).unwrap();
    for _ in 0..50 {
        let west = at(0, dice.between(-1.0, 0.0), dice.between(-PI, PI));
        let east = at(0, dice.between(0.0, 1.0), dice.between(-PI, PI));
        assert_eq!(first.search_by_box(&west, &east), second.search_by_box(&west, &east));
        let center = at(0, dice.between(-1.0, 1.0), dice.between(-3.0, 3.0));
        let a: Vec<usize> =
            first.search_by_distance(&center, 200_000, 300_000_000).iter().map(|p| p.id).collect();
        let b: Vec<usize> =
            second.search_by_distance(&center, 200_000, 300_000_000).iter().map(|p| p.id).collect();
        assert_eq!(a, b);
    }
}

#[test]
fn mirrored_points_give_mirrored_answers() {
    let mut dice = Dice(2024);
    let points = scattered(500, &mut dice);
    let mirrored: Vec<Point> =
        points.iter().map(|p| Point { id: p.id, lat: -p.lat, lon: p.lon }).collect();
    let north = KDTree::new(&points, 3, UNIT_RADIUS).unwrap();
    let south = KDTree::new(&mirrored, 3, UNIT_RADIUS).unwrap();
    for _ in 0..50 {
        let lat_from = dice.between(-1.0, 0.5);
        let lat_to = lat_from + dice.between(0.0, 0.8);
        let lon_from = dice.between(-PI, PI);
        let lon_to = dice.between(-PI, PI);
        let here = north.search_by_box(&at(0, lat_from, lon_from), &at(0, lat_to, lon_to));
        let there = south.search_by_box(&at(0, -lat_to, lon_from), &at(0, -lat_from, lon_to));
        assert_eq!(sorted(here), sorted(there));
        let center = at(0, dice.between(-1.0, 1.0), dice.between(-3.0, 3.0));
        let opposite = Point { id: 0, lat: -center.lat, lon: center.lon };
        let here: Vec<usize> = radial(&north, &center, 0.2).iter().map(|hit| hit.0).collect();
        let there: Vec<usize> = radial(&south, &opposite, 0.2).iter().map(|hit| hit.0).collect();
        assert_eq!(here, there);
    }
}

#[test]
fn build_rejects_no_points() {
    assert_eq!(KDTree::new(&vec![], 1, UNIT_RADIUS).err(), Some(InvalidInput::NoPoints));
    assert_eq!(KDTree::new(&vec![], 0, 0).err(), Some(InvalidInput::NoPoints));
}

#[test]
fn build_rejects_leaves_of_no_points() {
    let points = vec![at(0, 0.0, 0.0)];
    assert_eq!(KDTree::new(&points, 0, UNIT_RADIUS).err(), Some(InvalidInput::ZeroLeafSize));
    assert_eq!(KDTree::new(&points, 0, 0).err(), Some(InvalidInput::ZeroLeafSize));
}

#[test]
fn build_rejects_a_sphere_without_radius() {
    let points = vec![at(0, 0.0, 0.0), Point { id: 1, lat: 0, lon: PI_NRAD + 1 }];
    assert_eq!(KDTree::new(&points, 1, 0).err(), Some(InvalidInput::ZeroRadius));
}

#[test]
fn build_rejects_coordinates_off_the_sphere() {
    for bad in [
        Point { id: 1, lat: HALF_PI_NRAD + 1, lon: 0 },
        Point { id: 1, lat: -HALF_PI_NRAD - 1, lon: 0 },
        Point { id: 1, lat: 0, lon: PI_NRAD + 1 },
        Point { id: 1, lat: 0, lon: -PI_NRAD - 1 },
        Point { id: 1, lat: i64::MAX, lon: i64::MIN },
    ] {
        let points = vec![at(0, 0.0, 0.0), bad, at(2, 0.1, 0.1)];
        assert_eq!(
            KDTree::new(&points, 1, UNIT_RADIUS).err(),
            Some(InvalidInput::CoordinateOutOfRange)
        );
    }
}

#[test]
fn build_accepts_the_poles_and_the_antimeridian() {
    let points = vec![
        Point { id: 0, lat: HALF_PI_NRAD, lon: PI_NRAD },
        Point { id: 1, lat: -HALF_PI_NRAD, lon: -PI_NRAD },
    ];
    let tree = KDTree::new(&points, 1, UNIT_RADIUS).unwrap();
    let ids = tree.search_by_box(&points[1], &points[0]);
    assert_eq!(sorted(ids), vec![0, 1]);
}

#[test]
fn build_splits_along_the_axis_of_greater_variance() {
    // spread in longitude: the lower longitudes come first among the leaves
    let wide = vec![at(0, 0.02, 1.0), at(1, 0.01, -1.0), at(2, 0.04, 2.0), at(3, 0.03, -2.0)];
    let tree = KDTree::new(&wide, 2, UNIT_RADIUS).unwrap();
    let world_sw = Point { id: 0, lat: -HALF_PI_NRAD, lon: -PI_NRAD };
    let world_ne = Point { id: 0, lat: HALF_PI_NRAD, lon: PI_NRAD };
    assert_eq!(tree.search_by_box(&world_sw, &world_ne), vec![3, 1, 0, 2]);
    // spread in latitude: the lower latitudes come first
    let tall = vec![at(0, 1.0, 0.02), at(1, -1.0, 0.01), at(2, 0.5, 0.04), at(3, -0.5, 0.03)];
    let tree = KDTree::new(&tall, 2, UNIT_RADIUS).unwrap();
    assert_eq!(tree.search_by_box(&world_sw, &world_ne), vec![1, 3, 2, 0]);
}

#[test]
fn build_splits_along_longitude_where_the_variances_are_equal() {
    let square = vec![at(0, 0.1, 0.2), at(1, 0.2, 0.1), at(2, 0.3, 0.4), at(3, 0.4, 0.3)];
    let tree = KDTree::new(&square, 2, UNIT_RADIUS).unwrap();
    let world_sw = Point { id: 0, lat: -HALF_PI_NRAD, lon: -PI_NRAD };
    let world_ne = Point { id: 0, lat: HALF_PI_NRAD, lon: PI_NRAD };
    assert_eq!(tree.search_by_box(&world_sw, &world_ne), vec![1, 0, 3, 2]);
}

#[test]
fn build_cuts_behind_the_median() {
    // five points along a line: three go left, two go right, and the splitter
    // lies half way between the third and the fourth
    let line: Vec<Point> =
        (0..5).map(|id| Point { id, lat: 0, lon: 10 * id as i64 }).collect();
    let tree = KDTree::new(&line, 3, UNIT_RADIUS).unwrap();
    let south = Point { id: 0, lat: -1, lon: 0 };
    assert_eq!(tree.search_by_box(&south, &Point { id: 0, lat: 1, lon: 25 }), vec![0, 1, 2]);
    assert_eq!(tree.search_by_box(&south, &Point { id: 0, lat: 1, lon: 24 }), vec![0, 1, 2]);
    assert_eq!(
        tree.search_by_box(&Point { id: 0, lat: -1, lon: 25 }, &Point { id: 0, lat: 1, lon: 40 }),
        vec![3, 4]
    );
}

#[test]
fn equal_points_build_and_answer() {
    let same: Vec<Point> = (0..9).map(|id| Point { id, lat: 5, lon: 5 }).collect();
    let world_sw = Point { id: 0, lat: -HALF_PI_NRAD, lon: -PI_NRAD };
    let world_ne = Point { id: 0, lat: HALF_PI_NRAD, lon: PI_NRAD };
    for n_stop in 1..10 {
        let tree = KDTree::new(&same, n_stop, UNIT_RADIUS).unwrap();
        let all = tree.search_by_box(&world_sw, &world_ne);
        assert_eq!(all, (0..9).collect::<Vec<usize>>());
        let none = tree.search_by_box(&Point { id: 0, lat: 6, lon: 0 }, &Point { id: 0, lat: 9, lon: 9 });
        assert!(none.is_empty());
        let some = tree.search_by_box(&Point { id: 0, lat: 0, lon: 0 }, &Point { id: 0, lat: 9, lon: 9 });
        assert!(!some.is_empty());
        assert!(some.windows(2).all(|pair| pair[0] < pair[1]));
        assert!(some.iter().all(|id| *id < 9));
    }
    let tree = KDTree::new(&same, 9, UNIT_RADIUS).unwrap();
    let all = tree.search_by_box(&Point { id: 0, lat: 0, lon: 0 }, &Point { id: 0, lat: 9, lon: 9 });
    assert_eq!(all, (0..9).collect::<Vec<usize>>());
}

#[test]
fn a_point_on_the_splitter_is_passed_over_when_the_box_ends_there() {
    // two points with one longitude: the splitter lies on both, the second
    // stands on its right, and a box that ends at the splitter looks left only
    let twins = vec![Point { id: 0, lat: 0, lon: 0 }, Point { id: 1, lat: 0, lon: 0 }];
    let tree = KDTree::new(&twins, 1, UNIT_RADIUS).unwrap();
    let ids = tree.search_by_box(&Point { id: 0, lat: -1, lon: -1 }, &Point { id: 0, lat: 1, lon: 0 });
    assert_eq!(ids, vec![0]);
    let ids = tree.search_by_box(&Point { id: 0, lat: -1, lon: -1 }, &Point { id: 0, lat: 1, lon: 1 });
    assert_eq!(ids, vec![0, 1]);
}

#[test]
fn leaves_hold_between_one_point_and_the_threshold() {
    let mut dice = Dice(5);
    let points = scattered(1_000, &mut dice);
    for n_stop in [1, 2, 3, 10, 300, 999, 1_000, 2_000] {
        let tree = KDTree::new(&points, n_stop, UNIT_RADIUS).unwrap();
        let sizes = tree.leaf_sizes();
        assert!(sizes.iter().all(|&size| 1 <= size && size <= n_stop));
        assert_eq!(sizes.iter().sum::<usize>(), 1_000);
    }
}

#[test]
fn leaves_of_halved_batches() {
    let line: Vec<Point> = (0..11).map(|id| Point { id, lat: 0, lon: id as i64 }).collect();
    let tree = KDTree::new(&line, 3, UNIT_RADIUS).unwrap();
    assert_eq!(tree.leaf_sizes(), vec![3, 3, 3, 2]);
    let tree = KDTree::new(&line, 1, UNIT_RADIUS).unwrap();
    assert_eq!(tree.leaf_sizes(), vec![1; 11]);
    let tree = KDTree::new(&line, 11, UNIT_RADIUS).unwrap();
    assert_eq!(tree.leaf_sizes(), vec![11]);
    let tree = KDTree::new(&line, 5, UNIT_RADIUS).unwrap();
    assert_eq!(tree.leaf_sizes(), vec![3, 3, 5]);
}

#[test]
fn neighbours_one_step_apart_are_told_apart() {
    // coordinates that differ by one nanoradian: every splitter lies strictly
    // between its neighbours, so that every box is answered exactly
    let line: Vec<Point> = (0..8).map(|id| Point { id, lat: id as i64, lon: 7 - id as i64 }).collect();
    for n_stop in 1..9 {
        let tree = KDTree::new(&line, n_stop, UNIT_RADIUS).unwrap();
        for low in -1..9 {
            for high in low..9 {
                let ids = tree.search_by_box(
                    &Point { id: 0, lat: low, lon: -1 },
                    &Point { id: 0, lat: high, lon: 8 },
                );
                let expected: Vec<usize> =
                    (0..8).filter(|&id| low <= id as i64 && id as i64 <= high).collect();
                assert_eq!(sorted(ids), expected);
                let ids = tree.search_by_box(
                    &Point { id: 0, lat: -1, lon: low },
                    &Point { id: 0, lat: 8, lon: high },
                );
                let expected: Vec<usize> =
                    (0..8).filter(|&id| low <= 7 - id as i64 && 7 - id as i64 <= high).collect();
                assert_eq!(sorted(ids), expected);
            }
        }
    }
}

#[test]
fn box_between_invalid_corners_is_empty() {
    let points = vec![at(0, 0.0, 0.0)];
    let tree = KDTree::new(&points, 1, UNIT_RADIUS).unwrap();
    let far = Point { id: 0, lat: HALF_PI_NRAD + 1, lon: PI_NRAD };
    let near = Point { id: 0, lat: -HALF_PI_NRAD, lon: -PI_NRAD };
    assert!(tree.search_by_box(&near, &far).is_empty());
    let far = Point { id: 0, lat: HALF_PI_NRAD, lon: PI_NRAD };
    assert_eq!(tree.search_by_box(&near, &far), vec![0]);
}

#[test]
fn a_disc_that_ends_on_the_antimeridian_stays_on_its_side() {
    // the point lies on the antimeridian under its western longitude; a disc
    // that ends exactly on the antimeridian is searched on its own side only
    let points = vec![Point { id: 0, lat: 0, lon: -PI_NRAD }, Point { id: 1, lat: 0, lon: PI_NRAD }];
    let tree = KDTree::new(&points, 1, UNIT_RADIUS).unwrap();
    let center = Point { id: 9, lat: 0, lon: PI_NRAD - 10_000_000 };
    let ids: Vec<usize> =
        tree.search_by_distance(&center, 10_000, 10_000_000).iter().map(|p| p.id).collect();
    assert_eq!(ids, vec![1]);
    let ids: Vec<usize> =
        tree.search_by_distance(&center, 10_000, 10_000_001).iter().map(|p| p.id).collect();
    assert_eq!(sorted(ids), vec![0, 1]);
}

#[test]
fn root_splits_half_way_between_the_points_around_the_median() {
    let line: Vec<Point> =
        (0..5).map(|id| Point { id, lat: 0, lon: 10 * id as i64 }).collect();
    let tree = KDTree::new(&line, 3, UNIT_RADIUS).unwrap();
    assert_eq!(tree.root_split(), Some((50, 1)));
    let tree = KDTree::new(&line, 5, UNIT_RADIUS).unwrap();
    assert_eq!(tree.root_split(), None);
    // odd sums are whole numbers of half nanoradians
    let column = vec![
        Point { id: 0, lat: -7, lon: 0 },
        Point { id: 1, lat: 4, lon: 1 },
        Point { id: 2, lat: -2, lon: 0 },
        Point { id: 3, lat: 9, lon: 1 },
    ];
    let tree = KDTree::new(&column, 2, UNIT_RADIUS).unwrap();
    assert_eq!(tree.root_split(), Some((2, 0)));
    let twins = vec![Point { id: 0, lat: 3, lon: -5 }, Point { id: 1, lat: 3, lon: -5 }];
    let tree = KDTree::new(&twins, 1, UNIT_RADIUS).unwrap();
    assert_eq!(tree.root_split(), Some((-10, 1)));
}

#[test]
fn variance_times_the_square_of_the_number() {
    assert_eq!(KDTree::calculate_variance(&vec![1, 2, 3]), 6);
    assert_eq!(KDTree::calculate_variance(&vec![5, 5, 5, 5]), 0);
    assert_eq!(KDTree::calculate_variance(&vec![-3, 3]), 36);
    assert_eq!(KDTree::calculate_variance(&vec![7]), 0);
    assert_eq!(KDTree::calculate_variance(&vec![]), 0);
    assert_eq!(
        KDTree::calculate_variance(&vec![PI_NRAD, -PI_NRAD]),
        4 * (PI_NRAD as i128) * (PI_NRAD as i128)
    );
}

#[test]
fn dimension_of_the_greater_variance() {
    let points = vec![
        Point { id: 0, lat: 0, lon: 0 },
        Point { id: 1, lat: 10, lon: 1 },
        Point { id: 2, lat: 20, lon: 50 },
        Point { id: 3, lat: 30, lon: 51 },
    ];
    assert_eq!(KDTree::choose_dimension(&points, &vec![0, 1, 2, 3]), 1);
    assert_eq!(KDTree::choose_dimension(&points, &vec![0, 1]), 0);
    assert_eq!(KDTree::choose_dimension(&points, &vec![2, 3]), 0);
    assert_eq!(KDTree::choose_dimension(&points, &vec![1, 2]), 1);
    assert_eq!(KDTree::choose_dimension(&points, &vec![0]), 1);
}
