use geo_reproject::coordinates::{Coordinate, Line, Polygon};
use geo_reproject::simplification::{ring_path, DouglasPeucker};

fn c(x: f64, y: f64) -> Coordinate {
    Coordinate::new(x.to_bits(), y.to_bits())
}

fn pair(c: &Coordinate) -> (f64, f64) {
    (f64::from_bits(c.x), f64::from_bits(c.y))
}

fn perpendicular_distance(p: (f64, f64), a: (f64, f64), b: (f64, f64)) -> f64 {
    let dx = b.0 - a.0;
    let dy = b.1 - a.1;
    let numerator = (dy * p.0 - dx * p.1 + b.0 * a.1 - b.1 * a.0).abs();
    let denominator = (dx * dx + dy * dy).sqrt();
    if denominator == 0.0 {
        0.0
    } else {
        numerator / denominator
    }
}

/// Runs a simplification to the end, measuring each segment in `f64`.
fn run(points: &Vec<Coordinate>, epsilon: f64) -> DouglasPeucker {
    let mut dp = DouglasPeucker::new(points.len(), epsilon.to_bits());
    while let Some((lo, hi)) = dp.next_segment() {
        let a = pair(&points[lo]);
        let b = pair(&points[hi]);
        let mut max_dist = 0.0;
        let mut max_idx = lo;
        for i in lo + 1..hi {
            let d = perpendicular_distance(pair(&points[i]), a, b);
            if d > max_dist {
                max_dist = d;
                max_idx = i;
            }
        }
        dp.resolve(if max_dist > epsilon { Some(max_idx) } else { None });
    }
    dp
}

fn simplify_line(points: &[(f64, f64)], epsilon: f64) -> Vec<(f64, f64)> {
    let coords: Vec<Coordinate> = points.iter().map(|&(x, y)| c(x, y)).collect();
    let dp = run(&coords, epsilon);
    dp.select(&coords).iter().map(pair).collect()
}

fn polygon(exterior: &[(f64, f64)], holes: &[&[(f64, f64)]]) -> Polygon {
    Polygon::new(
        Line::new(exterior.iter().map(|&(x, y)| c(x, y)).collect()),
        holes
            .iter()
            .map(|h| Line::new(h.iter().map(|&(x, y)| c(x, y)).collect()))
            .collect(),
    )
}

fn simplify_polygon(p: &Polygon, epsilon: f64) -> Polygon {
    let exterior = run(&ring_path(&p.exterior.coordinates), epsilon);
    let holes: Vec<DouglasPeucker> = p
        .interiors
        .iter()
        .map(|h| run(&ring_path(&h.coordinates), epsilon))
        .collect();
    p.simplified(&exterior, &holes)
}

fn pairs(l: &Line) -> Vec<(f64, f64)> {
    l.coordinates.iter().map(pair).collect()
}

fn assert_same_polygon(a: &Polygon, b: &Polygon) {
    assert_eq!(a.exterior.coordinates, b.exterior.coordinates);
    assert_eq!(a.interiors.len(), b.interiors.len());
    for (x, y) in a.interiors.iter().zip(b.interiors.iter()) {
        assert_eq!(x.coordinates, y.coordinates);
    }
}

const WAVE: [(f64, f64); 5] = [(0.0, 0.0), (1.0, 0.1), (2.0, 0.0), (3.0, 0.1), (4.0, 0.0)];
const SQUARE: [(f64, f64); 5] = [(0.0, 0.0), (1.0, 0.1), (1.0, 1.0), (0.1, 1.0), (0.0, 0.0)];

#[test]
fn test_line_string_simplification() {
    let simplified = simplify_line(&WAVE, 0.1);
    assert_eq!(simplified, vec![(0.0, 0.0), (4.0, 0.0)]);

    let simplified = simplify_line(&WAVE, 0.2);
    assert!(simplified.len() < WAVE.len());
    assert!(simplified.len() >= 2);
}

#[test]
fn wave_collapses_to_its_ends() {
    assert_eq!(simplify_line(&WAVE, 0.2), vec![(0.0, 0.0), (4.0, 0.0)]);
}

#[test]
fn simplifying_twice_removes_nothing_more() {
    let line = [(0.0, 0.0), (1.0, 2.0), (2.0, 0.1), (3.0, 2.5), (4.0, 0.0), (5.0, 0.05)];
    let once = simplify_line(&line, 0.5);
    let twice = simplify_line(&once, 0.5);
    assert_eq!(once, twice);
}

#[test]
fn distant_point_is_kept() {
    let line = [(0.0, 0.0), (1.0, 0.05), (2.0, 3.0), (3.0, 0.05), (4.0, 0.0)];
    assert_eq!(
        simplify_line(&line, 1.0),
        vec![(0.0, 0.0), (2.0, 3.0), (4.0, 0.0)]
    );
}

#[test]
fn short_lines_are_unchanged() {
    assert_eq!(simplify_line(&[], 1.0), vec![]);
    assert_eq!(simplify_line(&[(1.0, 1.0)], 1.0), vec![(1.0, 1.0)]);
    assert_eq!(
        simplify_line(&[(1.0, 1.0), (5.0, 5.0)], 1.0),
        vec![(1.0, 1.0), (5.0, 5.0)]
    );
}

#[test]
fn test_simplification_with_zero_epsilon() {
    let line = [(0.0, 0.0), (1.0, 0.1), (2.0, 0.0)];
    assert_eq!(simplify_line(&line, 0.0), line.to_vec());
}

#[test]
fn test_simplification_with_negative_epsilon() {
    let line = [(0.0, 0.0), (1.0, 0.1), (2.0, 0.0)];
    assert_eq!(simplify_line(&line, -1.0), line.to_vec());
}

#[test]
fn negative_zero_epsilon_keeps_everything() {
    let dp = DouglasPeucker::new(4, (-0.0f64).to_bits());
    assert!(dp.is_done());
    assert_eq!(dp.next_segment(), None);
}

#[test]
fn nan_epsilon_collapses_to_ends() {
    assert_eq!(simplify_line(&WAVE, f64::NAN), vec![(0.0, 0.0), (4.0, 0.0)]);
}

#[test]
fn machine_splits_at_the_given_point() {
    let mut dp = DouglasPeucker::new(7, 1.0f64.to_bits());
    assert_eq!(dp.len(), 7);
    assert_eq!(dp.next_segment(), Some((0, 6)));
    dp.resolve(Some(3));
    assert_eq!(dp.next_segment(), Some((3, 6)));
    dp.resolve(None);
    assert_eq!(dp.next_segment(), Some((0, 3)));
    dp.resolve(Some(1));
    assert_eq!(dp.next_segment(), Some((1, 3)));
    dp.resolve(None);
    assert!(dp.is_done());
    let points: Vec<Coordinate> = (0..7).map(|i| c(i as f64, 0.0)).collect();
    let kept: Vec<(f64, f64)> = dp.select(&points).iter().map(pair).collect();
    assert_eq!(kept, vec![(0.0, 0.0), (1.0, 0.0), (3.0, 0.0), (6.0, 0.0)]);
}

#[test]
fn test_polygon_simplification() {
    let p = polygon(&SQUARE, &[]);
    let simplified = simplify_polygon(&p, 0.1);
    assert_same_polygon(&p, &simplified);

    let simplified = simplify_polygon(&p, 0.2);
    assert_eq!(simplified.exterior.coordinates.len(), p.exterior.coordinates.len());
    assert!(simplified.exterior.coordinates.len() >= 3);
}

#[test]
fn test_multi_line_string_simplification() {
    let line1 = [(0.0, 0.0), (1.0, 0.1), (2.0, 0.0)];
    let line2 = [(3.0, 0.0), (4.0, 0.1), (5.0, 0.0)];
    assert_eq!(simplify_line(&line1, 0.1), vec![(0.0, 0.0), (2.0, 0.0)]);
    assert_eq!(simplify_line(&line2, 0.1), vec![(3.0, 0.0), (5.0, 0.0)]);

    assert!(simplify_line(&line1, 0.2).len() >= 2);
    assert!(simplify_line(&line2, 0.2).len() >= 2);
}

#[test]
fn test_multi_polygon_simplification() {
    let second = [(2.0, 2.0), (3.0, 2.1), (3.0, 3.0), (2.1, 3.0), (2.0, 2.0)];
    let polys = [polygon(&SQUARE, &[]), polygon(&second, &[])];
    for p in polys.iter() {
        assert_same_polygon(p, &simplify_polygon(p, 0.1));
        let simplified = simplify_polygon(p, 0.2);
        assert_eq!(simplified.exterior.coordinates.len(), 5);
        assert!(simplified.exterior.coordinates.len() >= 3);
    }
}

#[test]
fn collapsed_exterior_keeps_the_polygon() {
    let thin = [(0.0, 0.0), (1.0, 0.01), (0.0, 0.0), (0.0, 0.0)];
    let hole = [(0.5, 0.001), (0.6, 0.002), (0.7, 0.001), (0.5, 0.001)];
    let p = polygon(&thin, &[&hole]);
    let simplified = simplify_polygon(&p, 5.0);
    assert_same_polygon(&p, &simplified);
}

#[test]
fn degenerate_exterior_keeps_the_polygon() {
    let sliver = [(0.0, 0.0), (1.0, 0.01), (2.0, 0.0), (0.0, 0.0)];
    let p = polygon(&sliver, &[]);
    assert_same_polygon(&p, &simplify_polygon(&p, 5.0));
    let triangle = [(0.0, 0.0), (4.0, 0.0), (0.0, 4.0), (0.0, 0.0)];
    let t = polygon(&triangle, &[]);
    assert_same_polygon(&t, &simplify_polygon(&t, 0.5));
}

#[test]
fn exterior_keeps_three_vertices() {
    let ring = [(0.0, 0.0), (2.0, 0.01), (4.0, 0.0), (4.0, 4.0), (0.0, 4.0), (0.0, 0.0)];
    let simplified = simplify_polygon(&polygon(&ring, &[]), 0.5);
    assert_eq!(
        pairs(&simplified.exterior),
        vec![(0.0, 0.0), (4.0, 0.0), (4.0, 4.0), (0.0, 4.0), (0.0, 0.0)]
    );
}

#[test]
fn exterior_stays_a_closed_ring() {
    let square = [(0.0, 0.0), (4.0, 0.0), (4.0, 4.0), (0.0, 4.0), (0.0, 0.0)];
    let simplified = simplify_polygon(&polygon(&square, &[]), 100.0);
    let ring = pairs(&simplified.exterior);
    assert_eq!(ring, square.to_vec());
    assert!(ring.len() >= 3);
    assert_eq!(ring.first(), ring.last());
}

#[test]
fn only_holes_below_three_positions_disappear() {
    let big = [(0.0, 0.0), (10.0, 0.0), (10.0, 10.0), (0.0, 10.0), (0.0, 0.0)];
    let flat_hole = [(2.0, 2.0), (3.0, 2.01), (2.0, 2.0), (2.0, 2.0)];
    let sliver_hole = [(2.0, 2.0), (3.0, 2.01), (4.0, 2.0), (2.0, 2.0)];
    let tiny_hole = [(5.0, 5.0), (6.0, 6.0)];
    let real_hole = [(6.0, 6.0), (8.0, 6.0), (8.0, 8.0), (6.0, 8.0), (6.0, 6.0)];
    let p = polygon(&big, &[&flat_hole, &sliver_hole, &tiny_hole, &real_hole]);
    let simplified = simplify_polygon(&p, 0.5);
    assert_eq!(pairs(&simplified.exterior), big.to_vec());
    assert_eq!(simplified.interiors.len(), 2);
    assert_eq!(
        pairs(&simplified.interiors[0]),
        vec![(2.0, 2.0), (4.0, 2.0), (2.0, 2.0)]
    );
    assert_eq!(pairs(&simplified.interiors[1]), real_hole.to_vec());
}

#[test]
fn ring_path_drops_the_closing_point() {
    let ring: Vec<Coordinate> = SQUARE.iter().map(|&(x, y)| c(x, y)).collect();
    let path = ring_path(&ring);
    assert_eq!(path.len(), 4);
    assert_eq!(path[..], ring[..4]);
    let two = vec![c(0.0, 0.0), c(0.0, 0.0)];
    assert_eq!(ring_path(&two).len(), 2);
}

#[test]
fn hole_on_its_chord_is_kept_with_three_positions() {
    let square = [(0.0, 0.0), (10.0, 0.0), (10.0, 10.0), (0.0, 10.0), (0.0, 0.0)];
    let hole = [(0.0, 0.0), (1.0, 0.0), (2.0, 0.0), (0.0, 0.0)];
    let simplified = simplify_polygon(&polygon(&square, &[&hole]), 0.5);
    assert_eq!(simplified.interiors.len(), 1);
    assert_eq!(
        pairs(&simplified.interiors[0]),
        vec![(0.0, 0.0), (2.0, 0.0), (0.0, 0.0)]
    );
}
