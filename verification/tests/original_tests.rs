use lib::{
    bounding_box_2d, convex_hull_2d, coordinate_sums_2d, hamming_distance, lee_distance,
    manhattan_distance, point_on_segment, points_in_bbox, polygon_doubled_signed_area_2d,
    ternary_grid_area, ternary_grid_volume, voronoi_manhattan_2d, voronoi_manhattan_3d,
    TernaryLine, TernaryPoint,
};

fn polygon_area(points: &[TernaryPoint]) -> f64 {
    let doubled = polygon_doubled_signed_area_2d(points).unwrap();
    (doubled.abs() as f64) / 2.0
}

fn centroid(points: &[TernaryPoint]) -> (f64, f64) {
    if points.is_empty() {
        return (0.0, 0.0);
    }
    let (sx, sy) = coordinate_sums_2d(points).unwrap();
    let n = points.len() as f64;
    (sx as f64 / n, sy as f64 / n)
}

#[test]
fn test_point_creation() {
    let p = TernaryPoint::new(0, 1, 2);
    assert_eq!(p.x(), 0);
    assert_eq!(p.y(), 1);
    assert_eq!(p.z(), 2);
}

#[test]
fn test_manhattan_distance() {
    let a = TernaryPoint::new_2d(0, 0);
    let b = TernaryPoint::new_2d(2, 2);
    assert_eq!(manhattan_distance(&a, &b), 4);
}

#[test]
fn test_manhattan_same_point() {
    let a = TernaryPoint::new(1, 1, 1);
    assert_eq!(manhattan_distance(&a, &a), 0);
}

#[test]
fn test_lee_distance() {
    // On Z/3Z, distance between 0 and 2 is min(2, 1) = 1
    let a = TernaryPoint::new_2d(0, 0);
    let b = TernaryPoint::new_2d(2, 0);
    assert_eq!(lee_distance(&a, &b), 1);
}

#[test]
fn test_lee_distance_wrapping() {
    let a = TernaryPoint::new(0, 0, 0);
    let b = TernaryPoint::new(2, 2, 2);
    assert_eq!(lee_distance(&a, &b), 3); // 1+1+1
}

#[test]
fn test_hamming_distance() {
    let a = TernaryPoint::new(0, 1, 2);
    let b = TernaryPoint::new(0, 2, 2);
    assert_eq!(hamming_distance(&a, &b), 1);
}

#[test]
fn test_hamming_all_different() {
    let a = TernaryPoint::new(0, 0, 0);
    let b = TernaryPoint::new(1, 2, 1);
    assert_eq!(hamming_distance(&a, &b), 3);
}

#[test]
fn test_line_midpoint() {
    let line = TernaryLine::new(TernaryPoint::new_2d(0, 0), TernaryPoint::new_2d(2, 2));
    let mid = line.midpoint();
    assert_eq!(mid.x(), 1);
    assert_eq!(mid.y(), 1);
}

#[test]
fn test_voronoi_2d_single_seed() {
    let seeds = vec![TernaryPoint::new_2d(1, 1)];
    let result = voronoi_manhattan_2d(&seeds);
    assert_eq!(result.len(), 9);
    for (_, idx) in &result {
        assert_eq!(*idx, 0);
    }
}

#[test]
fn test_voronoi_3d_two_seeds() {
    let seeds = vec![TernaryPoint::new(0, 0, 0), TernaryPoint::new(2, 2, 2)];
    let result = voronoi_manhattan_3d(&seeds);
    assert_eq!(result.len(), 27);
    let count0 = result.iter().filter(|(_, i)| *i == 0).count();
    let count1 = result.iter().filter(|(_, i)| *i == 1).count();
    assert_eq!(count0 + count1, 27);
}

#[test]
fn test_convex_hull_square() {
    let pts = vec![
        TernaryPoint::new_2d(0, 0),
        TernaryPoint::new_2d(2, 0),
        TernaryPoint::new_2d(2, 2),
        TernaryPoint::new_2d(0, 2),
    ];
    let hull = convex_hull_2d(&pts);
    assert!(hull.len() >= 3);
}

#[test]
fn test_convex_hull_with_interior() {
    let pts = vec![
        TernaryPoint::new_2d(0, 0),
        TernaryPoint::new_2d(2, 0),
        TernaryPoint::new_2d(2, 2),
        TernaryPoint::new_2d(0, 2),
        TernaryPoint::new_2d(1, 1), // interior point
    ];
    let hull = convex_hull_2d(&pts);
    // Interior point should not be in hull
    assert!(!hull.contains(&4));
}

#[test]
fn test_polygon_area_square() {
    let pts = vec![
        TernaryPoint::new_2d(0, 0),
        TernaryPoint::new_2d(2, 0),
        TernaryPoint::new_2d(2, 2),
        TernaryPoint::new_2d(0, 2),
    ];
    let area = polygon_area(&pts);
    assert_eq!(area, 4.0);
}

#[test]
fn test_polygon_area_triangle() {
    let pts = vec![
        TernaryPoint::new_2d(0, 0),
        TernaryPoint::new_2d(2, 0),
        TernaryPoint::new_2d(1, 2),
    ];
    let area = polygon_area(&pts);
    assert_eq!(area, 2.0);
}

#[test]
fn test_grid_volume_and_area() {
    assert_eq!(ternary_grid_volume(), 27);
    assert_eq!(ternary_grid_area(), 9);
}

#[test]
fn test_bounding_box() {
    let pts = vec![
        TernaryPoint::new_2d(0, 2),
        TernaryPoint::new_2d(2, 0),
        TernaryPoint::new_2d(1, 1),
    ];
    let ((min_x, min_y), (max_x, max_y)) = bounding_box_2d(&pts);
    assert_eq!((min_x, min_y), (0, 0));
    assert_eq!((max_x, max_y), (2, 2));
}

#[test]
fn test_points_in_bbox() {
    let pts = points_in_bbox((0, 0), (1, 1));
    assert_eq!(pts.len(), 4);
}

#[test]
fn test_centroid() {
    let pts = vec![TernaryPoint::new_2d(0, 0), TernaryPoint::new_2d(2, 2)];
    let (cx, cy) = centroid(&pts);
    assert_eq!(cx, 1.0);
    assert_eq!(cy, 1.0);
}

#[test]
fn test_point_on_segment() {
    let line = TernaryLine::new(TernaryPoint::new_2d(0, 0), TernaryPoint::new_2d(2, 0));
    assert!(point_on_segment(&TernaryPoint::new_2d(1, 0), &line));
    assert!(!point_on_segment(&TernaryPoint::new_2d(1, 1), &line));
}

#[test]
fn test_all_2d_count() {
    assert_eq!(TernaryPoint::all_2d().len(), 9);
}

#[test]
fn test_all_3d_count() {
    assert_eq!(TernaryPoint::all_3d().len(), 27);
}
