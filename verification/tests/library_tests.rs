use lib::{
    bounding_box_2d, convex_hull_2d, coordinate_sums_2d, hamming_distance, lee_distance,
    manhattan_distance, point_on_segment, points_in_bbox, polygon_doubled_signed_area_2d,
    ternary_grid_area, ternary_grid_volume, voronoi_lee_3d, voronoi_manhattan_2d,
    voronoi_manhattan_3d, TernaryLine, TernaryPoint,
};

fn pt(x: u8, y: u8, z: u8) -> TernaryPoint {
    TernaryPoint { coords: [x, y, z] }
}

fn cross(o: &TernaryPoint, a: &TernaryPoint, b: &TernaryPoint) -> i32 {
    (a.x() as i32 - o.x() as i32) * (b.y() as i32 - o.y() as i32)
        - (a.y() as i32 - o.y() as i32) * (b.x() as i32 - o.x() as i32)
}

#[test]
fn new_2d_puts_point_in_plane_z0() {
    let p = TernaryPoint::new_2d(2, 1);
    assert_eq!(p.coords, [2, 1, 0]);
}

#[test]
fn all_2d_lists_grid_in_row_major_order() {
    let pts = TernaryPoint::all_2d();
    for (k, p) in pts.iter().enumerate() {
        assert_eq!(p.coords, [(k / 3) as u8, (k % 3) as u8, 0]);
    }
}

#[test]
fn all_3d_lists_every_ternary_point_once() {
    let pts = TernaryPoint::all_3d();
    for (k, p) in pts.iter().enumerate() {
        assert_eq!(p.coords, [(k / 9) as u8, ((k / 3) % 3) as u8, (k % 3) as u8]);
    }
    for i in 0..pts.len() {
        for j in 0..pts.len() {
            assert_eq!(i == j, pts[i] == pts[j]);
        }
    }
    assert_eq!(pts.len() as u32, ternary_grid_volume());
    assert_eq!(TernaryPoint::all_2d().len() as u32, ternary_grid_area());
}

#[test]
fn manhattan_is_a_metric_on_the_grid() {
    let pts = TernaryPoint::all_3d();
    for a in &pts {
        for b in &pts {
            assert_eq!(manhattan_distance(a, b), manhattan_distance(b, a));
            assert_eq!(manhattan_distance(a, b) == 0, a == b);
            for c in &pts {
                assert!(manhattan_distance(a, c) <= manhattan_distance(a, b) + manhattan_distance(b, c));
            }
        }
    }
}

#[test]
fn manhattan_exact_values() {
    assert_eq!(manhattan_distance(&pt(0, 1, 2), &pt(2, 1, 0)), 4);
    assert_eq!(manhattan_distance(&pt(255, 0, 255), &pt(0, 255, 0)), 765);
}

#[test]
fn lee_equals_hamming_between_ternary_points() {
    let pts = TernaryPoint::all_3d();
    for a in &pts {
        for b in &pts {
            assert_eq!(lee_distance(a, b), hamming_distance(a, b));
            assert!(lee_distance(a, b) <= manhattan_distance(a, b));
            assert!(hamming_distance(a, b) <= manhattan_distance(a, b));
            assert!(manhattan_distance(a, b) <= 2 * hamming_distance(a, b));
        }
    }
}

#[test]
fn lee_wraps_a_difference_of_three_to_zero() {
    assert_eq!(lee_distance(&pt(3, 0, 0), &pt(0, 0, 0)), 0);
    assert_eq!(lee_distance(&pt(5, 4, 0), &pt(2, 2, 0)), 1);
}

#[test]
fn hamming_counts_differing_coordinates() {
    assert_eq!(hamming_distance(&pt(7, 1, 2), &pt(7, 1, 2)), 0);
    assert_eq!(hamming_distance(&pt(7, 1, 2), &pt(8, 1, 3)), 2);
}

#[test]
fn line_lengths_match_distances() {
    let line = TernaryLine::new(pt(0, 0, 0), pt(2, 2, 2));
    assert_eq!(line.manhattan_length(), 6);
    assert_eq!(line.lee_length(), 3);
}

#[test]
fn midpoint_rounds_down_and_caps_at_two() {
    let m = TernaryLine::new(pt(0, 0, 0), pt(1, 1, 1)).midpoint();
    assert_eq!(m.coords, [0, 0, 0]);
    let m = TernaryLine::new(pt(2, 2, 2), pt(2, 2, 2)).midpoint();
    assert_eq!(m.coords, [2, 2, 2]);
    let m = TernaryLine::new(pt(10, 0, 1), pt(0, 2, 2)).midpoint();
    assert_eq!(m.coords, [2, 1, 1]);
}

#[test]
fn segment_endpoints_and_direction() {
    let pts = TernaryPoint::all_2d();
    for s in &pts {
        for e in &pts {
            let fwd = TernaryLine::new(*s, *e);
            let back = TernaryLine::new(*e, *s);
            assert!(point_on_segment(s, &fwd));
            assert!(point_on_segment(e, &fwd));
            for p in &pts {
                assert_eq!(point_on_segment(p, &fwd), point_on_segment(p, &back));
            }
        }
    }
}

#[test]
fn collinear_point_beyond_segment_is_not_on_it() {
    let line = TernaryLine::new(pt(0, 0, 0), pt(1, 0, 0));
    assert!(!point_on_segment(&pt(2, 0, 0), &line));
    let diag = TernaryLine::new(pt(0, 0, 0), pt(2, 2, 0));
    assert!(point_on_segment(&pt(1, 1, 0), &diag));
}

#[test]
fn voronoi_ties_go_to_first_seed() {
    let seeds = vec![pt(1, 1, 0), pt(1, 1, 0)];
    for (_, idx) in voronoi_manhattan_2d(&seeds) {
        assert_eq!(idx, 0);
    }
    // (1, 0, 0) is at distance 1 from both seeds.
    let seeds = vec![pt(0, 0, 0), pt(2, 0, 0)];
    let result = voronoi_manhattan_2d(&seeds);
    assert_eq!(result[3].0.coords, [1, 0, 0]);
    assert_eq!(result[3].1, 0);
    assert_eq!(result[6].1, 1);
}

#[test]
fn voronoi_assigns_each_point_to_a_nearest_seed() {
    let seeds = vec![pt(0, 0, 0), pt(2, 2, 2), pt(1, 2, 0), pt(2, 0, 1)];
    let result = voronoi_manhattan_3d(&seeds);
    let lee = voronoi_lee_3d(&seeds);
    let grid = TernaryPoint::all_3d();
    for k in 0..27 {
        assert_eq!(result[k].0, grid[k]);
        assert_eq!(lee[k].0, grid[k]);
        let d = manhattan_distance(&grid[k], &seeds[result[k].1]);
        let dl = lee_distance(&grid[k], &seeds[lee[k].1]);
        for (j, s) in seeds.iter().enumerate() {
            assert!(d <= manhattan_distance(&grid[k], s));
            assert!(dl <= lee_distance(&grid[k], s));
            if j < result[k].1 {
                assert!(d < manhattan_distance(&grid[k], s));
            }
            if j < lee[k].1 {
                assert!(dl < lee_distance(&grid[k], s));
            }
        }
    }
    // A seed owns its own grid point.
    assert_eq!(result[0].1, 0);
    assert_eq!(result[26].1, 1);
}

#[test]
fn voronoi_lee_wraps_around() {
    // Under Lee distance 0 and 2 are neighbours, so (0, 0, 0) is nearer to (2, 2, 2)
    // than to (1, 1, 1) would suggest under Manhattan distance.
    let seeds = vec![pt(1, 1, 1), pt(2, 2, 2)];
    let lee = voronoi_lee_3d(&seeds);
    let man = voronoi_manhattan_3d(&seeds);
    assert_eq!(man[0].1, 0);
    assert_eq!(lee[0].1, 0); // both at Lee distance 3: tie to the first seed
    let seeds = vec![pt(1, 1, 0), pt(2, 2, 2)];
    let lee = voronoi_lee_3d(&seeds);
    assert_eq!(lee[2].0.coords, [0, 0, 2]);
    assert_eq!(lee[2].1, 1);
}

#[test]
fn convex_hull_small_inputs() {
    assert!(convex_hull_2d(&[]).is_empty());
    assert_eq!(convex_hull_2d(&[pt(1, 1, 0)]), vec![0]);
    assert_eq!(convex_hull_2d(&[pt(1, 1, 0), pt(0, 0, 0)]), vec![0, 1]);
}

#[test]
fn convex_hull_exact_orders() {
    let square = vec![pt(0, 0, 0), pt(2, 0, 0), pt(2, 2, 0), pt(0, 2, 0)];
    assert_eq!(convex_hull_2d(&square), vec![0, 3, 2, 1]);
    let mut with_center = square.clone();
    with_center.push(pt(1, 1, 0));
    assert_eq!(convex_hull_2d(&with_center), vec![0, 3, 2, 1]);
    assert_eq!(convex_hull_2d(&[pt(0, 0, 0), pt(1, 1, 0), pt(2, 2, 0)]), vec![0, 2]);
    assert_eq!(convex_hull_2d(&[pt(1, 1, 0), pt(1, 1, 0), pt(1, 1, 0)]), vec![0, 1]);
    assert_eq!(
        convex_hull_2d(&[pt(2, 2, 0), pt(0, 0, 0), pt(1, 1, 0), pt(0, 2, 0)]),
        vec![1, 3, 0]
    );
    assert_eq!(convex_hull_2d(&TernaryPoint::all_2d()), vec![0, 2, 8, 6]);
}

#[test]
fn convex_hull_edges_keep_every_point_right_on_all_grid_subsets() {
    let grid = TernaryPoint::all_2d();
    for mask in 0u32..512 {
        let pts: Vec<TernaryPoint> =
            (0..9).filter(|i| mask & (1 << i) != 0).map(|i| grid[i]).collect();
        if pts.len() < 3 {
            continue;
        }
        let hull = convex_hull_2d(&pts);
        assert!(!hull.is_empty() && hull.len() <= pts.len() + 1);
        for w in hull.windows(2) {
            assert_ne!(w[0], w[1]);
            for p in &pts {
                assert!(cross(&pts[w[0]], &pts[w[1]], p) <= 0);
            }
        }
        // A point with points strictly on both sides of every line through it never
        // appears: check the grid centre when all four corners are present.
        let centre = pts.iter().position(|p| p.coords == [1, 1, 0]);
        let corners = [[0, 0, 0], [2, 0, 0], [2, 2, 0], [0, 2, 0]];
        if let Some(c) = centre {
            if corners.iter().all(|q| pts.iter().any(|p| p.coords == *q)) {
                assert!(!hull.contains(&c));
            }
        }
    }
}

#[test]
fn polygon_doubled_area_signs_and_small_inputs() {
    let ccw = vec![pt(0, 0, 0), pt(2, 0, 0), pt(2, 2, 0), pt(0, 2, 0)];
    let cw = vec![pt(0, 0, 0), pt(0, 2, 0), pt(2, 2, 0), pt(2, 0, 0)];
    assert_eq!(polygon_doubled_signed_area_2d(&ccw), Some(8));
    assert_eq!(polygon_doubled_signed_area_2d(&cw), Some(-8));
    assert_eq!(polygon_doubled_signed_area_2d(&ccw[..2]), Some(0));
    assert_eq!(polygon_doubled_signed_area_2d(&[]), Some(0));
    let tri = vec![pt(0, 0, 0), pt(2, 0, 0), pt(1, 2, 0)];
    assert_eq!(polygon_doubled_signed_area_2d(&tri), Some(4));
}

#[test]
fn polygon_doubled_area_reports_overflow() {
    let big_square = [pt(0, 0, 0), pt(255, 0, 0), pt(255, 255, 0), pt(0, 255, 0)];
    // Each lap around adds 2 * 255 * 255; 16600 laps exceed the i32 range.
    let pts: Vec<TernaryPoint> = big_square.iter().cycle().take(4 * 16600).cloned().collect();
    assert_eq!(polygon_doubled_signed_area_2d(&pts), None);
    let pts: Vec<TernaryPoint> = big_square.iter().cycle().take(4 * 1000).cloned().collect();
    assert_eq!(polygon_doubled_signed_area_2d(&pts), Some(1000 * 2 * 255 * 255));
}

#[test]
fn coordinate_sums_exact_and_overflow() {
    let pts = vec![pt(0, 2, 1), pt(2, 1, 1), pt(1, 1, 9)];
    assert_eq!(coordinate_sums_2d(&pts), Some((3, 4)));
    assert_eq!(coordinate_sums_2d(&[]), Some((0, 0)));
    let many = vec![pt(255, 0, 0); 16_843_010];
    assert_eq!(coordinate_sums_2d(&many), None);
    let many_y = vec![pt(0, 255, 0); 16_843_010];
    assert_eq!(coordinate_sums_2d(&many_y), None);
    let just_fits = vec![pt(255, 255, 0); 16_843_009];
    assert_eq!(coordinate_sums_2d(&just_fits), Some((u32::MAX, u32::MAX)));
}

#[test]
fn bounding_box_defaults_and_non_ternary_points() {
    assert_eq!(bounding_box_2d(&[]), ((2, 2), (0, 0)));
    assert_eq!(bounding_box_2d(&[pt(1, 1, 0)]), ((1, 1), (1, 1)));
    assert_eq!(bounding_box_2d(&[pt(7, 0, 0), pt(3, 9, 0)]), ((2, 0), (7, 9)));
}

#[test]
fn points_in_bbox_exact_contents() {
    let pts = points_in_bbox((0, 1), (1, 2));
    let coords: Vec<[u8; 3]> = pts.iter().map(|p| p.coords).collect();
    assert_eq!(coords, vec![[0, 1, 0], [0, 2, 0], [1, 1, 0], [1, 2, 0]]);
    assert_eq!(points_in_bbox((0, 0), (255, 255)).len(), 9);
    assert!(points_in_bbox((2, 0), (1, 2)).is_empty());
    assert!(points_in_bbox((200, 0), (255, 2)).is_empty());
    assert!(points_in_bbox((0, 3), (2, 255)).is_empty());
}

#[test]
fn bounding_box_covers_its_points() {
    let pts = vec![pt(0, 2, 1), pt(2, 1, 0), pt(1, 1, 2)];
    let (min, max) = bounding_box_2d(&pts);
    let inside = points_in_bbox(min, max);
    for p in &pts {
        assert!(inside.iter().any(|q| q.coords == [p.x(), p.y(), 0]));
    }
}

#[test]
fn quick_start_distances() {
    let a = TernaryPoint::new_2d(0, 0);
    let b = TernaryPoint::new_2d(2, 2);
    assert_eq!(manhattan_distance(&a, &b), 4);
    assert_eq!(lee_distance(&a, &b), 2);
    assert_eq!(hamming_distance(&a, &b), 2);
    let line = TernaryLine::new(a, b);
    assert_eq!(line.midpoint().coords, [1, 1, 0]);
    assert!(point_on_segment(&TernaryPoint::new_2d(1, 1), &line));
}

fn between(a: &TernaryPoint, b: &TernaryPoint, p: &TernaryPoint) -> bool {
    cross(a, b, p) == 0
        && p.x().min(a.x().min(b.x())) == a.x().min(b.x())
        && p.x().max(a.x().max(b.x())) == a.x().max(b.x())
        && p.y().min(a.y().min(b.y())) == a.y().min(b.y())
        && p.y().max(a.y().max(b.y())) == a.y().max(b.y())
}

fn in_closed_triangle(a: &TernaryPoint, b: &TernaryPoint, c: &TernaryPoint, p: &TernaryPoint) -> bool {
    let (d1, d2, d3) = (cross(a, b, p), cross(b, c, p), cross(c, a, p));
    cross(a, b, c) != 0 && ((d1 >= 0 && d2 >= 0 && d3 >= 0) || (d1 <= 0 && d2 <= 0 && d3 <= 0))
}

fn is_extreme(pts: &[TernaryPoint], i: usize) -> bool {
    let others: Vec<usize> = (0..pts.len()).filter(|&j| j != i).collect();
    for &a in &others {
        for &b in &others {
            if a != b && between(&pts[a], &pts[b], &pts[i]) {
                return false;
            }
            for &c in &others {
                if a != b && b != c && a != c && in_closed_triangle(&pts[a], &pts[b], &pts[c], &pts[i]) {
                    return false;
                }
            }
        }
    }
    true
}

#[test]
fn convex_hull_is_exactly_the_extreme_points_on_all_grid_subsets() {
    let grid = TernaryPoint::all_2d();
    for mask in 0u32..512 {
        let pts: Vec<TernaryPoint> =
            (0..9).filter(|i| mask & (1 << i) != 0).map(|i| grid[i]).collect();
        if pts.len() < 3 {
            continue;
        }
        let hull = convex_hull_2d(&pts);
        assert!(hull.len() <= pts.len());
        for i in 0..hull.len() {
            for j in 0..hull.len() {
                assert_eq!(i == j, hull[i] == hull[j]);
            }
        }
        for i in 0..pts.len() {
            assert_eq!(hull.contains(&i), is_extreme(&pts, i));
        }
    }
}
