//! Regions of the planar ternary grid: the whole grid, bounding boxes and the grid
//! points inside a box.

use vstd::prelude::*;

use crate::line::min_int;
use crate::point::{
    grid_point_2d, grid_point_3d, lemma_grid_2d_enumerates, lemma_grid_3d_enumerates, TernaryPoint,
};

verus! {

/// The volume of the 3x3x3 ternary cube.
pub open spec fn grid_volume() -> int {
    27
}

/// The area of the 3x3 ternary square.
pub open spec fn grid_area() -> int {
    9
}

/// Compute the volume of the ternary cube (always 27 for the full 3x3x3 grid).
pub fn ternary_grid_volume() -> (v: u32)
    ensures
        v == grid_volume(),
{
    27
}

/// Compute the area of the full ternary 2D grid (always 9).
pub fn ternary_grid_area() -> (a: u32)
    ensures
        a == grid_area(),
{
    9
}

/// Coordinate `axis` (0 for x, 1 for y, 2 for z) of a point.
pub open spec fn axis_coord(p: (u8, u8, u8), axis: int) -> u8 {
    if axis == 0 {
        p.0
    } else if axis == 1 {
        p.1
    } else {
        p.2
    }
}

/// The least `axis` coordinate among the first `k` points and `bound`.
pub open spec fn least_coord(pts: Seq<TernaryPoint>, axis: int, bound: u8, k: nat) -> u8
    decreases k,
{
    if k == 0 {
        bound
    } else {
        let m = least_coord(pts, axis, bound, (k - 1) as nat);
        let c = axis_coord(pts[k - 1]@, axis);
        if c < m {
            c
        } else {
            m
        }
    }
}

/// The greatest `axis` coordinate among the first `k` points and `bound`.
pub open spec fn greatest_coord(pts: Seq<TernaryPoint>, axis: int, bound: u8, k: nat) -> u8
    decreases k,
{
    if k == 0 {
        bound
    } else {
        let m = greatest_coord(pts, axis, bound, (k - 1) as nat);
        let c = axis_coord(pts[k - 1]@, axis);
        if c > m {
            c
        } else {
            m
        }
    }
}

/// The bounding box of a set of points: the corner `(min_x, min_y)`, taken no larger
/// than `(2, 2)`, and the corner `(max_x, max_y)`, taken no smaller than `(0, 0)`.
pub open spec fn bounding_box(pts: Seq<TernaryPoint>) -> ((u8, u8), (u8, u8)) {
    (
        (least_coord(pts, 0, 2, pts.len()), least_coord(pts, 1, 2, pts.len())),
        (greatest_coord(pts, 0, 0, pts.len()), greatest_coord(pts, 1, 0, pts.len())),
    )
}

/// Bounding box of a set of ternary points (2D).
/// Returns ((min_x, min_y), (max_x, max_y)).
pub fn bounding_box_2d(points: &[TernaryPoint]) -> (b: ((u8, u8), (u8, u8)))
    ensures
        b == bounding_box(points@),
{
    let mut min_x: u8 = 2;
    let mut min_y: u8 = 2;
    let mut max_x: u8 = 0;
    let mut max_y: u8 = 0;
    let mut i: usize = 0;
    while i < points.len()
        invariant
            i <= points.len(),
            min_x == least_coord(points@, 0, 2, i as nat),
            min_y == least_coord(points@, 1, 2, i as nat),
            max_x == greatest_coord(points@, 0, 0, i as nat),
            max_y == greatest_coord(points@, 1, 0, i as nat),
        decreases points.len() - i,
    {
        let x = points[i].x();
        let y = points[i].y();
        if x < min_x {
            min_x = x;
        }
        if y < min_y {
            min_y = y;
        }
        if x > max_x {
            max_x = x;
        }
        if y > max_y {
            max_y = y;
        }
        i += 1;
    }
    ((min_x, min_y), (max_x, max_y))
}

/// The grid points `(x, y, 0)` for `y` from `ylo` up to `yhi`, no further than 2.
pub open spec fn bbox_row(x: int, ylo: int, yhi: int) -> Seq<(u8, u8, u8)> {
    let top = min_int(yhi, 2);
    Seq::new(
        if ylo <= top {
            (top - ylo + 1) as nat
        } else {
            0
        },
        |j: int| (x as u8, (ylo + j) as u8, 0u8),
    )
}

/// The rows of grid points for `x` from `xlo` up to `xhi`, in order.
pub open spec fn bbox_rows(xlo: int, xhi: int, ylo: int, yhi: int) -> Seq<(u8, u8, u8)>
    decreases xhi - xlo + 1,
{
    if xhi < xlo {
        Seq::empty()
    } else {
        bbox_rows(xlo, xhi - 1, ylo, yhi) + bbox_row(xhi, ylo, yhi)
    }
}

/// The planar grid points inside the box from `min` to `max` (inclusive), x-major.
pub open spec fn bbox_points(min: (u8, u8), max: (u8, u8)) -> Seq<(u8, u8, u8)> {
    bbox_rows(min.0 as int, min_int(max.0 as int, 2), min.1 as int, max.1 as int)
}

/// The points of a vector, by their coordinates.
pub open spec fn coords_of(pts: Seq<TernaryPoint>) -> Seq<(u8, u8, u8)> {
    pts.map_values(|p: TernaryPoint| p@)
}

/// The planar grid points (with `z = 0`) inside a bounding box (inclusive), in
/// x-major order.
pub fn points_in_bbox(min: (u8, u8), max: (u8, u8)) -> (pts: Vec<TernaryPoint>)
    ensures
        coords_of(pts@) == bbox_points(min, max),
{
    let mut pts: Vec<TernaryPoint> = Vec::new();
    let ghost xlo = min.0 as int;
    let ghost ylo = min.1 as int;
    let ghost yhi = max.1 as int;
    let mut x: u8 = min.0;
    while x <= max.0 && x <= 2
        invariant
            xlo == min.0,
            ylo == min.1,
            yhi == max.1,
            xlo <= x,
            x > xlo ==> x <= 3 && x <= max.0 + 1,
            coords_of(pts@) == bbox_rows(xlo, x - 1, ylo, yhi),
        decreases 3 - x,
    {
        let ghost before = coords_of(pts@);
        let mut y: u8 = min.1;
        while y <= max.1 && y <= 2
            invariant
                x <= 2,
                ylo == min.1,
                yhi == max.1,
                ylo <= y,
                y > ylo ==> y <= 3 && y <= max.1 + 1,
                coords_of(pts@) == before + bbox_row(x as int, ylo, y - 1),
            decreases 3 - y,
        {
            let ghost old_pts = pts@;
            pts.push(TernaryPoint::new_2d(x, y));
            assert(coords_of(pts@) == coords_of(old_pts).push((x, y, 0u8)));
            assert(before + bbox_row(x as int, ylo, y as int) == (before + bbox_row(
                x as int,
                ylo,
                y - 1,
            )).push((x, y, 0u8)));
            y += 1;
        }
        assert(bbox_row(x as int, ylo, y - 1) == bbox_row(x as int, ylo, yhi));
        assert(bbox_rows(xlo, x as int, ylo, yhi) == bbox_rows(xlo, x - 1, ylo, yhi) + bbox_row(
            x as int,
            ylo,
            yhi,
        ));
        x += 1;
    }
    assert(bbox_rows(xlo, x - 1, ylo, yhi) == bbox_rows(xlo, min_int(max.0 as int, 2), ylo, yhi));
    pts
}

proof fn lemma_least_coord_extreme(pts: Seq<TernaryPoint>, axis: int, bound: u8, k: nat)
    requires
        k <= pts.len(),
    ensures
        least_coord(pts, axis, bound, k) <= bound,
        forall|j: int|
            0 <= j < k ==> least_coord(pts, axis, bound, k) <= axis_coord(#[trigger] pts[j]@, axis),
        least_coord(pts, axis, bound, k) == bound || exists|j: int|
            0 <= j < k && axis_coord(#[trigger] pts[j]@, axis) == least_coord(pts, axis, bound, k),
    decreases k,
{
    if k > 0 {
        lemma_least_coord_extreme(pts, axis, bound, (k - 1) as nat);
        let m = least_coord(pts, axis, bound, (k - 1) as nat);
        if m != bound && axis_coord(pts[k - 1]@, axis) >= m {
            let j = choose|j: int| 0 <= j < k - 1 && axis_coord(#[trigger] pts[j]@, axis) == m;
            assert(0 <= j < k && axis_coord(pts[j]@, axis) == least_coord(pts, axis, bound, k));
        }
    }
}

proof fn lemma_greatest_coord_extreme(pts: Seq<TernaryPoint>, axis: int, bound: u8, k: nat)
    requires
        k <= pts.len(),
    ensures
        greatest_coord(pts, axis, bound, k) >= bound,
        forall|j: int|
            0 <= j < k ==> greatest_coord(pts, axis, bound, k) >= axis_coord(#[trigger] pts[j]@, axis),
        greatest_coord(pts, axis, bound, k) == bound || exists|j: int|
            0 <= j < k && axis_coord(#[trigger] pts[j]@, axis) == greatest_coord(pts, axis, bound, k),
    decreases k,
{
    if k > 0 {
        lemma_greatest_coord_extreme(pts, axis, bound, (k - 1) as nat);
        let m = greatest_coord(pts, axis, bound, (k - 1) as nat);
        if m != bound && axis_coord(pts[k - 1]@, axis) <= m {
            let j = choose|j: int| 0 <= j < k - 1 && axis_coord(#[trigger] pts[j]@, axis) == m;
            assert(0 <= j < k && axis_coord(pts[j]@, axis) == greatest_coord(pts, axis, bound, k));
        }
    }
}

/// The bounding box's lower corner is the least x and the least y of the points, or
/// 2 where no point is smaller; its upper corner is the greatest x and y, or 0 where
/// no point is larger. Every point lies inside it.
pub proof fn lemma_bounding_box_extremes(pts: Seq<TernaryPoint>)
    ensures
        ({
            let ((min_x, min_y), (max_x, max_y)) = bounding_box(pts);
            &&& min_x <= 2 && min_y <= 2
            &&& forall|i: int|
                0 <= i < pts.len() ==> min_x <= (#[trigger] pts[i]@).0 <= max_x && min_y
                    <= pts[i]@.1 <= max_y
            &&& min_x == 2 || exists|i: int| 0 <= i < pts.len() && (#[trigger] pts[i]@).0 == min_x
            &&& min_y == 2 || exists|i: int| 0 <= i < pts.len() && (#[trigger] pts[i]@).1 == min_y
            &&& max_x == 0 || exists|i: int| 0 <= i < pts.len() && (#[trigger] pts[i]@).0 == max_x
            &&& max_y == 0 || exists|i: int| 0 <= i < pts.len() && (#[trigger] pts[i]@).1 == max_y
        }),
{
    lemma_least_coord_extreme(pts, 0, 2, pts.len());
    lemma_least_coord_extreme(pts, 1, 2, pts.len());
    lemma_greatest_coord_extreme(pts, 0, 0, pts.len());
    lemma_greatest_coord_extreme(pts, 1, 0, pts.len());
    assert forall|i: int| 0 <= i < pts.len() implies bounding_box(pts).0.0 <= (
    #[trigger] pts[i]@).0 <= bounding_box(pts).1.0 && bounding_box(pts).0.1 <= pts[i]@.1
        <= bounding_box(pts).1.1 by {
        assert(axis_coord(pts[i]@, 0) == pts[i]@.0);
        assert(axis_coord(pts[i]@, 1) == pts[i]@.1);
    }
}

proof fn lemma_bbox_row_contains(x: int, ylo: int, yhi: int, p: (u8, u8, u8))
    requires
        0 <= x <= 2,
        0 <= ylo,
    ensures
        bbox_row(x, ylo, yhi).contains(p) <==> (p.0 == x && p.2 == 0 && ylo <= p.1 && p.1
            <= min_int(yhi, 2)),
{
    let r = bbox_row(x, ylo, yhi);
    if p.0 == x && p.2 == 0 && ylo <= p.1 && p.1 <= min_int(yhi, 2) {
        let j = p.1 - ylo;
        assert(r[j] == p);
    }
    if r.contains(p) {
        let j = choose|j: int| 0 <= j < r.len() && r[j] == p;
        assert(r[j] == (x as u8, (ylo + j) as u8, 0u8));
    }
}

proof fn lemma_bbox_rows_contains(xlo: int, xhi: int, ylo: int, yhi: int, p: (u8, u8, u8))
    requires
        0 <= xlo,
        xhi <= 2,
        0 <= ylo,
    ensures
        bbox_rows(xlo, xhi, ylo, yhi).contains(p) <==> (xlo <= p.0 <= xhi && p.2 == 0 && ylo
            <= p.1 && p.1 <= min_int(yhi, 2)),
    decreases xhi - xlo + 1,
{
    if xhi >= xlo {
        let a = bbox_rows(xlo, xhi - 1, ylo, yhi);
        let b = bbox_row(xhi, ylo, yhi);
        lemma_bbox_rows_contains(xlo, xhi - 1, ylo, yhi, p);
        lemma_bbox_row_contains(xhi, ylo, yhi, p);
        let ab = a + b;
        if a.contains(p) {
            let j = choose|j: int| 0 <= j < a.len() && a[j] == p;
            assert(ab[j] == p);
        }
        if b.contains(p) {
            let j = choose|j: int| 0 <= j < b.len() && b[j] == p;
            assert(ab[a.len() + j] == p);
        }
        if ab.contains(p) {
            let j = choose|j: int| 0 <= j < ab.len() && ab[j] == p;
            if j < a.len() {
                assert(a[j] == p);
            } else {
                assert(b[j - a.len()] == p);
            }
        }
    }
}

/// A point comes out of `points_in_bbox` exactly when it is a ternary point in the
/// plane `z = 0` whose x and y lie inside the box.
pub proof fn lemma_points_in_bbox_membership(min: (u8, u8), max: (u8, u8), p: (u8, u8, u8))
    ensures
        bbox_points(min, max).contains(p) <==> {
            &&& p.2 == 0
            &&& min.0 <= p.0 <= max.0 && p.0 <= 2
            &&& min.1 <= p.1 <= max.1 && p.1 <= 2
        },
{
    lemma_bbox_rows_contains(min.0 as int, min_int(max.0 as int, 2), min.1 as int, max.1 as int, p);
}

/// The grid points inside the bounding box of a set of points include every one of
/// those points whose x and y are ternary (projected to the plane `z = 0`).
pub proof fn lemma_bounding_box_covers_points(pts: Seq<TernaryPoint>, i: int)
    requires
        0 <= i < pts.len(),
        pts[i]@.0 <= 2,
        pts[i]@.1 <= 2,
    ensures
        bbox_points(bounding_box(pts).0, bounding_box(pts).1).contains(
            (pts[i]@.0, pts[i]@.1, 0u8),
        ),
{
    lemma_bounding_box_extremes(pts);
    assert(bounding_box(pts).0.0 <= pts[i]@.0 <= bounding_box(pts).1.0);
    lemma_points_in_bbox_membership(
        bounding_box(pts).0,
        bounding_box(pts).1,
        (pts[i]@.0, pts[i]@.1, 0u8),
    );
}

/// The grid volume and area count the ternary points: the 3D enumeration's first
/// `grid_volume()` entries hold every ternary point, and the 2D enumeration's first
/// `grid_area()` entries every ternary point with `z = 0`.
pub proof fn lemma_volume_and_area_count_grid(x: u8, y: u8, z: u8)
    requires
        x <= 2,
        y <= 2,
        z <= 2,
    ensures
        exists|k: int| 0 <= k < grid_volume() && #[trigger] grid_point_3d(k) == (x, y, z),
        exists|k: int| 0 <= k < grid_area() && #[trigger] grid_point_2d(k) == (x, y, 0u8),
{
    lemma_grid_3d_enumerates(x, y, z);
    lemma_grid_2d_enumerates(x, y);
}

/// How many of the grid values 0, 1, 2 lie in the range from `lo` to `hi`.
pub open spec fn grid_values_between(lo: int, hi: int) -> int {
    if lo <= min_int(hi, 2) {
        min_int(hi, 2) - lo + 1
    } else {
        0
    }
}

/// `(x, y)` comes strictly before `(x', y')` in x-major order.
pub open spec fn xy_before(p: (u8, u8, u8), q: (u8, u8, u8)) -> bool {
    p.0 < q.0 || (p.0 == q.0 && p.1 < q.1)
}

proof fn lemma_mul_step(k: int, m: int)
    by (nonlinear_arith)
    ensures
        k * m + m == (k + 1) * m,
{
}

proof fn lemma_bbox_rows_sorted(xlo: int, xhi: int, ylo: int, yhi: int)
    requires
        0 <= xlo,
        xhi <= 2,
        0 <= ylo,
    ensures
        bbox_rows(xlo, xhi, ylo, yhi).len() == (if xhi < xlo {
            0
        } else {
            (xhi - xlo + 1) * grid_values_between(ylo, yhi)
        }),
        forall|i: int, j: int|
            0 <= i < j < bbox_rows(xlo, xhi, ylo, yhi).len() ==> xy_before(
                #[trigger] bbox_rows(xlo, xhi, ylo, yhi)[i],
                #[trigger] bbox_rows(xlo, xhi, ylo, yhi)[j],
            ),
    decreases xhi - xlo + 1,
{
    if xhi >= xlo {
        let a = bbox_rows(xlo, xhi - 1, ylo, yhi);
        let b = bbox_row(xhi, ylo, yhi);
        let ab = bbox_rows(xlo, xhi, ylo, yhi);
        lemma_bbox_rows_sorted(xlo, xhi - 1, ylo, yhi);
        assert(ab == a + b);
        lemma_mul_step(xhi - xlo, grid_values_between(ylo, yhi));
        assert(0 * grid_values_between(ylo, yhi) == 0) by (nonlinear_arith);
        assert(b.len() == grid_values_between(ylo, yhi));
        assert forall|i: int, j: int| 0 <= i < j < ab.len() implies xy_before(#[trigger] ab[i], #[trigger] ab[j]) by {
            if j < a.len() {
                assert(ab[i] == a[i] && ab[j] == a[j]);
            } else if i >= a.len() {
                assert(ab[i] == b[i - a.len()] && ab[j] == b[j - a.len()]);
            } else {
                assert(ab[i] == a[i] && ab[j] == b[j - a.len()]);
                assert(a.contains(a[i]));
                lemma_bbox_rows_contains(xlo, xhi - 1, ylo, yhi, a[i]);
            }
        }
    }
}

/// The grid points inside a box come in strictly increasing x-major order, so none
/// repeats, and there are as many as the box's grid columns times its grid rows.
pub proof fn lemma_points_in_bbox_distinct_and_counted(min: (u8, u8), max: (u8, u8))
    ensures
        forall|i: int, j: int|
            0 <= i < j < bbox_points(min, max).len() ==> xy_before(
                #[trigger] bbox_points(min, max)[i],
                #[trigger] bbox_points(min, max)[j],
            ),
        bbox_points(min, max).no_duplicates(),
        bbox_points(min, max).len() == grid_values_between(min.0 as int, max.0 as int)
            * grid_values_between(min.1 as int, max.1 as int),
{
    let xlo = min.0 as int;
    let xhi = min_int(max.0 as int, 2);
    lemma_bbox_rows_sorted(xlo, xhi, min.1 as int, max.1 as int);
    let b = bbox_points(min, max);
    assert forall|i: int, j: int| 0 <= i < b.len() && 0 <= j < b.len() && i != j implies b[i] != b[j] by {
        if i < j {
            assert(xy_before(b[i], b[j]));
        } else {
            assert(xy_before(b[j], b[i]));
        }
    }
    if xhi < xlo {
        assert(grid_values_between(min.0 as int, max.0 as int) == 0);
    }
}

} // verus!
