//! Integer measures of planar point sequences: the shoelace sum of a polygon and
//! the coordinate sums behind a centroid.

use vstd::prelude::*;

use crate::line::cross;
use crate::point::TernaryPoint;
use crate::region::axis_coord;

verus! {

/// `v` fits in an `i32`.
pub open spec fn in_i32(v: int) -> bool {
    i32::MIN <= v <= i32::MAX
}

/// The positive shoelace term of edge `i`: `x_i * y_(i+1)`, indices wrapping around.
pub open spec fn shoelace_pos(pts: Seq<TernaryPoint>, i: int) -> int {
    pts[i]@.0 * pts[(i + 1) % (pts.len() as int)]@.1
}

/// The negative shoelace term of edge `i`: `x_(i+1) * y_i`, indices wrapping around.
pub open spec fn shoelace_neg(pts: Seq<TernaryPoint>, i: int) -> int {
    pts[(i + 1) % (pts.len() as int)]@.0 * pts[i]@.1
}

/// The shoelace sum over the first `k` edges.
pub open spec fn shoelace_upto(pts: Seq<TernaryPoint>, k: int) -> int
    decreases k,
{
    if k <= 0 {
        0
    } else {
        shoelace_upto(pts, k - 1) + shoelace_pos(pts, k - 1) - shoelace_neg(pts, k - 1)
    }
}

/// Every running value of the shoelace sum, after adding each positive term and
/// after subtracting each negative term, fits in an `i32`.
pub open spec fn shoelace_fits(pts: Seq<TernaryPoint>) -> bool {
    forall|k: int|
        0 <= k < pts.len() ==> in_i32(#[trigger] shoelace_upto(pts, k) + shoelace_pos(pts, k))
            && in_i32(shoelace_upto(pts, k + 1))
}

/// Twice the signed area enclosed by the polygon through `pts` (shoelace formula);
/// zero for fewer than three points.
pub open spec fn doubled_signed_area(pts: Seq<TernaryPoint>) -> int {
    if pts.len() < 3 {
        0
    } else {
        shoelace_upto(pts, pts.len() as int)
    }
}

/// Twice the signed area of the polygon defined by ordered 2D points (shoelace
/// formula), accumulated in an `i32`: `None` where a running value leaves the `i32`
/// range. The area itself is the absolute value of the result, halved.
pub fn polygon_doubled_signed_area_2d(points: &[TernaryPoint]) -> (r: Option<i32>)
    ensures
        points.len() < 3 ==> r == Some(0i32),
        points.len() >= 3 ==> (r is Some <==> shoelace_fits(points@)),
        r matches Some(v) ==> v == doubled_signed_area(points@),
{
    if points.len() < 3 {
        return Some(0);
    }
    let n = points.len();
    let mut area: i32 = 0;
    let mut i: usize = 0;
    while i < n
        invariant
            n == points.len(),
            n >= 3,
            i <= n,
            area == shoelace_upto(points@, i as int),
            forall|k: int|
                0 <= k < i ==> in_i32(#[trigger] shoelace_upto(points@, k) + shoelace_pos(points@, k))
                    && in_i32(shoelace_upto(points@, k + 1)),
        decreases n - i,
    {
        let j = (i + 1) % n;
        let xi = points[i].x() as i32;
        let yj = points[j].y() as i32;
        let xj = points[j].x() as i32;
        let yi = points[i].y() as i32;
        assert(0 <= xi * yj <= 65025) by (nonlinear_arith)
            requires
                0 <= xi <= 255,
                0 <= yj <= 255,
        ;
        assert(0 <= xj * yi <= 65025) by (nonlinear_arith)
            requires
                0 <= xj <= 255,
                0 <= yi <= 255,
        ;
        assert(shoelace_pos(points@, i as int) == xi * yj);
        assert(shoelace_neg(points@, i as int) == xj * yi);
        match area.checked_add(xi * yj) {
            None => {
                return None;
            },
            Some(a) => {
                match a.checked_sub(xj * yi) {
                    None => {
                        assert(shoelace_upto(points@, i + 1) == a - xj * yi);
                        return None;
                    },
                    Some(b) => {
                        assert(shoelace_upto(points@, i + 1) == b);
                        area = b;
                    },
                }
            },
        }
        assert forall|k: int| 0 <= k < i + 1 implies in_i32(#[trigger] shoelace_upto(points@, k) + shoelace_pos(points@, k))
            && in_i32(shoelace_upto(points@, k + 1)) by {
            if k < i {
            } else {
                assert(k == i);
            }
        }
        i += 1;
    }
    Some(area)
}

/// The sum of the `axis` coordinates of the first `k` points.
pub open spec fn coord_sum(pts: Seq<TernaryPoint>, axis: int, k: int) -> int
    decreases k,
{
    if k <= 0 {
        0
    } else {
        coord_sum(pts, axis, k - 1) + axis_coord(pts[k - 1]@, axis)
    }
}

/// Coordinate sums never shrink as points are added.
pub proof fn lemma_coord_sum_monotone(pts: Seq<TernaryPoint>, axis: int, j: int, k: int)
    requires
        0 <= j <= k <= pts.len(),
    ensures
        0 <= coord_sum(pts, axis, j) <= coord_sum(pts, axis, k),
    decreases k,
{
    if j < k {
        lemma_coord_sum_monotone(pts, axis, j, k - 1);
    } else if k > 0 {
        lemma_coord_sum_monotone(pts, axis, k - 1, k - 1);
    }
}

fn sum_axis(points: &[TernaryPoint], axis: usize) -> (r: Option<u32>)
    requires
        axis < 2,
    ensures
        r is Some <==> coord_sum(points@, axis as int, points.len() as int) <= u32::MAX,
        r matches Some(s) ==> s == coord_sum(points@, axis as int, points.len() as int),
{
    let mut sum: u32 = 0;
    let mut i: usize = 0;
    while i < points.len()
        invariant
            axis < 2,
            i <= points.len(),
            sum == coord_sum(points@, axis as int, i as int),
        decreases points.len() - i,
    {
        let c = if axis == 0 {
            points[i].x()
        } else {
            points[i].y()
        };
        match sum.checked_add(c as u32) {
            None => {
                proof {
                    lemma_coord_sum_monotone(points@, axis as int, i + 1, points.len() as int);
                }
                return None;
            },
            Some(s) => {
                sum = s;
            },
        }
        i += 1;
    }
    Some(sum)
}

/// The sums of the x and of the y coordinates of a set of 2D points, the numerators
/// of its centroid: `None` where a sum does not fit in a `u32`.
pub fn coordinate_sums_2d(points: &[TernaryPoint]) -> (r: Option<(u32, u32)>)
    ensures
        r is Some <==> (coord_sum(points@, 0, points.len() as int) <= u32::MAX && coord_sum(
            points@,
            1,
            points.len() as int,
        ) <= u32::MAX),
        r matches Some(s) ==> s.0 == coord_sum(points@, 0, points.len() as int) && s.1
            == coord_sum(points@, 1, points.len() as int),
{
    match sum_axis(points, 0) {
        None => None,
        Some(sx) => match sum_axis(points, 1) {
            None => None,
            Some(sy) => Some((sx, sy)),
        },
    }
}

proof fn lemma_small_product(a: int, b: int)
    by (nonlinear_arith)
    requires
        0 <= a <= 2,
        0 <= b <= 2,
    ensures
        0 <= a * b <= 4,
{
}

proof fn lemma_shoelace_bound(pts: Seq<TernaryPoint>, k: int)
    requires
        pts.len() >= 1,
        0 <= k <= pts.len(),
        forall|j: int| 0 <= j < pts.len() ==> (#[trigger] pts[j]).is_ternary(),
    ensures
        -4 * k <= shoelace_upto(pts, k) <= 4 * k,
        k < pts.len() ==> 0 <= shoelace_pos(pts, k) <= 4 && 0 <= shoelace_neg(pts, k) <= 4,
    decreases k,
{
    let n = pts.len() as int;
    if k < n {
        let j = (k + 1) % n;
        assert(pts[k].is_ternary() && pts[j].is_ternary());
        lemma_small_product(pts[k]@.0 as int, pts[j]@.1 as int);
        lemma_small_product(pts[j]@.0 as int, pts[k]@.1 as int);
    }
    if k > 0 {
        lemma_shoelace_bound(pts, k - 1);
    }
}

/// For ternary points the shoelace sum never leaves the `i32` range, up to hundreds
/// of millions of vertices: each edge changes it by at most 4.
pub proof fn lemma_shoelace_fits_for_ternary(pts: Seq<TernaryPoint>)
    requires
        pts.len() <= 500_000_000,
        forall|j: int| 0 <= j < pts.len() ==> (#[trigger] pts[j]).is_ternary(),
    ensures
        shoelace_fits(pts),
{
    assert forall|k: int| 0 <= k < pts.len() implies in_i32(#[trigger] shoelace_upto(pts, k) + shoelace_pos(pts, k))
        && in_i32(shoelace_upto(pts, k + 1)) by {
        lemma_shoelace_bound(pts, k);
        lemma_shoelace_bound(pts, k + 1);
    }
}

proof fn lemma_coord_sum_ternary_bound(pts: Seq<TernaryPoint>, axis: int, k: int)
    requires
        0 <= k <= pts.len(),
        forall|j: int| 0 <= j < pts.len() ==> (#[trigger] pts[j]).is_ternary(),
    ensures
        coord_sum(pts, axis, k) <= 2 * k,
    decreases k,
{
    if k > 0 {
        lemma_coord_sum_ternary_bound(pts, axis, k - 1);
        assert(pts[k - 1].is_ternary());
    }
}

/// For ternary points the coordinate sums fit in a `u32` for up to two billion points.
pub proof fn lemma_coordinate_sums_fit_for_ternary(pts: Seq<TernaryPoint>)
    requires
        pts.len() <= 2_000_000_000,
        forall|j: int| 0 <= j < pts.len() ==> (#[trigger] pts[j]).is_ternary(),
    ensures
        coord_sum(pts, 0, pts.len() as int) <= u32::MAX,
        coord_sum(pts, 1, pts.len() as int) <= u32::MAX,
{
    lemma_coord_sum_ternary_bound(pts, 0, pts.len() as int);
    lemma_coord_sum_ternary_bound(pts, 1, pts.len() as int);
}

#[verifier::rlimit(50)]
proof fn lemma_triangle_shoelace(ax: int, ay: int, bx: int, by: int, cx: int, cy: int)
    by (nonlinear_arith)
    ensures
        (ax * by - bx * ay) + (bx * cy - cx * by) + (cx * ay - ax * cy) == (bx - ax) * (cy - ay) - (by
            - ay) * (cx - ax),
{
}

/// Twice the signed area of a triangle is the cross product of its sides: positive
/// for counter-clockwise corners, negative for clockwise ones, zero for collinear ones.
/// The last corner pairs with the first, closing the triangle.
pub proof fn lemma_doubled_area_of_triangle(pts: Seq<TernaryPoint>)
    requires
        pts.len() == 3,
    ensures
        doubled_signed_area(pts) == cross(pts[0]@, pts[1]@, pts[2]@),
{
    assert((0int + 1) % 3 == 1 && (1int + 1) % 3 == 2 && (2int + 1) % 3 == 0);
    assert(shoelace_upto(pts, 3) == shoelace_upto(pts, 2) + shoelace_pos(pts, 2) - shoelace_neg(pts, 2));
    assert(shoelace_upto(pts, 2) == shoelace_upto(pts, 1) + shoelace_pos(pts, 1) - shoelace_neg(pts, 1));
    assert(shoelace_upto(pts, 1) == shoelace_upto(pts, 0) + shoelace_pos(pts, 0) - shoelace_neg(pts, 0));
    lemma_triangle_shoelace(
        pts[0]@.0 as int,
        pts[0]@.1 as int,
        pts[1]@.0 as int,
        pts[1]@.1 as int,
        pts[2]@.0 as int,
        pts[2]@.1 as int,
    );
}

proof fn lemma_prefix_terms_agree(pts: Seq<TernaryPoint>, k: int)
    requires
        pts.len() >= 4,
        0 <= k <= pts.len() - 2,
    ensures
        shoelace_upto(pts.drop_last(), k) == shoelace_upto(pts, k),
    decreases k,
{
    if k > 0 {
        lemma_prefix_terms_agree(pts, k - 1);
        let n = pts.len();
        vstd::arithmetic::div_mod::lemma_small_mod(k as nat, n);
        vstd::arithmetic::div_mod::lemma_small_mod(k as nat, (n - 1) as nat);
        assert(pts.drop_last()[k - 1] == pts[k - 1]);
        assert(pts.drop_last()[k] == pts[k]);
    }
}

#[verifier::rlimit(50)]
proof fn lemma_fan_identity(ax: int, ay: int, bx: int, by: int, cx: int, cy: int)
    by (nonlinear_arith)
    ensures
        (bx * ay - ax * by) + ((bx - ax) * (cy - ay) - (by - ay) * (cx - ax)) == (bx * cy - cx * by) + (cx
            * ay - ax * cy),
{
}

/// Cutting off the last vertex splits a polygon into the remaining polygon and the
/// triangle of the first, the second-to-last and the last vertex: doubled signed
/// areas add up, as for any fan triangulation.
pub proof fn lemma_doubled_area_fan_split(pts: Seq<TernaryPoint>)
    requires
        pts.len() >= 4,
    ensures
        doubled_signed_area(pts) == doubled_signed_area(pts.drop_last()) + doubled_signed_area(
            seq![pts[0], pts[pts.len() - 2], pts[pts.len() - 1]],
        ),
{
    let n = pts.len() as int;
    let q = pts.drop_last();
    let t = seq![pts[0], pts[n - 2], pts[n - 1]];
    lemma_prefix_terms_agree(pts, n - 2);
    lemma_doubled_area_of_triangle(t);
    vstd::arithmetic::div_mod::lemma_mod_self_0(n);
    vstd::arithmetic::div_mod::lemma_mod_self_0(n - 1);
    vstd::arithmetic::div_mod::lemma_small_mod((n - 1) as nat, n as nat);
    assert(shoelace_upto(q, n - 1) == shoelace_upto(q, n - 2) + shoelace_pos(q, n - 2) - shoelace_neg(q, n - 2));
    assert(shoelace_upto(pts, n) == shoelace_upto(pts, n - 1) + shoelace_pos(pts, n - 1) - shoelace_neg(pts, n - 1));
    assert(shoelace_upto(pts, n - 1) == shoelace_upto(pts, n - 2) + shoelace_pos(pts, n - 2) - shoelace_neg(pts, n - 2));
    assert(q[n - 2] == pts[n - 2] && q[0] == pts[0]);
    assert(((n - 2) + 1) % (n - 1) == 0);
    assert(((n - 2) + 1) % n == n - 1);
    assert(((n - 1) + 1) % n == 0);
    lemma_fan_identity(
        pts[0]@.0 as int,
        pts[0]@.1 as int,
        pts[n - 2]@.0 as int,
        pts[n - 2]@.1 as int,
        pts[n - 1]@.0 as int,
        pts[n - 1]@.1 as int,
    );
}

/// The polygon starting at its second vertex: the first vertex moves to the end.
pub open spec fn rotate_once(pts: Seq<TernaryPoint>) -> Seq<TernaryPoint> {
    pts.subrange(1, pts.len() as int).push(pts[0])
}

proof fn lemma_rotated_terms(pts: Seq<TernaryPoint>, i: int)
    requires
        pts.len() >= 1,
        0 <= i < pts.len(),
    ensures
        shoelace_pos(rotate_once(pts), i) - shoelace_neg(rotate_once(pts), i) == shoelace_pos(
            pts,
            (i + 1) % (pts.len() as int),
        ) - shoelace_neg(pts, (i + 1) % (pts.len() as int)),
{
    let n = pts.len() as int;
    let r = rotate_once(pts);
    assert forall|k: int| 0 <= k < n implies #[trigger] r[k] == pts[(k + 1) % n] by {
        if k < n - 1 {
            vstd::arithmetic::div_mod::lemma_small_mod((k + 1) as nat, n as nat);
        } else {
            vstd::arithmetic::div_mod::lemma_mod_self_0(n);
        }
    }
    let k = (i + 1) % n;
    assert(0 <= k < n) by {
        vstd::arithmetic::div_mod::lemma_mod_bound(i + 1, n);
    }
    assert(r[i] == pts[k]);
    assert(r[k] == pts[(k + 1) % n]);
}

proof fn lemma_rotated_prefix(pts: Seq<TernaryPoint>, k: int)
    requires
        pts.len() >= 1,
        0 <= k < pts.len(),
    ensures
        shoelace_upto(rotate_once(pts), k) == shoelace_upto(pts, k + 1) - shoelace_upto(pts, 1),
    decreases k,
{
    if k > 0 {
        lemma_rotated_prefix(pts, k - 1);
        lemma_rotated_terms(pts, k - 1);
        vstd::arithmetic::div_mod::lemma_small_mod(k as nat, pts.len());
    }
}

/// The doubled signed area depends only on the cycle of vertices, not on where the
/// list starts: moving the first vertex to the end leaves it unchanged, because the
/// closing edge from the last vertex back to the first counts like every other edge.
pub proof fn lemma_doubled_area_rotation_invariant(pts: Seq<TernaryPoint>)
    requires
        pts.len() >= 3,
    ensures
        doubled_signed_area(rotate_once(pts)) == doubled_signed_area(pts),
{
    let n = pts.len() as int;
    assert(rotate_once(pts).len() == n);
    lemma_rotated_prefix(pts, n - 1);
    lemma_rotated_terms(pts, n - 1);
    vstd::arithmetic::div_mod::lemma_mod_self_0(n);
    let r = rotate_once(pts);
    assert(shoelace_upto(r, n) == shoelace_upto(r, n - 1) + shoelace_pos(r, n - 1) - shoelace_neg(r, n - 1));
    assert(shoelace_upto(pts, 1) == shoelace_upto(pts, 0) + shoelace_pos(pts, 0) - shoelace_neg(pts, 0));
    assert(((n - 1) + 1) % n == 0);
}

/// Coordinate sums add up over concatenation and a single point contributes its own
/// coordinate: they are the plain sums of the coordinates.
pub proof fn lemma_coord_sum_is_additive(a: Seq<TernaryPoint>, b: Seq<TernaryPoint>, axis: int)
    ensures
        coord_sum(a + b, axis, (a + b).len() as int) == coord_sum(a, axis, a.len() as int) + coord_sum(
            b,
            axis,
            b.len() as int,
        ),
        a.len() == 1 ==> coord_sum(a, axis, 1) == axis_coord(a[0]@, axis),
    decreases b.len(),
{
    if a.len() == 1 {
        assert(coord_sum(a, axis, 0) == 0);
    }
    if b.len() > 0 {
        let b1 = b.drop_last();
        lemma_coord_sum_is_additive(a, b1, axis);
        assert((a + b).drop_last() == a + b1);
        lemma_coord_sum_prefix(a + b, axis, (a + b).len() - 1);
        lemma_coord_sum_prefix(b, axis, b.len() - 1);
        assert((a + b)[(a + b).len() - 1] == b[b.len() - 1]);
    } else {
        assert(a + b == a);
    }
}

proof fn lemma_coord_sum_prefix(pts: Seq<TernaryPoint>, axis: int, k: int)
    requires
        0 <= k <= pts.len(),
    ensures
        coord_sum(pts, axis, k) == coord_sum(pts.subrange(0, k), axis, k),
    decreases k,
{
    if k > 0 {
        lemma_coord_sum_prefix(pts, axis, k - 1);
        lemma_coord_sum_prefix(pts.subrange(0, k), axis, k - 1);
        assert(pts.subrange(0, k).subrange(0, k - 1) == pts.subrange(0, k - 1));
    }
}

} // verus!
