//! Line segments of the ternary grid, planar orientation, and segment membership.

use vstd::prelude::*;

use crate::distance::{lee, lee_defined, lee_distance, manhattan, manhattan_distance};
use crate::point::TernaryPoint;

verus! {

broadcast use vstd::array::group_array_axioms;

/// A line segment in ternary space.
#[derive(Clone, Copy, Debug, PartialEq, Eq)]
pub struct TernaryLine {
    pub start: TernaryPoint,
    pub end: TernaryPoint,
}

/// `min(a, b)` on integers.
pub open spec fn min_int(a: int, b: int) -> int {
    if a <= b {
        a
    } else {
        b
    }
}

/// `max(a, b)` on integers.
pub open spec fn max_int(a: int, b: int) -> int {
    if a >= b {
        a
    } else {
        b
    }
}

/// One coordinate of the midpoint: the mean rounded down, capped at 2.
pub open spec fn mid_coord(s: u8, e: u8) -> int {
    min_int((s + e) / 2, 2)
}

/// The sum of two coordinates must fit in a byte for the midpoint to be computed.
pub open spec fn midpoint_defined(s: (u8, u8, u8), e: (u8, u8, u8)) -> bool {
    s.0 + e.0 <= 255 && s.1 + e.1 <= 255 && s.2 + e.2 <= 255
}

/// 2D cross product of the vectors `o -> a` and `o -> b` (using x and y only);
/// positive when `b` lies counter-clockwise of `o -> a`.
pub open spec fn cross(o: (u8, u8, u8), a: (u8, u8, u8), b: (u8, u8, u8)) -> int {
    (a.0 - o.0) * (b.1 - o.1) - (a.1 - o.1) * (b.0 - o.0)
}

/// `p` lies on the segment `s`-`e` in the plane: it is collinear with the segment's
/// endpoints and inside their bounding box.
pub open spec fn on_segment(p: (u8, u8, u8), s: (u8, u8, u8), e: (u8, u8, u8)) -> bool {
    &&& cross(s, e, p) == 0
    &&& min_int(s.0 as int, e.0 as int) <= p.0 <= max_int(s.0 as int, e.0 as int)
    &&& min_int(s.1 as int, e.1 as int) <= p.1 <= max_int(s.1 as int, e.1 as int)
}

/// 2D cross product of vectors OA and OB (positive if counter-clockwise).
pub(crate) fn cross_product_2d(o: &TernaryPoint, a: &TernaryPoint, b: &TernaryPoint) -> (c: i32)
    ensures
        c == cross(o@, a@, b@),
{
    let ax = a.x() as i32 - o.x() as i32;
    let ay = a.y() as i32 - o.y() as i32;
    let bx = b.x() as i32 - o.x() as i32;
    let by = b.y() as i32 - o.y() as i32;
    assert(-65025 <= ax * by <= 65025) by (nonlinear_arith)
        requires
            -255 <= ax <= 255,
            -255 <= by <= 255,
    ;
    assert(-65025 <= ay * bx <= 65025) by (nonlinear_arith)
        requires
            -255 <= ay <= 255,
            -255 <= bx <= 255,
    ;
    ax * by - ay * bx
}

impl TernaryLine {
    pub fn new(start: TernaryPoint, end: TernaryPoint) -> (l: Self)
        ensures
            l.start == start,
            l.end == end,
    {
        TernaryLine { start, end }
    }

    /// Length in Manhattan distance.
    pub fn manhattan_length(&self) -> (d: u32)
        ensures
            d == manhattan(self.start@, self.end@),
    {
        manhattan_distance(&self.start, &self.end)
    }

    /// Length in Lee distance.
    pub fn lee_length(&self) -> (d: u32)
        requires
            lee_defined(self.start@, self.end@),
        ensures
            d == lee(self.start@, self.end@),
    {
        lee_distance(&self.start, &self.end)
    }

    /// Midpoint (rounded down per coordinate, capped at 2).
    pub fn midpoint(&self) -> (m: TernaryPoint)
        requires
            midpoint_defined(self.start@, self.end@),
        ensures
            m@.0 == mid_coord(self.start@.0, self.end@.0),
            m@.1 == mid_coord(self.start@.1, self.end@.1),
            m@.2 == mid_coord(self.start@.2, self.end@.2),
    {
        let s = self.start.coords;
        let e = self.end.coords;
        TernaryPoint { coords: [cap_at_two((s[0] + e[0]) / 2), cap_at_two((s[1] + e[1]) / 2), cap_at_two((s[2] + e[2]) / 2)] }
    }
}

fn cap_at_two(v: u8) -> (r: u8)
    ensures
        r == min_int(v as int, 2),
{
    if v < 2 {
        v
    } else {
        2
    }
}

/// Check if a point is on a line segment (2D).
pub fn point_on_segment(pt: &TernaryPoint, line: &TernaryLine) -> (r: bool)
    ensures
        r == on_segment(pt@, line.start@, line.end@),
{
    let cross = cross_product_2d(&line.start, &line.end, pt);
    if cross != 0 {
        return false;
    }
    let (sx, ex) = (line.start.x(), line.end.x());
    let (sy, ey) = (line.start.y(), line.end.y());
    let min_x = if sx <= ex { sx } else { ex };
    let max_x = if sx >= ex { sx } else { ex };
    let min_y = if sy <= ey { sy } else { ey };
    let max_y = if sy >= ey { sy } else { ey };
    pt.x() >= min_x && pt.x() <= max_x && pt.y() >= min_y && pt.y() <= max_y
}

/// The midpoint of any segment is a ternary point; between ternary endpoints each of
/// its coordinates lies between the endpoints' coordinates.
pub proof fn lemma_midpoint_between_endpoints(s: TernaryPoint, e: TernaryPoint)
    ensures
        0 <= mid_coord(s@.0, e@.0) <= 2,
        0 <= mid_coord(s@.1, e@.1) <= 2,
        0 <= mid_coord(s@.2, e@.2) <= 2,
        s.is_ternary() && e.is_ternary() ==> {
            &&& min_int(s@.0 as int, e@.0 as int) <= mid_coord(s@.0, e@.0) <= max_int(
                s@.0 as int,
                e@.0 as int,
            )
            &&& min_int(s@.1 as int, e@.1 as int) <= mid_coord(s@.1, e@.1) <= max_int(
                s@.1 as int,
                e@.1 as int,
            )
            &&& min_int(s@.2 as int, e@.2 as int) <= mid_coord(s@.2, e@.2) <= max_int(
                s@.2 as int,
                e@.2 as int,
            )
        },
{
}

/// The midpoint of a degenerate segment from a ternary point to itself is that point.
pub proof fn lemma_midpoint_of_point_is_point(p: TernaryPoint)
    requires
        p.is_ternary(),
    ensures
        mid_coord(p@.0, p@.0) == p@.0,
        mid_coord(p@.1, p@.1) == p@.1,
        mid_coord(p@.2, p@.2) == p@.2,
{
}

/// Reversing `o -> a` into `a -> o` (and so on) flips the sign of the cross product:
/// the orientation of `b` against the segment from `e` back to `s` is the opposite
/// of its orientation against `s -> e`.
pub proof fn lemma_cross_reverse(s: (u8, u8, u8), e: (u8, u8, u8), p: (u8, u8, u8))
    ensures
        cross(e, s, p) == -cross(s, e, p),
{
    let (sx, sy, ex, ey, px, py) = (s.0 as int, s.1 as int, e.0 as int, e.1 as int, p.0 as int, p.1 as int);
    assert((sx - ex) * (py - ey) - (sy - ey) * (px - ex) == -((ex - sx) * (py - sy) - (ey - sy) * (
    px - sx))) by (nonlinear_arith);
}

/// Both endpoints of a segment lie on it, and membership does not depend on the
/// segment's direction.
pub proof fn lemma_on_segment_endpoints_and_direction(
    p: (u8, u8, u8),
    s: (u8, u8, u8),
    e: (u8, u8, u8),
)
    ensures
        on_segment(s, s, e),
        on_segment(e, s, e),
        on_segment(p, s, e) == on_segment(p, e, s),
{
    lemma_cross_reverse(s, e, p);
    let (sx, sy, ex, ey) = (s.0 as int, s.1 as int, e.0 as int, e.1 as int);
    assert((ex - sx) * (sy - sy) - (ey - sy) * (sx - sx) == 0) by (nonlinear_arith);
    assert((ex - sx) * (ey - sy) - (ey - sy) * (ex - sx) == 0) by (nonlinear_arith);
}

/// The midpoint does not depend on the order of the endpoints, and each of its
/// coordinates is the mean rounded down, or 2 where the mean reaches 2: with `m` the
/// coordinate, either `s + e >= 4` and `m == 2`, or `2m <= s + e <= 2m + 1`.
pub proof fn lemma_mid_coord_is_rounded_mean(s: u8, e: u8)
    ensures
        mid_coord(s, e) == mid_coord(e, s),
        0 <= mid_coord(s, e) <= 2,
        s + e >= 4 ==> mid_coord(s, e) == 2,
        s + e < 4 ==> 2 * mid_coord(s, e) <= s + e <= 2 * mid_coord(s, e) + 1,
{
}

/// `|a - b|` on integers.
pub open spec fn gap(a: int, b: int) -> int {
    if a >= b {
        a - b
    } else {
        b - a
    }
}

/// A point lies on a segment exactly when it is collinear with the endpoints and
/// no detour: going from `s` to `p` and on to `e` takes no more steps (in x and y)
/// than going from `s` to `e` directly.
pub proof fn lemma_on_segment_is_no_detour(p: (u8, u8, u8), s: (u8, u8, u8), e: (u8, u8, u8))
    ensures
        on_segment(p, s, e) <==> (cross(s, e, p) == 0 && gap(s.0 as int, p.0 as int) + gap(
            p.0 as int,
            e.0 as int,
        ) + gap(s.1 as int, p.1 as int) + gap(p.1 as int, e.1 as int) == gap(s.0 as int, e.0 as int)
            + gap(s.1 as int, e.1 as int)),
{
}

} // verus!
