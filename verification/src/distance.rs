//! Distance metrics between ternary points: Manhattan (L1), Lee (cyclic on Z/3Z)
//! and Hamming.

use vstd::prelude::*;

use crate::point::TernaryPoint;

verus! {

broadcast use vstd::array::group_array_axioms;

/// `|a - b|`.
pub open spec fn abs_diff(a: int, b: int) -> int {
    if a >= b {
        a - b
    } else {
        b - a
    }
}

/// Manhattan (L1) distance between two points given by their coordinates.
pub open spec fn manhattan(a: (u8, u8, u8), b: (u8, u8, u8)) -> int {
    abs_diff(a.0 as int, b.0 as int) + abs_diff(a.1 as int, b.1 as int) + abs_diff(
        a.2 as int,
        b.2 as int,
    )
}

/// Lee distance of one coordinate whose plain difference is `d`: `min(d, 3 - d)`.
pub open spec fn lee_coord(d: int) -> int {
    if d <= 3 - d {
        d
    } else {
        3 - d
    }
}

/// The Lee distance is computed on coordinate differences of at most 3
/// (a larger difference makes `3 - d` leave the unsigned range).
pub open spec fn lee_defined(a: (u8, u8, u8), b: (u8, u8, u8)) -> bool {
    &&& abs_diff(a.0 as int, b.0 as int) <= 3
    &&& abs_diff(a.1 as int, b.1 as int) <= 3
    &&& abs_diff(a.2 as int, b.2 as int) <= 3
}

/// Lee distance: the sum over the coordinates of `min(d, 3 - d)`.
pub open spec fn lee(a: (u8, u8, u8), b: (u8, u8, u8)) -> int {
    lee_coord(abs_diff(a.0 as int, b.0 as int)) + lee_coord(abs_diff(a.1 as int, b.1 as int))
        + lee_coord(abs_diff(a.2 as int, b.2 as int))
}

/// `1` where two coordinates differ, `0` where they agree.
pub open spec fn differs(x: u8, y: u8) -> int {
    if x != y {
        1
    } else {
        0
    }
}

/// Hamming distance: the number of differing coordinates.
pub open spec fn hamming(a: (u8, u8, u8), b: (u8, u8, u8)) -> int {
    differs(a.0, b.0) + differs(a.1, b.1) + differs(a.2, b.2)
}

fn coord_abs_diff(x: u8, y: u8) -> (d: u32)
    ensures
        d == abs_diff(x as int, y as int),
{
    if x >= y {
        (x - y) as u32
    } else {
        (y - x) as u32
    }
}

fn coord_lee(x: u8, y: u8) -> (d: u32)
    requires
        abs_diff(x as int, y as int) <= 3,
    ensures
        d == lee_coord(abs_diff(x as int, y as int)),
{
    let d = coord_abs_diff(x, y);
    let wrapped = 3 - d;
    if d <= wrapped {
        d
    } else {
        wrapped
    }
}

/// Manhattan distance between two ternary points.
pub fn manhattan_distance(a: &TernaryPoint, b: &TernaryPoint) -> (d: u32)
    ensures
        d == manhattan(a@, b@),
{
    coord_abs_diff(a.coords[0], b.coords[0]) + coord_abs_diff(a.coords[1], b.coords[1])
        + coord_abs_diff(a.coords[2], b.coords[2])
}

/// Lee distance (cyclic distance on Z/3Z).
pub fn lee_distance(a: &TernaryPoint, b: &TernaryPoint) -> (d: u32)
    requires
        lee_defined(a@, b@),
    ensures
        d == lee(a@, b@),
{
    coord_lee(a.coords[0], b.coords[0]) + coord_lee(a.coords[1], b.coords[1]) + coord_lee(
        a.coords[2],
        b.coords[2],
    )
}

/// Hamming distance (count of differing coordinates).
pub fn hamming_distance(a: &TernaryPoint, b: &TernaryPoint) -> (d: u32)
    ensures
        d == hamming(a@, b@),
{
    let mut count: u32 = 0;
    if a.coords[0] != b.coords[0] {
        count += 1;
    }
    if a.coords[1] != b.coords[1] {
        count += 1;
    }
    if a.coords[2] != b.coords[2] {
        count += 1;
    }
    count
}

/// Manhattan distance is symmetric.
pub proof fn lemma_manhattan_symmetric(a: (u8, u8, u8), b: (u8, u8, u8))
    ensures
        manhattan(a, b) == manhattan(b, a),
{
}

/// Manhattan distance is zero exactly between equal points.
pub proof fn lemma_manhattan_zero_iff_equal(a: (u8, u8, u8), b: (u8, u8, u8))
    ensures
        manhattan(a, b) >= 0,
        manhattan(a, b) == 0 <==> a == b,
{
}

/// Manhattan distance obeys the triangle inequality.
pub proof fn lemma_manhattan_triangle(a: (u8, u8, u8), b: (u8, u8, u8), c: (u8, u8, u8))
    ensures
        manhattan(a, c) <= manhattan(a, b) + manhattan(b, c),
{
}

/// Lee distance is symmetric.
pub proof fn lemma_lee_symmetric(a: (u8, u8, u8), b: (u8, u8, u8))
    ensures
        lee_defined(a, b) == lee_defined(b, a),
        lee(a, b) == lee(b, a),
{
}

/// Between two ternary points, every coordinate difference is at most 2, so the
/// Lee distance is always computable.
pub proof fn lemma_lee_defined_on_ternary(a: TernaryPoint, b: TernaryPoint)
    requires
        a.is_ternary(),
        b.is_ternary(),
    ensures
        lee_defined(a@, b@),
{
}

/// On {0, 1, 2} the Lee distance of one coordinate is the cyclic distance on Z/3Z:
/// the smaller of `(x - y) mod 3` and `(y - x) mod 3`. In particular 0 and 2 are
/// at distance 1.
pub proof fn lemma_lee_coord_is_cyclic(x: u8, y: u8)
    requires
        x <= 2,
        y <= 2,
    ensures
        lee_coord(abs_diff(x as int, y as int)) == (if (x - y) % 3 <= (y - x) % 3 {
            (x - y) % 3
        } else {
            (y - x) % 3
        }),
{
}

/// Between ternary points every differing coordinate is at Lee distance 1, so the
/// Lee distance equals the Hamming distance.
pub proof fn lemma_lee_equals_hamming_on_ternary(a: TernaryPoint, b: TernaryPoint)
    requires
        a.is_ternary(),
        b.is_ternary(),
    ensures
        lee(a@, b@) == hamming(a@, b@),
{
}

/// The Lee distance never exceeds the Manhattan distance.
pub proof fn lemma_lee_at_most_manhattan(a: (u8, u8, u8), b: (u8, u8, u8))
    requires
        lee_defined(a, b),
    ensures
        0 <= lee(a, b) <= manhattan(a, b),
{
}

/// Hamming distance is symmetric, at most 3, and zero exactly between equal points.
pub proof fn lemma_hamming_basics(a: (u8, u8, u8), b: (u8, u8, u8))
    ensures
        hamming(a, b) == hamming(b, a),
        0 <= hamming(a, b) <= 3,
        hamming(a, b) == 0 <==> a == b,
{
}

/// Hamming distance obeys the triangle inequality.
pub proof fn lemma_hamming_triangle(a: (u8, u8, u8), b: (u8, u8, u8), c: (u8, u8, u8))
    ensures
        hamming(a, c) <= hamming(a, b) + hamming(b, c),
{
}

/// Each differing coordinate adds at least 1 to the Manhattan distance, and between
/// ternary points at most 2.
pub proof fn lemma_hamming_bounds_manhattan(a: TernaryPoint, b: TernaryPoint)
    ensures
        hamming(a@, b@) <= manhattan(a@, b@),
        a.is_ternary() && b.is_ternary() ==> manhattan(a@, b@) <= 2 * hamming(a@, b@),
{
}

/// Manhattan distance treats the three axes alike: permuting the coordinates of both
/// points leaves it unchanged.
pub proof fn lemma_manhattan_axes_alike(a: (u8, u8, u8), b: (u8, u8, u8))
    ensures
        manhattan(a, b) == manhattan((a.1, a.0, a.2), (b.1, b.0, b.2)),
        manhattan(a, b) == manhattan((a.2, a.1, a.0), (b.2, b.1, b.0)),
        manhattan(a, b) == manhattan((a.0, a.2, a.1), (b.0, b.2, b.1)),
{
}

/// Manhattan distance adds up the per-axis gaps: moving one coordinate by `d` (and
/// nothing else) moves a point by exactly `d`, along any axis.
pub proof fn lemma_manhattan_axis_step(a: (u8, u8, u8), d: u8)
    ensures
        a.0 + d <= 255 ==> manhattan(a, ((a.0 + d) as u8, a.1, a.2)) == d,
        a.1 + d <= 255 ==> manhattan(a, (a.0, (a.1 + d) as u8, a.2)) == d,
        a.2 + d <= 255 ==> manhattan(a, (a.0, a.1, (a.2 + d) as u8)) == d,
{
}

/// Where no coordinate differs by more than 1, the Manhattan distance counts the
/// differing coordinates, as the Hamming distance does.
pub proof fn lemma_manhattan_unit_gaps_is_hamming(a: (u8, u8, u8), b: (u8, u8, u8))
    requires
        abs_diff(a.0 as int, b.0 as int) <= 1,
        abs_diff(a.1 as int, b.1 as int) <= 1,
        abs_diff(a.2 as int, b.2 as int) <= 1,
    ensures
        manhattan(a, b) == hamming(a, b),
{
}

/// Lee and Hamming distances treat the three axes alike too: permuting the
/// coordinates of both points leaves them unchanged.
pub proof fn lemma_lee_and_hamming_axes_alike(a: (u8, u8, u8), b: (u8, u8, u8))
    ensures
        lee(a, b) == lee((a.1, a.0, a.2), (b.1, b.0, b.2)),
        lee(a, b) == lee((a.2, a.1, a.0), (b.2, b.1, b.0)),
        hamming(a, b) == hamming((a.1, a.0, a.2), (b.1, b.0, b.2)),
        hamming(a, b) == hamming((a.2, a.1, a.0), (b.2, b.1, b.0)),
{
}

/// One coordinate's contribution to the Lee distance: equal values give 0, values
/// 1 or 2 apart give 1 (2 apart wraps round Z/3Z), and values 3 apart give 0.
pub proof fn lemma_lee_coord_values(d: int)
    requires
        0 <= d <= 3,
    ensures
        lee_coord(d) == (if d == 0 || d == 3 {
            0int
        } else {
            1int
        }),
{
}

} // verus!
