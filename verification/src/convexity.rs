//! Why gift wrapping finds the convex hull of planar points: from each hull vertex
//! the points lie in a half-plane with no two points in opposite directions, where
//! "beats" is a strict order, so one scan finds the most counter-clockwise point and
//! no point lies strictly left of the resulting edge. Where no two points share x and
//! y, the walk turns strictly clockwise around its start, so it closes without
//! repeating an index, and its entries are exactly the extreme points.

use vstd::prelude::*;

use crate::hull::{
    beats, gift_wrap, hull_start, is_hull_start, lemma_gift_wrap_shape, lemma_hull_start_is_leftmost,
    lemma_wrap_candidate_range, lemma_wrap_next_range, lex_below, wrap_candidate, wrap_from,
    wrap_next,
};
use crate::line::{cross, lemma_cross_reverse};
use crate::point::TernaryPoint;

verus! {

/// Cross product of the plane vectors `(ax, ay)` and `(bx, by)`.
pub open spec fn cr(ax: int, ay: int, bx: int, by: int) -> int {
    ax * by - ay * bx
}

/// Dot product of the plane vectors `(ax, ay)` and `(bx, by)`.
pub open spec fn dt(ax: int, ay: int, bx: int, by: int) -> int {
    ax * bx + ay * by
}

/// `|a|`.
pub open spec fn iabs(a: int) -> int {
    if a >= 0 {
        a
    } else {
        -a
    }
}

/// L1 length of the plane vector `(ax, ay)`.
pub open spec fn l1(ax: int, ay: int) -> int {
    iabs(ax) + iabs(ay)
}

/// `(vx, vy)` beats `(ux, uy)` as the next hull direction: it turns strictly
/// counter-clockwise from it, or points the same way (or is zero) and is longer.
pub open spec fn vbeats(ux: int, uy: int, vx: int, vy: int) -> bool {
    cr(ux, uy, vx, vy) > 0 || (cr(ux, uy, vx, vy) == 0 && l1(vx, vy) > l1(ux, uy))
}

/// Two vectors point in exactly opposite directions.
pub open spec fn antipodal(ux: int, uy: int, vx: int, vy: int) -> bool {
    cr(ux, uy, vx, vy) == 0 && dt(ux, uy, vx, vy) < 0
}

#[verifier::rlimit(50)]
proof fn lemma_cross_expansion(wx: int, wy: int, ux: int, uy: int, tx: int, ty: int)
    by (nonlinear_arith)
    ensures
        (ux * ty - uy * tx) * wx == (wx * ty - wy * tx) * ux - (wx * uy - wy * ux) * tx,
        (ux * ty - uy * tx) * wy == (wx * ty - wy * tx) * uy - (wx * uy - wy * ux) * ty,
{
}

#[verifier::rlimit(50)]
proof fn lemma_dot_cross_expansion(ux: int, uy: int, vx: int, vy: int)
    by (nonlinear_arith)
    ensures
        vx * (ux * ux + uy * uy) == ux * (ux * vx + uy * vy) - uy * (ux * vy - uy * vx),
        vy * (ux * ux + uy * uy) == uy * (ux * vx + uy * vy) + ux * (ux * vy - uy * vx),
{
}

proof fn lemma_parallel_transfer(wx: int, wy: int, ux: int, uy: int, tx: int, ty: int)
    requires
        wx != 0 || wy != 0,
        cr(wx, wy, ux, uy) == 0,
        cr(wx, wy, tx, ty) == 0,
    ensures
        cr(ux, uy, tx, ty) == 0,
{
    let c = cr(ux, uy, tx, ty);
    lemma_cross_expansion(wx, wy, ux, uy, tx, ty);
    assert(c * wx == 0 && c * wy == 0);
    if c != 0 {
        assert(wx == 0) by (nonlinear_arith)
            requires
                c * wx == 0,
                c != 0,
        ;
        assert(wy == 0) by (nonlinear_arith)
            requires
                c * wy == 0,
                c != 0,
        ;
    }
}

proof fn lemma_parallel_dot_nonzero(ux: int, uy: int, vx: int, vy: int)
    requires
        ux != 0 || uy != 0,
        vx != 0 || vy != 0,
        cr(ux, uy, vx, vy) == 0,
    ensures
        dt(ux, uy, vx, vy) != 0,
{
    lemma_dot_cross_expansion(ux, uy, vx, vy);
    let n = ux * ux + uy * uy;
    assert(ux * ux + uy * uy > 0) by (nonlinear_arith)
        requires
            ux != 0 || uy != 0,
    ;
    if dt(ux, uy, vx, vy) == 0 {
        assert(vx * n == 0 && vy * n == 0);
        assert(vx == 0) by (nonlinear_arith)
            requires
                vx * n == 0,
                n > 0,
        ;
        assert(vy == 0) by (nonlinear_arith)
            requires
                vy * n == 0,
                n > 0,
        ;
    }
}

/// Vectors along one line and one way have coordinates of matching signs, so their
/// L1 lengths add up.
proof fn lemma_same_direction_l1(ux: int, uy: int, vx: int, vy: int)
    requires
        cr(ux, uy, vx, vy) == 0,
        dt(ux, uy, vx, vy) > 0,
    ensures
        ux * vx >= 0,
        uy * vy >= 0,
        l1(ux + vx, uy + vy) == l1(ux, uy) + l1(vx, vy),
{
    assert((ux * vy) * (uy * vx) == (ux * vx) * (uy * vy)) by (nonlinear_arith);
    assert(ux * vy == uy * vx);
    assert((ux * vy) * (ux * vy) >= 0) by (nonlinear_arith);
    if ux * vx < 0 {
        assert(uy * vy > 0);
        assert((ux * vx) * (uy * vy) < 0) by (nonlinear_arith)
            requires
                ux * vx < 0,
                uy * vy > 0,
        ;
    }
    if uy * vy < 0 {
        assert(ux * vx > 0);
        assert((ux * vx) * (uy * vy) < 0) by (nonlinear_arith)
            requires
                ux * vx > 0,
                uy * vy < 0,
        ;
    }
    assert(iabs(ux + vx) == iabs(ux) + iabs(vx)) by (nonlinear_arith)
        requires
            ux * vx >= 0,
    ;
    assert(iabs(uy + vy) == iabs(uy) + iabs(vy)) by (nonlinear_arith)
        requires
            uy * vy >= 0,
    ;
}

#[verifier::rlimit(50)]
proof fn lemma_vector_identity(ux: int, uy: int, vx: int, vy: int, tx: int, ty: int)
    by (nonlinear_arith)
    ensures
        (ux * vy - uy * vx) * tx + (vx * ty - vy * tx) * ux + (tx * uy - ty * ux) * vx == 0,
        (ux * vy - uy * vx) * ty + (vx * ty - vy * tx) * uy + (tx * uy - ty * ux) * vy == 0,
{
}

proof fn lemma_scale(a: int, zx: int, zy: int, px: int, py: int)
    by (nonlinear_arith)
    ensures
        a * (zx * px + zy * py) == zx * (a * px) + zy * (a * py),
{
}

proof fn lemma_distribute3(z: int, x1: int, x2: int, x3: int)
    by (nonlinear_arith)
    ensures
        z * (x1 + x2 + x3) == z * x1 + z * x2 + z * x3,
{
}

proof fn lemma_combination(
    a: int,
    b: int,
    c: int,
    px: int,
    py: int,
    qx: int,
    qy: int,
    rx: int,
    ry: int,
    zx: int,
    zy: int,
)
    ensures
        a * (zx * px + zy * py) + b * (zx * qx + zy * qy) + c * (zx * rx + zy * ry) == zx * (a * px + b
            * qx + c * rx) + zy * (a * py + b * qy + c * ry),
{
    lemma_scale(a, zx, zy, px, py);
    lemma_scale(b, zx, zy, qx, qy);
    lemma_scale(c, zx, zy, rx, ry);
    lemma_distribute3(zx, a * px, b * qx, c * rx);
    lemma_distribute3(zy, a * py, b * qy, c * ry);
}

proof fn lemma_cross_as_dot(wx: int, wy: int, px: int, py: int)
    by (nonlinear_arith)
    ensures
        -wy * px + wx * py == cr(wx, wy, px, py),
{
}

proof fn lemma_cross_antisymmetric(ux: int, uy: int, vx: int, vy: int)
    ensures
        cr(vx, vy, ux, uy) == -cr(ux, uy, vx, vy),
        dt(vx, vy, ux, uy) == dt(ux, uy, vx, vy),
{
    assert(vx * uy == uy * vx && vy * ux == ux * vy && vx * ux == ux * vx && vy * uy == uy * vy)
        by (nonlinear_arith);
}

/// With `a = cr(u, v)`, `b = cr(v, t)` and `c = cr(t, u)`, the vector `a t + b u + c v`
/// vanishes; paired with `(zx, zy)` this gives one scalar equation.
proof fn lemma_pairing(ux: int, uy: int, vx: int, vy: int, tx: int, ty: int, zx: int, zy: int)
    ensures
        cr(ux, uy, vx, vy) * (zx * tx + zy * ty) + cr(vx, vy, tx, ty) * (zx * ux + zy * uy) + cr(
            tx,
            ty,
            ux,
            uy,
        ) * (zx * vx + zy * vy) == 0,
{
    lemma_vector_identity(ux, uy, vx, vy, tx, ty);
    lemma_combination(
        cr(ux, uy, vx, vy),
        cr(vx, vy, tx, ty),
        cr(tx, ty, ux, uy),
        tx,
        ty,
        ux,
        uy,
        vx,
        vy,
        zx,
        zy,
    );
    assert(zx * 0 + zy * 0 == 0) by (nonlinear_arith);
}

proof fn lemma_sum_of_nonneg_products(a: int, x: int, b: int, y: int, c: int, z: int)
    by (nonlinear_arith)
    requires
        a > 0,
        b > 0,
        c >= 0,
        x >= 0,
        y >= 0,
        z >= 0,
        a * x + b * y + c * z == 0,
    ensures
        x == 0,
        y == 0,
{
}

proof fn lemma_sum_of_nonpos_products(a: int, x: int, b: int, y: int, c: int, z: int)
    by (nonlinear_arith)
    requires
        a > 0,
        b > 0,
        c > 0,
        x <= 0,
        y <= 0,
        z <= 0,
        a * x + b * y + c * z == 0,
    ensures
        x == 0,
        y == 0,
        z == 0,
{
}

proof fn lemma_positive_square(ux: int, uy: int)
    by (nonlinear_arith)
    requires
        ux != 0 || uy != 0,
    ensures
        ux * ux + uy * uy > 0,
{
}

proof fn lemma_pos_product(a: int, b: int)
    by (nonlinear_arith)
    requires
        a > 0,
        b > 0,
    ensures
        a * b > 0,
{
}

proof fn lemma_neg_factor(a: int, p: int, c: int, q: int)
    by (nonlinear_arith)
    requires
        a * p + c * q == 0,
        a * p > 0,
        q > 0,
    ensures
        c < 0,
{
}

/// Within a closed half-plane (left of `w`) that holds no two opposite directions,
/// turning strictly counter-clockwise is transitive.
pub proof fn lemma_turn_transitive(
    wx: int,
    wy: int,
    ux: int,
    uy: int,
    vx: int,
    vy: int,
    tx: int,
    ty: int,
)
    requires
        wx != 0 || wy != 0,
        cr(wx, wy, ux, uy) >= 0,
        cr(wx, wy, vx, vy) >= 0,
        cr(wx, wy, tx, ty) >= 0,
        !antipodal(ux, uy, tx, ty),
        cr(ux, uy, vx, vy) > 0,
        cr(vx, vy, tx, ty) > 0,
    ensures
        cr(ux, uy, tx, ty) > 0,
{
    let a = cr(ux, uy, vx, vy);
    let b = cr(vx, vy, tx, ty);
    let c = cr(tx, ty, ux, uy);
    lemma_cross_antisymmetric(ux, uy, tx, ty);
    if c >= 0 {
        // Paired with the normal of w, the identity forces u and t onto w's line.
        lemma_pairing(ux, uy, vx, vy, tx, ty, -wy, wx);
        lemma_cross_as_dot(wx, wy, tx, ty);
        lemma_cross_as_dot(wx, wy, ux, uy);
        lemma_cross_as_dot(wx, wy, vx, vy);
        lemma_sum_of_nonneg_products(
            a,
            cr(wx, wy, tx, ty),
            b,
            cr(wx, wy, ux, uy),
            c,
            cr(wx, wy, vx, vy),
        );
        lemma_parallel_transfer(wx, wy, ux, uy, tx, ty);
        assert(ux != 0 || uy != 0);
        assert(tx != 0 || ty != 0);
        lemma_parallel_dot_nonzero(ux, uy, tx, ty);
        assert(dt(ux, uy, tx, ty) > 0);
        // Paired with u itself, the identity becomes a sum of two positive terms.
        lemma_pairing(ux, uy, vx, vy, tx, ty, ux, uy);
        lemma_positive_square(ux, uy);
        lemma_pos_product(a, ux * tx + uy * ty);
        lemma_pos_product(b, ux * ux + uy * uy);
        assert(false);
    }
}

/// Within a closed half-plane (left of `w`) that holds no two opposite directions,
/// `vbeats` is transitive.
pub proof fn lemma_vbeats_transitive(
    wx: int,
    wy: int,
    ux: int,
    uy: int,
    vx: int,
    vy: int,
    tx: int,
    ty: int,
)
    requires
        wx != 0 || wy != 0,
        cr(wx, wy, ux, uy) >= 0,
        cr(wx, wy, vx, vy) >= 0,
        cr(wx, wy, tx, ty) >= 0,
        !antipodal(ux, uy, vx, vy),
        !antipodal(vx, vy, tx, ty),
        !antipodal(ux, uy, tx, ty),
        vbeats(ux, uy, vx, vy),
        vbeats(vx, vy, tx, ty),
    ensures
        vbeats(ux, uy, tx, ty),
{
    let a = cr(ux, uy, vx, vy);
    let b = cr(vx, vy, tx, ty);
    let c = cr(tx, ty, ux, uy);
    lemma_cross_antisymmetric(ux, uy, tx, ty);
    lemma_cross_antisymmetric(ux, uy, vx, vy);
    if a > 0 && b > 0 {
        lemma_turn_transitive(wx, wy, ux, uy, vx, vy, tx, ty);
    } else if a == 0 && b > 0 {
        if ux == 0 && uy == 0 {
            assert(cr(ux, uy, tx, ty) == 0) by (nonlinear_arith)
                requires
                    ux == 0 && uy == 0,
            ;
        } else {
            assert(vx != 0 || vy != 0);
            lemma_parallel_dot_nonzero(ux, uy, vx, vy);
            assert(dt(ux, uy, vx, vy) > 0);
            lemma_pairing(ux, uy, vx, vy, tx, ty, ux, uy);
            lemma_positive_square(ux, uy);
            lemma_pos_product(b, ux * ux + uy * uy);
            lemma_cross_antisymmetric(ux, uy, vx, vy);
            assert(ux * vx + uy * vy == vx * ux + vy * uy) by (nonlinear_arith);
            assert(a * (ux * tx + uy * ty) == 0) by (nonlinear_arith)
                requires
                    a == 0,
            ;
            lemma_neg_factor(b, ux * ux + uy * uy, c, ux * vx + uy * vy);
        }
    } else if a > 0 && b == 0 {
        assert(vx != 0 || vy != 0);
        assert(tx != 0 || ty != 0);
        lemma_parallel_dot_nonzero(vx, vy, tx, ty);
        assert(dt(vx, vy, tx, ty) > 0);
        lemma_pairing(ux, uy, vx, vy, tx, ty, vx, vy);
        lemma_positive_square(vx, vy);
        assert(vx * tx + vy * ty == tx * vx + ty * vy) by (nonlinear_arith);
        lemma_pos_product(a, vx * tx + vy * ty);
        assert(b * (vx * ux + vy * uy) == 0) by (nonlinear_arith)
            requires
                b == 0,
        ;
        lemma_neg_factor(a, vx * tx + vy * ty, c, vx * vx + vy * vy);
    } else {
        assert(a == 0 && b == 0);
        assert(vx != 0 || vy != 0);
        lemma_cross_antisymmetric(ux, uy, vx, vy);
        lemma_parallel_transfer(vx, vy, ux, uy, tx, ty);
    }
}

proof fn lemma_neg_cross_shift(ex: int, ey: int, px: int, py: int)
    by (nonlinear_arith)
    ensures
        cr(-ex, -ey, px - ex, py - ey) == -cr(ex, ey, px, py),
        cr(ex, ey, px - ex, py - ey) == cr(ex, ey, px, py),
{
}

proof fn lemma_cross_neg_right(ex: int, ey: int, ax: int, ay: int)
    by (nonlinear_arith)
    ensures
        cr(ex, ey, -ax, -ay) == -cr(ex, ey, ax, ay),
        dt(ex, ey, -ax, -ay) == -dt(ex, ey, ax, ay),
{
}

proof fn lemma_cross_zero_vector(ex: int, ey: int)
    by (nonlinear_arith)
    ensures
        cr(ex, ey, 0, 0) == 0,
        cr(0, 0, ex, ey) == 0,
        cr(ex, ey, ex, ey) == 0,
{
}

proof fn lemma_product_signs(ex: int, ax: int, bx: int)
    by (nonlinear_arith)
    requires
        ex != 0,
        ex * ax <= 0,
        ex * bx <= 0,
    ensures
        ax * bx >= 0,
{
    assert((ex * ax) * (ex * bx) >= 0);
    assert((ex * ax) * (ex * bx) == (ex * ex) * (ax * bx));
}

proof fn lemma_zero_factor(a: int, b: int)
    by (nonlinear_arith)
    requires
        a != 0,
        a * b == 0,
    ensures
        b == 0,
{
}

proof fn lemma_sign_of_scaled(n: int, d: int, x: int, y: int)
    by (nonlinear_arith)
    requires
        n > 0,
        d < 0,
        y * n == d * x,
        x >= 0,
        y >= 0,
    ensures
        x == 0,
        y == 0,
{
}

/// For two vectors on one line, their crosses with any `w` are related through their
/// dot product: `cr(w, b) |a|^2 = dt(a, b) cr(w, a)`.
proof fn lemma_parallel_cross_relation(wx: int, wy: int, ax: int, ay: int, bx: int, by: int)
    requires
        cr(ax, ay, bx, by) == 0,
    ensures
        cr(wx, wy, bx, by) * (ax * ax + ay * ay) == dt(ax, ay, bx, by) * cr(wx, wy, ax, ay),
{
    lemma_dot_cross_expansion(ax, ay, bx, by);
    let n = ax * ax + ay * ay;
    let d = ax * bx + ay * by;
    assert(bx * n == ax * d);
    assert(by * n == ay * d);
    assert((wx * by - wy * bx) * n == wx * (by * n) - wy * (bx * n)) by (nonlinear_arith);
    assert(wx * (ay * d) - wy * (ax * d) == d * (wx * ay - wy * ax)) by (nonlinear_arith);
}

/// In a closed half-plane left of `w`, two opposite vectors both lie on `w`'s line.
proof fn lemma_antipodal_on_boundary(wx: int, wy: int, ax: int, ay: int, bx: int, by: int)
    requires
        antipodal(ax, ay, bx, by),
        cr(wx, wy, ax, ay) >= 0,
        cr(wx, wy, bx, by) >= 0,
    ensures
        cr(wx, wy, ax, ay) == 0,
        cr(wx, wy, bx, by) == 0,
        ax != 0 || ay != 0,
        bx != 0 || by != 0,
{
    if ax == 0 && ay == 0 {
        assert(dt(ax, ay, bx, by) == 0) by (nonlinear_arith)
            requires
                ax == 0 && ay == 0,
        ;
    }
    if bx == 0 && by == 0 {
        assert(dt(ax, ay, bx, by) == 0) by (nonlinear_arith)
            requires
                bx == 0 && by == 0,
        ;
    }
    lemma_positive_square(ax, ay);
    lemma_parallel_cross_relation(wx, wy, ax, ay, bx, by);
    lemma_sign_of_scaled(
        ax * ax + ay * ay,
        dt(ax, ay, bx, by),
        cr(wx, wy, ax, ay),
        cr(wx, wy, bx, by),
    );
}

/// Vectors with `x >= 0`, and `y >= 0` where `x == 0`, are never opposite.
proof fn lemma_right_half_no_antipodes(ax: int, ay: int, bx: int, by: int)
    requires
        ax >= 0,
        bx >= 0,
        ax == 0 ==> ay >= 0,
        bx == 0 ==> by >= 0,
    ensures
        !antipodal(ax, ay, bx, by),
{
    if antipodal(ax, ay, bx, by) {
        lemma_antipodal_on_boundary(0, -1, ax, ay, bx, by);
        assert(cr(0, -1, ax, ay) == ax) by (nonlinear_arith);
        assert(cr(0, -1, bx, by) == bx) by (nonlinear_arith);
        assert(ax == 0 && bx == 0);
        assert(dt(ax, ay, bx, by) == ay * by) by (nonlinear_arith)
            requires
                ax == 0 && bx == 0,
        ;
        assert(ay * by >= 0) by (nonlinear_arith)
            requires
                ay >= 0,
                by >= 0,
        ;
    }
}

proof fn lemma_abs_of_product(x: int, y: int)
    by (nonlinear_arith)
    ensures
        iabs(x * y) == iabs(x) * iabs(y),
        x * y >= 0 ==> x * y == iabs(x) * iabs(y),
        x * x == iabs(x) * iabs(x),
{
}

proof fn lemma_proportional_bounds(aa: int, bb: int, a: int, b: int)
    by (nonlinear_arith)
    requires
        aa >= 0,
        bb >= 0,
        a >= 0,
        b >= 0,
        aa * b == bb * a,
        a + b <= aa + bb,
    ensures
        a <= aa,
        b <= bb,
{
    if a > aa {
        assert(b < bb);
        if aa > 0 && bb > 0 {
            assert(aa * b < aa * bb);
            assert(bb * a > bb * aa);
        }
    }
    if b > bb {
        assert(a < aa);
        if aa > 0 && bb > 0 {
            assert(bb * a < bb * aa);
            assert(aa * b > aa * bb);
        }
    }
}

proof fn lemma_product_at_least_square(a: int, aa: int)
    by (nonlinear_arith)
    requires
        0 <= a <= aa,
    ensures
        a * aa >= a * a,
        a * aa == a * a ==> a == 0 || a == aa,
{
}

/// Along one direction, a vector no longer (in L1) than `e` is `e` itself or leaves a
/// remainder `e - v` that points the same way as `v`.
proof fn lemma_shorter_same_direction(vx: int, vy: int, ex: int, ey: int)
    requires
        cr(vx, vy, ex, ey) == 0,
        dt(vx, vy, ex, ey) > 0,
        l1(vx, vy) <= l1(ex, ey),
    ensures
        (ex == vx && ey == vy) || (cr(vx, vy, ex - vx, ey - vy) == 0 && dt(vx, vy, ex - vx, ey - vy) > 0),
{
    lemma_same_direction_l1(vx, vy, ex, ey);
    lemma_abs_of_product(vx, ey);
    lemma_abs_of_product(vy, ex);
    lemma_abs_of_product(vx, ex);
    lemma_abs_of_product(vy, ey);
    assert(vx * ey == vy * ex);
    assert(iabs(ex) * iabs(vy) == iabs(ey) * iabs(vx)) by (nonlinear_arith)
        requires
            iabs(vx * ey) == iabs(vx) * iabs(ey),
            iabs(vy * ex) == iabs(vy) * iabs(ex),
            vx * ey == vy * ex,
    ;
    lemma_proportional_bounds(iabs(ex), iabs(ey), iabs(vx), iabs(vy));
    lemma_product_at_least_square(iabs(vx), iabs(ex));
    lemma_product_at_least_square(iabs(vy), iabs(ey));
    let d = dt(vx, vy, ex - vx, ey - vy);
    assert(vx * (ex - vx) + vy * (ey - vy) == (vx * ex - vx * vx) + (vy * ey - vy * vy))
        by (nonlinear_arith);
    assert(cr(vx, vy, ex - vx, ey - vy) == cr(vx, vy, ex, ey) - cr(vx, vy, vx, vy)) by (nonlinear_arith);
    lemma_cross_zero_vector(vx, vy);
    if d <= 0 {
        assert(vx * ex == vx * vx && vy * ey == vy * vy);
        if vx == 0 && ex != 0 {
            lemma_zero_factor(ex, vy);
            assert(dt(vx, vy, ex, ey) == 0) by (nonlinear_arith)
                requires
                    vx == 0 && vy == 0,
            ;
        }
        if vy == 0 && ey != 0 {
            lemma_zero_factor(ey, vx);
            assert(dt(vx, vy, ex, ey) == 0) by (nonlinear_arith)
                requires
                    vx == 0 && vy == 0,
            ;
        }
        assert(iabs(vx) == 0 || iabs(vx) == iabs(ex));
        assert(iabs(vy) == 0 || iabs(vy) == iabs(ey));
        assert(ex == vx) by (nonlinear_arith)
            requires
                iabs(vx) == 0 || iabs(vx) == iabs(ex),
                vx * ex >= 0,
                vx == 0 ==> ex == 0,
        ;
        assert(ey == vy) by (nonlinear_arith)
            requires
                iabs(vy) == 0 || iabs(vy) == iabs(ey),
                vy * ey >= 0,
                vy == 0 ==> ey == 0,
        ;
    }
}

/// All points lie in the plane of the first one.
pub open spec fn planar(pts: Seq<TernaryPoint>) -> bool {
    forall|j: int| 0 <= j < pts.len() ==> (#[trigger] pts[j])@.2 == pts[0]@.2
}

/// x component of the vector from point `c` to point `j`.
pub open spec fn ux(pts: Seq<TernaryPoint>, c: int, j: int) -> int {
    pts[j]@.0 - pts[c]@.0
}

/// y component of the vector from point `c` to point `j`.
pub open spec fn uy(pts: Seq<TernaryPoint>, c: int, j: int) -> int {
    pts[j]@.1 - pts[c]@.1
}

/// Seen from point `c`, every point lies in the closed half-plane left of the nonzero
/// direction `w`, and no two points lie in opposite directions.
pub open spec fn fan(pts: Seq<TernaryPoint>, c: int, wx: int, wy: int) -> bool {
    &&& wx != 0 || wy != 0
    &&& forall|j: int| 0 <= j < pts.len() ==> cr(wx, wy, #[trigger] ux(pts, c, j), uy(pts, c, j)) >= 0
    &&& forall|j: int, k: int|
        0 <= j < pts.len() && 0 <= k < pts.len() ==> !antipodal(
            #[trigger] ux(pts, c, j),
            uy(pts, c, j),
            #[trigger] ux(pts, c, k),
            uy(pts, c, k),
        )
}

/// No point lies strictly left of the directed line from point `p` to point `q`.
pub open spec fn edge_keeps_points_right(pts: Seq<TernaryPoint>, p: int, q: int) -> bool {
    forall|j: int| 0 <= j < pts.len() ==> #[trigger] cross(pts[p]@, pts[q]@, pts[j]@) <= 0
}

/// Points `p` and `q` share their x and y.
pub open spec fn same_xy(p: (u8, u8, u8), q: (u8, u8, u8)) -> bool {
    p.0 == q.0 && p.1 == q.1
}

proof fn lemma_beats_is_vbeats(pts: Seq<TernaryPoint>, c: int, a: int, i: int)
    requires
        planar(pts),
        0 <= c < pts.len(),
        0 <= a < pts.len(),
        0 <= i < pts.len(),
    ensures
        beats(pts[c]@, pts[a]@, pts[i]@) == vbeats(ux(pts, c, a), uy(pts, c, a), ux(pts, c, i), uy(pts, c, i)),
        cross(pts[c]@, pts[a]@, pts[i]@) == cr(ux(pts, c, a), uy(pts, c, a), ux(pts, c, i), uy(pts, c, i)),
{
    assert(pts[c]@.2 == pts[0]@.2);
    assert(pts[a]@.2 == pts[0]@.2);
    assert(pts[i]@.2 == pts[0]@.2);
}

proof fn lemma_scan_finds_max(pts: Seq<TernaryPoint>, c: int, k: nat, wx: int, wy: int)
    requires
        pts.len() >= 2,
        0 <= c < pts.len(),
        k <= pts.len(),
        planar(pts),
        fan(pts, c, wx, wy),
    ensures
        forall|j: int|
            0 <= j < k && j != c ==> !vbeats(
                ux(pts, c, wrap_candidate(pts, c, k)),
                uy(pts, c, wrap_candidate(pts, c, k)),
                #[trigger] ux(pts, c, j),
                uy(pts, c, j),
            ),
    decreases k,
{
    lemma_wrap_candidate_range(pts, c, k);
    if k > 0 {
        let k1 = (k - 1) as nat;
        lemma_scan_finds_max(pts, c, k1, wx, wy);
        lemma_wrap_candidate_range(pts, c, k1);
        let nx = wrap_candidate(pts, c, k1);
        let i = k - 1;
        let a = wrap_candidate(pts, c, k);
        if i != c && nx != c && beats(pts[c]@, pts[nx]@, pts[i]@) {
            lemma_beats_is_vbeats(pts, c, nx, i);
            assert forall|j: int| 0 <= j < k && j != c implies !vbeats(
                ux(pts, c, a),
                uy(pts, c, a),
                #[trigger] ux(pts, c, j),
                uy(pts, c, j),
            ) by {
                if j < i && vbeats(ux(pts, c, i), uy(pts, c, i), ux(pts, c, j), uy(pts, c, j)) {
                    assert(cr(wx, wy, ux(pts, c, nx), uy(pts, c, nx)) >= 0);
                    assert(cr(wx, wy, ux(pts, c, i), uy(pts, c, i)) >= 0);
                    assert(cr(wx, wy, ux(pts, c, j), uy(pts, c, j)) >= 0);
                    assert(!antipodal(ux(pts, c, nx), uy(pts, c, nx), ux(pts, c, i), uy(pts, c, i)));
                    assert(!antipodal(ux(pts, c, i), uy(pts, c, i), ux(pts, c, j), uy(pts, c, j)));
                    assert(!antipodal(ux(pts, c, nx), uy(pts, c, nx), ux(pts, c, j), uy(pts, c, j)));
                    lemma_vbeats_transitive(
                        wx,
                        wy,
                        ux(pts, c, nx),
                        uy(pts, c, nx),
                        ux(pts, c, i),
                        uy(pts, c, i),
                        ux(pts, c, j),
                        uy(pts, c, j),
                    );
                }
            }
        } else if i != c && nx != c {
            lemma_beats_is_vbeats(pts, c, nx, i);
        }
    }
}

proof fn lemma_neg_product(ex: int, ax: int)
    by (nonlinear_arith)
    ensures
        ex * (-ax) == -(ex * ax),
{
}

/// Two vectors on the line of `e`, both pointing against `e`, are not opposite.
proof fn lemma_both_against_not_opposite(ex: int, ey: int, ax: int, ay: int, bx: int, by: int)
    requires
        ex != 0 || ey != 0,
        cr(ex, ey, ax, ay) == 0,
        cr(ex, ey, bx, by) == 0,
        dt(ex, ey, ax, ay) < 0,
        dt(ex, ey, bx, by) < 0,
    ensures
        dt(ax, ay, bx, by) >= 0,
{
    lemma_cross_neg_right(ex, ey, ax, ay);
    lemma_cross_neg_right(ex, ey, bx, by);
    lemma_same_direction_l1(ex, ey, -ax, -ay);
    lemma_same_direction_l1(ex, ey, -bx, -by);
    lemma_neg_product(ex, ax);
    lemma_neg_product(ey, ay);
    lemma_neg_product(ex, bx);
    lemma_neg_product(ey, by);
    if ex != 0 {
        lemma_product_signs(ex, ax, bx);
    } else {
        assert(cr(ex, ey, ax, ay) == -(ey * ax)) by (nonlinear_arith)
            requires
                ex == 0,
        ;
        assert(cr(ex, ey, bx, by) == -(ey * bx)) by (nonlinear_arith)
            requires
                ex == 0,
        ;
        lemma_zero_factor(ey, ax);
        lemma_zero_factor(ey, bx);
        assert(ax * bx == 0) by (nonlinear_arith)
            requires
                ax == 0,
        ;
    }
    if ey != 0 {
        lemma_product_signs(ey, ay, by);
    } else {
        assert(cr(ex, ey, ax, ay) == ex * ay) by (nonlinear_arith)
            requires
                ey == 0,
        ;
        assert(cr(ex, ey, bx, by) == ex * by) by (nonlinear_arith)
            requires
                ey == 0,
        ;
        lemma_zero_factor(ex, ay);
        lemma_zero_factor(ex, by);
        assert(ay * by == 0) by (nonlinear_arith)
            requires
                ay == 0,
        ;
    }
}

/// One gift-wrapping step from a point with a fan: the chosen edge keeps every point
/// on its right, it is degenerate only when all points share the current point's x
/// and y, and the chosen point again has a fan.
proof fn lemma_wrap_step(pts: Seq<TernaryPoint>, c: int, wx: int, wy: int) -> (w2: (int, int))
    requires
        pts.len() >= 2,
        0 <= c < pts.len(),
        planar(pts),
        fan(pts, c, wx, wy),
    ensures
        edge_keeps_points_right(pts, c, wrap_next(pts, c)),
        same_xy(pts[wrap_next(pts, c)]@, pts[c]@) ==> forall|j: int|
            0 <= j < pts.len() ==> same_xy(#[trigger] pts[j]@, pts[c]@),
        fan(pts, wrap_next(pts, c), w2.0, w2.1),
        !same_xy(pts[wrap_next(pts, c)]@, pts[c]@) ==> w2 == (
            ux(pts, wrap_next(pts, c), c),
            uy(pts, wrap_next(pts, c), c),
        ),
{
    let n = pts.len();
    lemma_wrap_next_range(pts, c);
    lemma_scan_finds_max(pts, c, n, wx, wy);
    let a = wrap_next(pts, c);
    let ex = ux(pts, c, a);
    let ey = uy(pts, c, a);
    lemma_cross_zero_vector(ex, ey);
    assert forall|j: int| 0 <= j < n implies #[trigger] cross(pts[c]@, pts[a]@, pts[j]@) <= 0 by {
        lemma_beats_is_vbeats(pts, c, a, j);
        if j == c {
            assert(ux(pts, c, j) == 0 && uy(pts, c, j) == 0);
        } else {
            assert(!vbeats(ex, ey, ux(pts, c, j), uy(pts, c, j)));
        }
    }
    if ex == 0 && ey == 0 {
        assert forall|j: int| 0 <= j < n implies same_xy(#[trigger] pts[j]@, pts[c]@) by {
            if j != c {
                assert(!vbeats(ex, ey, ux(pts, c, j), uy(pts, c, j)));
                lemma_cross_zero_vector(ux(pts, c, j), uy(pts, c, j));
            }
        }
        assert forall|j: int| 0 <= j < n implies cr(wx, wy, #[trigger] ux(pts, a, j), uy(pts, a, j)) >= 0 by {
            assert(ux(pts, a, j) == ux(pts, c, j));
            assert(uy(pts, a, j) == uy(pts, c, j));
        }
        assert forall|j: int, k: int| 0 <= j < n && 0 <= k < n implies !antipodal(
            #[trigger] ux(pts, a, j),
            uy(pts, a, j),
            #[trigger] ux(pts, a, k),
            uy(pts, a, k),
        ) by {
            assert(ux(pts, a, j) == ux(pts, c, j));
            assert(uy(pts, a, j) == uy(pts, c, j));
            assert(ux(pts, a, k) == ux(pts, c, k));
            assert(uy(pts, a, k) == uy(pts, c, k));
        }
        (wx, wy)
    } else {
        assert forall|j: int| 0 <= j < n implies cr(-ex, -ey, #[trigger] ux(pts, a, j), uy(pts, a, j))
            >= 0 by {
            assert(ux(pts, a, j) == ux(pts, c, j) - ex);
            assert(uy(pts, a, j) == uy(pts, c, j) - ey);
            lemma_neg_cross_shift(ex, ey, ux(pts, c, j), uy(pts, c, j));
            lemma_beats_is_vbeats(pts, c, a, j);
        }
        assert forall|j: int, k: int| 0 <= j < n && 0 <= k < n implies !antipodal(
            #[trigger] ux(pts, a, j),
            uy(pts, a, j),
            #[trigger] ux(pts, a, k),
            uy(pts, a, k),
        ) by {
            let (ax, ay, bx, by) = (ux(pts, a, j), uy(pts, a, j), ux(pts, a, k), uy(pts, a, k));
            if antipodal(ax, ay, bx, by) {
                assert(ax == ux(pts, c, j) - ex && ay == uy(pts, c, j) - ey);
                assert(bx == ux(pts, c, k) - ex && by == uy(pts, c, k) - ey);
                lemma_neg_cross_shift(ex, ey, ux(pts, c, j), uy(pts, c, j));
                lemma_neg_cross_shift(ex, ey, ux(pts, c, k), uy(pts, c, k));
                lemma_beats_is_vbeats(pts, c, a, j);
                lemma_beats_is_vbeats(pts, c, a, k);
                lemma_antipodal_on_boundary(-ex, -ey, ax, ay, bx, by);
                assert(cr(ex, ey, ax, ay) == 0 && cr(ex, ey, bx, by) == 0);
                lemma_parallel_dot_nonzero(ex, ey, ax, ay);
                lemma_parallel_dot_nonzero(ex, ey, bx, by);
                if dt(ex, ey, ax, ay) > 0 {
                    lemma_same_direction_l1(ex, ey, ax, ay);
                    assert(ux(pts, c, j) == ex + ax && uy(pts, c, j) == ey + ay);
                    if j != c {
                        assert(!vbeats(ex, ey, ux(pts, c, j), uy(pts, c, j)));
                    }
                } else if dt(ex, ey, bx, by) > 0 {
                    lemma_same_direction_l1(ex, ey, bx, by);
                    assert(ux(pts, c, k) == ex + bx && uy(pts, c, k) == ey + by);
                    if k != c {
                        assert(!vbeats(ex, ey, ux(pts, c, k), uy(pts, c, k)));
                    }
                } else {
                    lemma_both_against_not_opposite(ex, ey, ax, ay, bx, by);
                }
            }
        }
        (-ex, -ey)
    }
}

/// Every step of the walk that starts from a point with a fan keeps all points on
/// the right of its edge, degenerates only where all points share the step's start
/// in x and y, and, where the walk stops early, its next step returns to `start`.
proof fn lemma_wrap_from_convex(
    pts: Seq<TernaryPoint>,
    start: int,
    cur: int,
    fuel: nat,
    wx: int,
    wy: int,
)
    requires
        pts.len() >= 2,
        0 <= cur < pts.len(),
        planar(pts),
        fan(pts, cur, wx, wy),
    ensures
        ({
            let w = wrap_from(pts, start, cur, fuel);
            &&& w.len() > 0 ==> step_ok(pts, cur, w[0])
            &&& forall|k: int| 1 <= k < w.len() ==> step_ok(pts, w[k - 1], #[trigger] w[k])
            &&& w.len() < fuel ==> wrap_next(pts, if w.len() == 0 {
                cur
            } else {
                w[w.len() - 1]
            }) == start && step_ok(pts, if w.len() == 0 {
                cur
            } else {
                w[w.len() - 1]
            }, start)
        }),
    decreases fuel,
{
    let w2 = lemma_wrap_step(pts, cur, wx, wy);
    lemma_wrap_next_range(pts, cur);
    let nx = wrap_next(pts, cur);
    if fuel > 0 && nx != start {
        lemma_wrap_from_convex(pts, start, nx, (fuel - 1) as nat, w2.0, w2.1);
        let rest = wrap_from(pts, start, nx, (fuel - 1) as nat);
        let w = wrap_from(pts, start, cur, fuel);
        assert(w == seq![nx] + rest);
        assert forall|k: int| 1 <= k < w.len() implies step_ok(pts, w[k - 1], #[trigger] w[k]) by {
            assert(w[k] == rest[k - 1]);
            if k > 1 {
                assert(w[k - 1] == rest[k - 2]);
            }
        }
        if w.len() < fuel {
            if rest.len() > 0 {
                assert(w[w.len() - 1] == rest[rest.len() - 1]);
            }
        }
    }
}

/// The step from point `p` to point `q` keeps all points on its right, and is
/// degenerate (`q` at `p`'s x and y) only where all points share `p`'s x and y.
pub open spec fn step_ok(pts: Seq<TernaryPoint>, p: int, q: int) -> bool {
    &&& edge_keeps_points_right(pts, p, q)
    &&& same_xy(pts[q]@, pts[p]@) ==> forall|j: int|
        0 <= j < pts.len() ==> same_xy(#[trigger] pts[j]@, pts[p]@)
}

/// The nonzero direction `(ex, ey)` through `(px, py)` has no point strictly on its
/// left: the line through `(px, py)` along it supports the whole point set.
pub open spec fn supports_at(pts: Seq<TernaryPoint>, px: int, py: int, ex: int, ey: int) -> bool {
    &&& ex != 0 || ey != 0
    &&& forall|j: int| 0 <= j < pts.len() ==> cr(ex, ey, #[trigger] pts[j]@.0 - px, pts[j]@.1 - py) <= 0
}

/// Point `i` lies on the boundary of the points' convex hull: all points share its x
/// and y, or some line through it has no point strictly on one side.
pub open spec fn on_hull_boundary(pts: Seq<TernaryPoint>, i: int) -> bool {
    ||| forall|j: int| 0 <= j < pts.len() ==> same_xy(#[trigger] pts[j]@, pts[i]@)
    ||| exists|ex: int, ey: int| #[trigger] supports_at(pts, pts[i]@.0 as int, pts[i]@.1 as int, ex, ey)
}

/// `p` lies strictly inside the points' convex hull: every line through it has some
/// point strictly on its left (and so, turning it round, on its right).
pub open spec fn strictly_inside(pts: Seq<TernaryPoint>, p: (u8, u8, u8)) -> bool {
    forall|ex: int, ey: int| !#[trigger] supports_at(pts, p.0 as int, p.1 as int, ex, ey)
}

proof fn lemma_step_gives_boundary(pts: Seq<TernaryPoint>, p: int, q: int)
    requires
        0 <= p < pts.len(),
        0 <= q < pts.len(),
        step_ok(pts, p, q),
    ensures
        on_hull_boundary(pts, q),
{
    if !same_xy(pts[q]@, pts[p]@) {
        let ex = ux(pts, p, q);
        let ey = uy(pts, p, q);
        assert forall|j: int| 0 <= j < pts.len() implies cr(
            ex,
            ey,
            #[trigger] pts[j]@.0 - pts[q]@.0,
            pts[j]@.1 - pts[q]@.1,
        ) <= 0 by {
            assert(cross(pts[p]@, pts[q]@, pts[j]@) <= 0);
            assert(cross(pts[p]@, pts[q]@, pts[j]@) == cr(ex, ey, ux(pts, p, j), uy(pts, p, j)));
            lemma_neg_cross_shift(ex, ey, ux(pts, p, j), uy(pts, p, j));
        }
        assert(supports_at(pts, pts[q]@.0 as int, pts[q]@.1 as int, ex, ey));
    } else {
        assert forall|j: int| 0 <= j < pts.len() implies same_xy(#[trigger] pts[j]@, pts[q]@) by {
            assert(same_xy(pts[j]@, pts[p]@));
        }
    }
}

proof fn lemma_start_fan(pts: Seq<TernaryPoint>, s: int)
    requires
        is_hull_start(pts, s),
    ensures
        fan(pts, s, 0, -1),
        supports_at(pts, pts[s]@.0 as int, pts[s]@.1 as int, 0, 1),
{
    assert forall|j: int| 0 <= j < pts.len() implies cr(0, -1, #[trigger] ux(pts, s, j), uy(pts, s, j))
        >= 0 by {
        assert(!lex_below(pts[j]@, pts[s]@));
        assert(cr(0, -1, ux(pts, s, j), uy(pts, s, j)) == ux(pts, s, j)) by (nonlinear_arith);
    }
    assert forall|j: int, k: int| 0 <= j < pts.len() && 0 <= k < pts.len() implies !antipodal(
        #[trigger] ux(pts, s, j),
        uy(pts, s, j),
        #[trigger] ux(pts, s, k),
        uy(pts, s, k),
    ) by {
        assert(!lex_below(pts[j]@, pts[s]@));
        assert(!lex_below(pts[k]@, pts[s]@));
        lemma_right_half_no_antipodes(ux(pts, s, j), uy(pts, s, j), ux(pts, s, k), uy(pts, s, k));
    }
    assert forall|j: int| 0 <= j < pts.len() implies cr(
        0,
        1,
        #[trigger] pts[j]@.0 - pts[s]@.0,
        pts[j]@.1 - pts[s]@.1,
    ) <= 0 by {
        assert(!lex_below(pts[j]@, pts[s]@));
        assert(cr(0, 1, pts[j]@.0 - pts[s]@.0, pts[j]@.1 - pts[s]@.1) == -(pts[j]@.0 - pts[s]@.0))
            by (nonlinear_arith);
    }
}

/// Gift wrapping on planar points (all with the same z) walks the convex hull: no
/// point lies strictly left of any edge between consecutive hull entries; an edge
/// joins two entries with the same x and y only where all points share them; and
/// where the walk stops before its limit, the edge from the last entry back to the
/// first keeps the points on its right as well.
pub proof fn lemma_gift_wrap_edges_convex(pts: Seq<TernaryPoint>)
    requires
        pts.len() >= 3,
        planar(pts),
    ensures
        forall|k: int|
            1 <= k < gift_wrap(pts).len() ==> step_ok(pts, gift_wrap(pts)[k - 1], #[trigger] gift_wrap(pts)[k]),
        gift_wrap(pts).len() <= pts.len() ==> wrap_next(pts, gift_wrap(pts).last()) == gift_wrap(pts)[0]
            && step_ok(pts, gift_wrap(pts).last(), gift_wrap(pts)[0]),
{
    let s = hull_start(pts);
    lemma_hull_start_is_leftmost(pts);
    lemma_start_fan(pts, s);
    lemma_wrap_from_convex(pts, s, s, pts.len(), 0, -1);
    let w = wrap_from(pts, s, s, pts.len());
    let g = gift_wrap(pts);
    assert(g == seq![s] + w);
    assert forall|k: int| 1 <= k < g.len() implies step_ok(pts, g[k - 1], #[trigger] g[k]) by {
        assert(g[k] == w[k - 1]);
        if k > 1 {
            assert(g[k - 1] == w[k - 2]);
        }
    }
    if g.len() <= pts.len() {
        if w.len() > 0 {
            assert(g.last() == w[w.len() - 1]);
        }
    }
}

/// Every hull entry lies on the boundary of the convex hull of planar points.
pub proof fn lemma_gift_wrap_on_boundary(pts: Seq<TernaryPoint>)
    requires
        planar(pts),
    ensures
        forall|k: int| 0 <= k < gift_wrap(pts).len() ==> on_hull_boundary(pts, #[trigger] gift_wrap(pts)[k]),
{
    let g = gift_wrap(pts);
    lemma_gift_wrap_shape(pts);
    if pts.len() == 1 {
        assert(on_hull_boundary(pts, 0)) by {
            assert forall|j: int| 0 <= j < pts.len() implies same_xy(#[trigger] pts[j]@, pts[0]@) by {
                assert(j == 0);
            }
        }
    } else if pts.len() == 2 {
        assert forall|i: int| 0 <= i < 2 implies on_hull_boundary(pts, i) by {
            let o = 1 - i;
            if same_xy(pts[o]@, pts[i]@) {
                assert forall|j: int| 0 <= j < pts.len() implies same_xy(#[trigger] pts[j]@, pts[i]@) by {
                    assert(j == i || j == o);
                }
            } else {
                let ex = ux(pts, i, o);
                let ey = uy(pts, i, o);
                lemma_cross_zero_vector(ex, ey);
                assert forall|j: int| 0 <= j < pts.len() implies cr(
                    ex,
                    ey,
                    #[trigger] pts[j]@.0 - pts[i]@.0,
                    pts[j]@.1 - pts[i]@.1,
                ) <= 0 by {
                    assert(j == i || j == o);
                }
                assert(supports_at(pts, pts[i]@.0 as int, pts[i]@.1 as int, ex, ey));
            }
        }
        assert(g[0] == 0 && g[1] == 1);
    } else if pts.len() >= 3 {
        lemma_gift_wrap_edges_convex(pts);
        lemma_hull_start_is_leftmost(pts);
        lemma_start_fan(pts, hull_start(pts));
        assert forall|k: int| 0 <= k < g.len() implies on_hull_boundary(pts, #[trigger] g[k]) by {
            if k == 0 {
                assert(supports_at(pts, pts[g[0]]@.0 as int, pts[g[0]]@.1 as int, 0, 1));
            } else {
                lemma_step_gives_boundary(pts, g[k - 1], g[k]);
            }
        }
    }
}

/// Points strictly inside the convex hull of planar points never appear in it.
pub proof fn lemma_gift_wrap_excludes_interior(pts: Seq<TernaryPoint>, i: int)
    requires
        planar(pts),
        0 <= i < pts.len(),
        strictly_inside(pts, pts[i]@),
    ensures
        !gift_wrap(pts).contains(i),
{
    lemma_gift_wrap_on_boundary(pts);
    if gift_wrap(pts).contains(i) {
        let k = choose|k: int| 0 <= k < gift_wrap(pts).len() && gift_wrap(pts)[k] == i;
        assert(on_hull_boundary(pts, gift_wrap(pts)[k]));
        if forall|j: int| 0 <= j < pts.len() ==> same_xy(#[trigger] pts[j]@, pts[i]@) {
            lemma_cross_zero_vector(0, 1);
            assert forall|j: int| 0 <= j < pts.len() implies cr(
                0,
                1,
                #[trigger] pts[j]@.0 - pts[i]@.0,
                pts[j]@.1 - pts[i]@.1,
            ) <= 0 by {
                assert(same_xy(pts[j]@, pts[i]@));
            }
            assert(supports_at(pts, pts[i]@.0 as int, pts[i]@.1 as int, 0, 1));
        }
    }
}

#[verifier::rlimit(50)]
proof fn lemma_cross_about_point(ax: int, ay: int, bx: int, by: int, px: int, py: int)
    by (nonlinear_arith)
    ensures
        (bx - ax) * (py - ay) - (by - ay) * (px - ax) == cr(ax - px, ay - py, bx - px, by - py),
{
}

/// A point strictly inside a triangle of input points (counter-clockwise, so each
/// side has it strictly on its left) lies strictly inside the convex hull.
pub proof fn lemma_inside_triangle_is_strictly_inside(
    pts: Seq<TernaryPoint>,
    p: (u8, u8, u8),
    a: int,
    b: int,
    c: int,
)
    requires
        0 <= a < pts.len(),
        0 <= b < pts.len(),
        0 <= c < pts.len(),
        cross(pts[a]@, pts[b]@, p) > 0,
        cross(pts[b]@, pts[c]@, p) > 0,
        cross(pts[c]@, pts[a]@, p) > 0,
    ensures
        strictly_inside(pts, p),
{
    let (px, py) = (p.0 as int, p.1 as int);
    let (ax, ay) = (pts[a]@.0 - px, pts[a]@.1 - py);
    let (bx, by) = (pts[b]@.0 - px, pts[b]@.1 - py);
    let (cx, cy) = (pts[c]@.0 - px, pts[c]@.1 - py);
    lemma_cross_about_point(pts[a]@.0 as int, pts[a]@.1 as int, pts[b]@.0 as int, pts[b]@.1 as int, px, py);
    lemma_cross_about_point(pts[b]@.0 as int, pts[b]@.1 as int, pts[c]@.0 as int, pts[c]@.1 as int, px, py);
    lemma_cross_about_point(pts[c]@.0 as int, pts[c]@.1 as int, pts[a]@.0 as int, pts[a]@.1 as int, px, py);
    assert(cr(ax, ay, bx, by) > 0 && cr(bx, by, cx, cy) > 0 && cr(cx, cy, ax, ay) > 0);
    assert forall|ex: int, ey: int| !#[trigger] supports_at(pts, px, py, ex, ey) by {
        if supports_at(pts, px, py, ex, ey) {
            assert(cr(ex, ey, pts[a]@.0 - px, pts[a]@.1 - py) <= 0);
            assert(cr(ex, ey, pts[b]@.0 - px, pts[b]@.1 - py) <= 0);
            assert(cr(ex, ey, pts[c]@.0 - px, pts[c]@.1 - py) <= 0);
            lemma_pairing(ax, ay, bx, by, cx, cy, -ey, ex);
            lemma_cross_as_dot(ex, ey, ax, ay);
            lemma_cross_as_dot(ex, ey, bx, by);
            lemma_cross_as_dot(ex, ey, cx, cy);
            lemma_sum_of_nonpos_products(
                cr(ax, ay, bx, by),
                cr(ex, ey, cx, cy),
                cr(bx, by, cx, cy),
                cr(ex, ey, ax, ay),
                cr(cx, cy, ax, ay),
                cr(ex, ey, bx, by),
            );
            lemma_parallel_transfer(ex, ey, ax, ay, bx, by);
        }
    }
}

/// No two points share both x and y.
pub open spec fn distinct_xy(pts: Seq<TernaryPoint>) -> bool {
    forall|i: int, j: int|
        0 <= i < pts.len() && 0 <= j < pts.len() && i != j ==> !same_xy(
            #[trigger] pts[i]@,
            #[trigger] pts[j]@,
        )
}

proof fn lemma_cross_from_shifted(ax: int, ay: int, bx: int, by: int)
    by (nonlinear_arith)
    ensures
        cr(bx - ax, by - ay, -ax, -ay) == cr(ax, ay, bx, by),
{
}

/// Seen from the hull's start, each step of the walk after the first turns strictly
/// clockwise, unless it returns to the start.
proof fn lemma_step_turns_around_start(pts: Seq<TernaryPoint>, s: int, cur: int, wx: int, wy: int)
    requires
        pts.len() >= 2,
        planar(pts),
        distinct_xy(pts),
        is_hull_start(pts, s),
        0 <= cur < pts.len(),
        cur != s,
        fan(pts, cur, wx, wy),
    ensures
        wrap_next(pts, cur) == s || cr(ux(pts, s, cur), uy(pts, s, cur), ux(pts, s, wrap_next(pts, cur)), uy(
            pts,
            s,
            wrap_next(pts, cur),
        )) < 0,
{
    let n = pts.len();
    let nx = wrap_next(pts, cur);
    lemma_wrap_next_range(pts, cur);
    let _ = lemma_wrap_step(pts, cur, wx, wy);
    lemma_scan_finds_max(pts, cur, n, wx, wy);
    lemma_start_fan(pts, s);
    assert(cross(pts[cur]@, pts[nx]@, pts[s]@) <= 0);
    lemma_cross_about_point(
        pts[cur]@.0 as int,
        pts[cur]@.1 as int,
        pts[nx]@.0 as int,
        pts[nx]@.1 as int,
        pts[s]@.0 as int,
        pts[s]@.1 as int,
    );
    let (ax, ay) = (ux(pts, s, cur), uy(pts, s, cur));
    let (bx, by) = (ux(pts, s, nx), uy(pts, s, nx));
    assert(cr(ax, ay, bx, by) <= 0);
    if nx != s && cr(ax, ay, bx, by) == 0 {
        assert(!same_xy(pts[cur]@, pts[s]@));
        assert(!same_xy(pts[nx]@, pts[s]@));
        assert(!same_xy(pts[nx]@, pts[cur]@));
        assert(!antipodal(ax, ay, bx, by));
        lemma_parallel_dot_nonzero(ax, ay, bx, by);
        let (ex, ey) = (ux(pts, cur, nx), uy(pts, cur, nx));
        let (vx, vy) = (ux(pts, cur, s), uy(pts, cur, s));
        assert(ex == bx - ax && ey == by - ay && vx == -ax && vy == -ay);
        lemma_cross_from_shifted(ax, ay, bx, by);
        assert(cr(ex, ey, vx, vy) == 0);
        lemma_parallel_dot_nonzero(ex, ey, vx, vy);
        if dt(ex, ey, vx, vy) < 0 {
            assert(!antipodal(ex, ey, vx, vy));
        } else {
            assert(!vbeats(ex, ey, vx, vy));
            lemma_cross_antisymmetric(ex, ey, vx, vy);
            lemma_shorter_same_direction(vx, vy, ex, ey);
            assert(ex - vx == bx && ey - vy == by);
            lemma_cross_neg_right(bx, by, ax, ay);
            lemma_cross_antisymmetric(ax, ay, bx, by);
            lemma_cross_antisymmetric(bx, by, -ax, -ay);
        }
    }
}

proof fn lemma_walk_turns(
    pts: Seq<TernaryPoint>,
    s: int,
    cur: int,
    fuel: nat,
    wx: int,
    wy: int,
)
    requires
        pts.len() >= 2,
        planar(pts),
        distinct_xy(pts),
        is_hull_start(pts, s),
        0 <= cur < pts.len(),
        fan(pts, cur, wx, wy),
    ensures
        ({
            let w = wrap_from(pts, s, cur, fuel);
            &&& cur != s && w.len() > 0 ==> cr(ux(pts, s, cur), uy(pts, s, cur), ux(pts, s, w[0]), uy(pts, s, w[0])) < 0
            &&& forall|k: int|
                1 <= k < w.len() ==> cr(
                    ux(pts, s, w[k - 1]),
                    uy(pts, s, w[k - 1]),
                    ux(pts, s, #[trigger] w[k]),
                    uy(pts, s, w[k]),
                ) < 0
        }),
    decreases fuel,
{
    let nx = wrap_next(pts, cur);
    lemma_wrap_next_range(pts, cur);
    let w2 = lemma_wrap_step(pts, cur, wx, wy);
    if cur != s {
        lemma_step_turns_around_start(pts, s, cur, wx, wy);
    }
    if fuel > 0 && nx != s {
        lemma_walk_turns(pts, s, nx, (fuel - 1) as nat, w2.0, w2.1);
        let rest = wrap_from(pts, s, nx, (fuel - 1) as nat);
        let w = wrap_from(pts, s, cur, fuel);
        assert(w == seq![nx] + rest);
        assert forall|k: int| 1 <= k < w.len() implies cr(
            ux(pts, s, w[k - 1]),
            uy(pts, s, w[k - 1]),
            ux(pts, s, #[trigger] w[k]),
            uy(pts, s, w[k]),
        ) < 0 by {
            assert(w[k] == rest[k - 1]);
            if k > 1 {
                assert(w[k - 1] == rest[k - 2]);
            }
        }
    }
}

proof fn lemma_turns_chain(pts: Seq<TernaryPoint>, s: int, w: Seq<int>)
    requires
        is_hull_start(pts, s),
        forall|k: int| 0 <= k < w.len() ==> 0 <= #[trigger] w[k] < pts.len(),
        forall|k: int|
            1 <= k < w.len() ==> cr(
                ux(pts, s, w[k - 1]),
                uy(pts, s, w[k - 1]),
                ux(pts, s, #[trigger] w[k]),
                uy(pts, s, w[k]),
            ) < 0,
    ensures
        forall|i: int, j: int|
            0 <= i < j < w.len() ==> cr(
                ux(pts, s, #[trigger] w[i]),
                uy(pts, s, w[i]),
                ux(pts, s, #[trigger] w[j]),
                uy(pts, s, w[j]),
            ) < 0,
    decreases w.len(),
{
    if w.len() > 1 {
        let w1 = w.drop_last();
        lemma_turns_chain(pts, s, w1);
        lemma_start_fan(pts, s);
        let j = w.len() - 1;
        assert forall|i: int, jj: int| 0 <= i < jj < w.len() implies cr(
            ux(pts, s, #[trigger] w[i]),
            uy(pts, s, w[i]),
            ux(pts, s, #[trigger] w[jj]),
            uy(pts, s, w[jj]),
        ) < 0 by {
            if jj < j {
                assert(w[i] == w1[i] && w[jj] == w1[jj]);
            } else if i < j - 1 {
                assert(w[i] == w1[i] && w[j - 1] == w1[j - 1]);
                let (ax, ay) = (ux(pts, s, w[i]), uy(pts, s, w[i]));
                let (bx, by) = (ux(pts, s, w[j - 1]), uy(pts, s, w[j - 1]));
                let (cx, cy) = (ux(pts, s, w[j]), uy(pts, s, w[j]));
                assert(cr(ax, ay, bx, by) < 0);
                assert(cr(bx, by, cx, cy) < 0);
                lemma_cross_antisymmetric(ax, ay, bx, by);
                lemma_cross_antisymmetric(bx, by, cx, cy);
                lemma_cross_antisymmetric(ax, ay, cx, cy);
                assert(cr(0, -1, ax, ay) >= 0);
                assert(cr(0, -1, bx, by) >= 0);
                assert(cr(0, -1, cx, cy) >= 0);
                assert(!antipodal(cx, cy, ax, ay));
                lemma_turn_transitive(0, -1, cx, cy, bx, by, ax, ay);
            }
        }
    }
}

/// On planar points with distinct x and y, gift wrapping closes: it returns to its
/// start within as many steps as there are points, no index repeats, and the entries
/// after the start turn strictly clockwise around it.
pub proof fn lemma_gift_wrap_closes_without_repeats(pts: Seq<TernaryPoint>)
    requires
        pts.len() >= 3,
        planar(pts),
        distinct_xy(pts),
    ensures
        gift_wrap(pts).no_duplicates(),
        gift_wrap(pts).len() <= pts.len(),
        wrap_next(pts, gift_wrap(pts).last()) == gift_wrap(pts)[0],
        step_ok(pts, gift_wrap(pts).last(), gift_wrap(pts)[0]),
        forall|i: int, j: int|
            1 <= i < j < gift_wrap(pts).len() ==> cr(
                ux(pts, gift_wrap(pts)[0], #[trigger] gift_wrap(pts)[i]),
                uy(pts, gift_wrap(pts)[0], gift_wrap(pts)[i]),
                ux(pts, gift_wrap(pts)[0], #[trigger] gift_wrap(pts)[j]),
                uy(pts, gift_wrap(pts)[0], gift_wrap(pts)[j]),
            ) < 0,
{
    let n = pts.len();
    let s = hull_start(pts);
    let g = gift_wrap(pts);
    lemma_hull_start_is_leftmost(pts);
    lemma_gift_wrap_shape(pts);
    lemma_start_fan(pts, s);
    lemma_walk_turns(pts, s, s, n, 0, -1);
    let w = wrap_from(pts, s, s, n);
    assert(g == seq![s] + w);
    assert forall|k: int| 0 <= k < w.len() implies 0 <= #[trigger] w[k] < n by {
        assert(w[k] == g[k + 1]);
    }
    lemma_turns_chain(pts, s, w);
    assert forall|i: int, j: int| 1 <= i < j < g.len() implies cr(
        ux(pts, g[0], #[trigger] g[i]),
        uy(pts, g[0], g[i]),
        ux(pts, g[0], #[trigger] g[j]),
        uy(pts, g[0], g[j]),
    ) < 0 by {
        assert(g[i] == w[i - 1] && g[j] == w[j - 1]);
    }
    assert forall|i: int, j: int| 0 <= i < g.len() && 0 <= j < g.len() && i != j implies g[i] != g[j] by {
        if i > 0 && j > 0 {
            let (lo, hi) = if i < j { (i, j) } else { (j, i) };
            assert(cr(ux(pts, s, g[lo]), uy(pts, s, g[lo]), ux(pts, s, g[hi]), uy(pts, s, g[hi])) < 0);
            lemma_cross_zero_vector(ux(pts, s, g[lo]), uy(pts, s, g[lo]));
        }
    }
    assert(g.no_duplicates());
    // Distinct indices below n: at most n of them.
    g.unique_seq_to_set();
    vstd::set_lib::lemma_int_range(0, n as int);
    assert(g.to_set().subset_of(vstd::set_lib::set_int_range(0, n as int))) by {
        assert forall|x: int| g.to_set().contains(x) implies vstd::set_lib::set_int_range(0, n as int).contains(x) by {
            let k = choose|k: int| 0 <= k < g.len() && g[k] == x;
        }
    }
    vstd::set_lib::lemma_len_subset(g.to_set(), vstd::set_lib::set_int_range(0, n as int));
    lemma_gift_wrap_edges_convex(pts);
}

/// Point `i` has a line through it with every other point strictly on its right.
pub open spec fn strictly_supports(pts: Seq<TernaryPoint>, i: int, ex: int, ey: int) -> bool {
    forall|j: int| 0 <= j < pts.len() && j != i ==> cr(ex, ey, #[trigger] ux(pts, i, j), uy(pts, i, j)) < 0
}

/// Point `i` is an extreme point (a corner) of the points' convex hull.
pub open spec fn is_extreme(pts: Seq<TernaryPoint>, i: int) -> bool {
    exists|ex: int, ey: int| #[trigger] strictly_supports(pts, i, ex, ey)
}

proof fn lemma_dot_bound(wx: int, wy: int, ux: int, uy: int)
    by (nonlinear_arith)
    requires
        -255 <= wx <= 255,
        -255 <= wy <= 255,
        -255 <= ux <= 255,
        -255 <= uy <= 255,
    ensures
        -130050 <= wx * ux + wy * uy <= 130050,
{
    assert(-65025 <= wx * ux <= 65025);
    assert(-65025 <= wy * uy <= 65025);
}

proof fn lemma_tilted_cross(k: int, wx: int, wy: int, ux: int, uy: int)
    by (nonlinear_arith)
    ensures
        cr(-k * wx - wy, -k * wy + wx, ux, uy) == -k * cr(wx, wy, ux, uy) - dt(wx, wy, ux, uy),
{
}

proof fn lemma_large_multiple(k: int, c: int, d: int)
    by (nonlinear_arith)
    requires
        k == 130051,
        c >= 1,
        -130050 <= d <= 130050,
    ensures
        -k * c - d < 0,
{
}

/// A point seen from which all points lie in a fan that contains the direction to
/// another point `p` is an extreme point: tilting the line towards `p` slightly leaves
/// every other point strictly on its right.
proof fn lemma_fan_gives_extreme(pts: Seq<TernaryPoint>, q: int, p: int)
    requires
        distinct_xy(pts),
        0 <= q < pts.len(),
        0 <= p < pts.len(),
        p != q,
        fan(pts, q, ux(pts, q, p), uy(pts, q, p)),
    ensures
        is_extreme(pts, q),
{
    let (wx, wy) = (ux(pts, q, p), uy(pts, q, p));
    let k = 130051int;
    let (ex, ey) = (-k * wx - wy, -k * wy + wx);
    assert forall|j: int| 0 <= j < pts.len() && j != q implies cr(ex, ey, #[trigger] ux(pts, q, j), uy(pts, q, j))
        < 0 by {
        let (jx, jy) = (ux(pts, q, j), uy(pts, q, j));
        lemma_tilted_cross(k, wx, wy, jx, jy);
        lemma_dot_bound(wx, wy, jx, jy);
        assert(cr(wx, wy, jx, jy) >= 0);
        if cr(wx, wy, jx, jy) >= 1 {
            lemma_large_multiple(k, cr(wx, wy, jx, jy), dt(wx, wy, jx, jy));
        } else {
            assert(!same_xy(pts[j]@, pts[q]@));
            assert(!same_xy(pts[p]@, pts[q]@));
            assert(!antipodal(wx, wy, jx, jy));
            lemma_parallel_dot_nonzero(wx, wy, jx, jy);
            assert(-k * 0 == 0);
        }
    }
    assert(strictly_supports(pts, q, ex, ey));
}

proof fn lemma_start_is_extreme(pts: Seq<TernaryPoint>, s: int)
    requires
        distinct_xy(pts),
        is_hull_start(pts, s),
    ensures
        is_extreme(pts, s),
{
    assert forall|j: int| 0 <= j < pts.len() && j != s implies cr(-1, 256, #[trigger] ux(pts, s, j), uy(pts, s, j))
        < 0 by {
        assert(!lex_below(pts[j]@, pts[s]@));
        assert(!same_xy(pts[j]@, pts[s]@));
        assert(cr(-1, 256, ux(pts, s, j), uy(pts, s, j)) == -uy(pts, s, j) - 256 * ux(pts, s, j))
            by (nonlinear_arith);
    }
    assert(strictly_supports(pts, s, -1, 256));
}

proof fn lemma_walk_extreme(pts: Seq<TernaryPoint>, s: int, cur: int, fuel: nat, wx: int, wy: int)
    requires
        pts.len() >= 2,
        planar(pts),
        distinct_xy(pts),
        0 <= cur < pts.len(),
        fan(pts, cur, wx, wy),
    ensures
        forall|k: int|
            0 <= k < wrap_from(pts, s, cur, fuel).len() ==> is_extreme(pts, #[trigger] wrap_from(pts, s, cur, fuel)[k]),
    decreases fuel,
{
    let nx = wrap_next(pts, cur);
    lemma_wrap_next_range(pts, cur);
    let w2 = lemma_wrap_step(pts, cur, wx, wy);
    if fuel > 0 && nx != s {
        assert(!same_xy(pts[nx]@, pts[cur]@));
        lemma_fan_gives_extreme(pts, nx, cur);
        lemma_walk_extreme(pts, s, nx, (fuel - 1) as nat, w2.0, w2.1);
        let rest = wrap_from(pts, s, nx, (fuel - 1) as nat);
        let w = wrap_from(pts, s, cur, fuel);
        assert(w == seq![nx] + rest);
        assert forall|k: int| 0 <= k < w.len() implies is_extreme(pts, #[trigger] w[k]) by {
            if k > 0 {
                assert(w[k] == rest[k - 1]);
            }
        }
    }
}

/// On planar points with distinct x and y, every hull entry is an extreme point.
pub proof fn lemma_gift_wrap_entries_are_extreme(pts: Seq<TernaryPoint>)
    requires
        pts.len() >= 3,
        planar(pts),
        distinct_xy(pts),
    ensures
        forall|k: int| 0 <= k < gift_wrap(pts).len() ==> is_extreme(pts, #[trigger] gift_wrap(pts)[k]),
{
    let s = hull_start(pts);
    let g = gift_wrap(pts);
    lemma_hull_start_is_leftmost(pts);
    lemma_start_fan(pts, s);
    lemma_start_is_extreme(pts, s);
    lemma_walk_extreme(pts, s, s, pts.len(), 0, -1);
    let w = wrap_from(pts, s, s, pts.len());
    assert(g == seq![s] + w);
    assert forall|k: int| 0 <= k < g.len() implies is_extreme(pts, #[trigger] g[k]) by {
        if k > 0 {
            assert(g[k] == w[k - 1]);
        }
    }
}

#[verifier::rlimit(50)]
proof fn lemma_triangle_cross_sum(ax: int, ay: int, bx: int, by: int, cx: int, cy: int)
    by (nonlinear_arith)
    ensures
        cr(bx - ax, by - ay, cx - ax, cy - ay) == cr(ax, ay, bx, by) + cr(bx, by, cx, cy) + cr(cx, cy, ax, ay),
{
}

proof fn lemma_nonpos_weights_vanish(a: int, x: int, b: int, y: int, c: int, z: int)
    by (nonlinear_arith)
    requires
        a <= 0,
        b <= 0,
        c <= 0,
        x < 0,
        y < 0,
        z < 0,
        a * x + b * y + c * z == 0,
    ensures
        a == 0,
        b == 0,
        c == 0,
{
}

/// A point inside the closed triangle of three other points (ordered clockwise, so
/// the point is right of or on each side) has no line through it with the three
/// corners strictly on its right.
proof fn lemma_in_closed_triangle_not_extreme(pts: Seq<TernaryPoint>, p: int, a: int, b: int, c: int, ex: int, ey: int)
    requires
        0 <= p < pts.len(),
        0 <= a < pts.len(),
        0 <= b < pts.len(),
        0 <= c < pts.len(),
        a != p && b != p && c != p,
        cross(pts[a]@, pts[b]@, pts[p]@) <= 0,
        cross(pts[b]@, pts[c]@, pts[p]@) <= 0,
        cross(pts[c]@, pts[a]@, pts[p]@) <= 0,
        cross(pts[a]@, pts[b]@, pts[c]@) < 0,
    ensures
        !strictly_supports(pts, p, ex, ey),
{
    if strictly_supports(pts, p, ex, ey) {
        let (px, py) = (pts[p]@.0 as int, pts[p]@.1 as int);
        let (ax, ay) = (ux(pts, p, a), uy(pts, p, a));
        let (bx, by) = (ux(pts, p, b), uy(pts, p, b));
        let (cx, cy) = (ux(pts, p, c), uy(pts, p, c));
        lemma_cross_about_point(pts[a]@.0 as int, pts[a]@.1 as int, pts[b]@.0 as int, pts[b]@.1 as int, px, py);
        lemma_cross_about_point(pts[b]@.0 as int, pts[b]@.1 as int, pts[c]@.0 as int, pts[c]@.1 as int, px, py);
        lemma_cross_about_point(pts[c]@.0 as int, pts[c]@.1 as int, pts[a]@.0 as int, pts[a]@.1 as int, px, py);
        assert(cr(ex, ey, ax, ay) < 0 && cr(ex, ey, bx, by) < 0 && cr(ex, ey, cx, cy) < 0);
        lemma_pairing(ax, ay, bx, by, cx, cy, -ey, ex);
        lemma_cross_as_dot(ex, ey, ax, ay);
        lemma_cross_as_dot(ex, ey, bx, by);
        lemma_cross_as_dot(ex, ey, cx, cy);
        lemma_nonpos_weights_vanish(
            cr(ax, ay, bx, by),
            cr(ex, ey, cx, cy),
            cr(bx, by, cx, cy),
            cr(ex, ey, ax, ay),
            cr(cx, cy, ax, ay),
            cr(ex, ey, bx, by),
        );
        lemma_triangle_cross_sum(ax, ay, bx, by, cx, cy);
        assert(bx - ax == pts[b]@.0 - pts[a]@.0 && by - ay == pts[b]@.1 - pts[a]@.1);
        assert(cx - ax == pts[c]@.0 - pts[a]@.0 && cy - ay == pts[c]@.1 - pts[a]@.1);
    }
}

proof fn lemma_positive_from_scaled(x: int, n: int, y: int)
    by (nonlinear_arith)
    requires
        n > 0,
        y > 0,
        x * n == y,
    ensures
        x > 0,
{
}

proof fn lemma_sign_change(f: Seq<int>, lo: int, hi: int) -> (i: int)
    requires
        0 <= lo < hi < f.len(),
        f[lo] <= 0,
        f[hi] >= 0,
    ensures
        lo <= i < hi,
        f[i] <= 0,
        f[i + 1] >= 0,
    decreases hi - lo,
{
    if f[hi - 1] <= 0 {
        hi - 1
    } else {
        lemma_sign_change(f, lo, hi - 1)
    }
}

proof fn lemma_extreme_is_entry(pts: Seq<TernaryPoint>, p: int, ex: int, ey: int)
    requires
        pts.len() >= 3,
        planar(pts),
        distinct_xy(pts),
        0 <= p < pts.len(),
        strictly_supports(pts, p, ex, ey),
    ensures
        gift_wrap(pts).contains(p),
{
    let n = pts.len();
    let g = gift_wrap(pts);
    let s = hull_start(pts);
    lemma_hull_start_is_leftmost(pts);
    lemma_gift_wrap_shape(pts);
    lemma_gift_wrap_closes_without_repeats(pts);
    lemma_gift_wrap_edges_convex(pts);
    lemma_start_fan(pts, s);
    if !g.contains(p) {
        assert(g[0] == s);
        assert(p != s);
        let m = g.len() - 1;
        lemma_wrap_next_range(pts, s);
        assert(m >= 1) by {
            if m == 0 {
                assert(wrap_next(pts, g.last()) == g[0]);
            }
        }
        let (qx, qy) = (ux(pts, s, p), uy(pts, s, p));
        // The first edge and the closing edge keep p on their right.
        assert(step_ok(pts, g[0], g[1]));
        assert(cross(pts[s]@, pts[g[1]]@, pts[p]@) <= 0);
        assert(step_ok(pts, g.last(), g[0]));
        assert(cross(pts[g[m]]@, pts[s]@, pts[p]@) <= 0);
        lemma_cross_reverse(pts[s]@, pts[g[m]]@, pts[p]@);
        let f = Seq::new(g.len(), |i: int| cross(pts[s]@, pts[g[i]]@, pts[p]@));
        if m == 1 {
            // All on one line through the start: p would lie between s and g[1].
            let (ax, ay) = (ux(pts, s, g[1]), uy(pts, s, g[1]));
            assert(cr(ax, ay, qx, qy) == 0);
            assert(!same_xy(pts[p]@, pts[s]@));
            assert(!same_xy(pts[g[1]]@, pts[s]@));
            assert(!antipodal(ax, ay, qx, qy));
            lemma_parallel_dot_nonzero(ax, ay, qx, qy);
            lemma_scan_finds_max(pts, s, n, 0, -1);
            assert(!vbeats(ax, ay, qx, qy));
            lemma_cross_antisymmetric(ax, ay, qx, qy);
            lemma_shorter_same_direction(qx, qy, ax, ay);
            if ax == qx && ay == qy {
                assert(same_xy(pts[p]@, pts[g[1]]@));
                assert(g[1] != p);
            } else {
                let (rx, ry) = (ax - qx, ay - qy);
                assert(rx == ux(pts, p, g[1]) && ry == uy(pts, p, g[1]));
                assert(-qx == ux(pts, p, s) && -qy == uy(pts, p, s));
                assert(cr(ex, ey, rx, ry) < 0);
                assert(cr(ex, ey, -qx, -qy) < 0);
                lemma_cross_neg_right(ex, ey, qx, qy);
                lemma_parallel_cross_relation(ex, ey, qx, qy, rx, ry);
                lemma_positive_square(qx, qy);
                lemma_pos_product(dt(qx, qy, rx, ry), cr(ex, ey, qx, qy));
                lemma_positive_from_scaled(cr(ex, ey, rx, ry), qx * qx + qy * qy, dt(qx, qy, rx, ry) * cr(ex, ey, qx, qy));
            }
        } else {
            assert(f[1] <= 0 && f[m] >= 0);
            let i = lemma_sign_change(f, 1, m);
            assert(step_ok(pts, g[i], g[i + 1]));
            assert(cross(pts[g[i]]@, pts[g[i + 1]]@, pts[p]@) <= 0);
            lemma_cross_reverse(pts[s]@, pts[g[i + 1]]@, pts[p]@);
            assert(cr(ux(pts, g[0], g[i]), uy(pts, g[0], g[i]), ux(pts, g[0], g[i + 1]), uy(pts, g[0], g[i + 1])) < 0);
            assert(cross(pts[s]@, pts[g[i]]@, pts[g[i + 1]]@) < 0);
            assert(g[i] != p && g[i + 1] != p);
            lemma_in_closed_triangle_not_extreme(pts, p, s, g[i], g[i + 1], ex, ey);
        }
    }
}

/// On planar points with distinct x and y, the hull's entries are exactly the extreme
/// points: those with a line through them that has every other point strictly on one
/// side.
pub proof fn lemma_gift_wrap_is_extreme_points(pts: Seq<TernaryPoint>)
    requires
        pts.len() >= 3,
        planar(pts),
        distinct_xy(pts),
    ensures
        forall|i: int| 0 <= i < pts.len() ==> (gift_wrap(pts).contains(i) <==> is_extreme(pts, i)),
{
    lemma_gift_wrap_entries_are_extreme(pts);
    assert forall|i: int| 0 <= i < pts.len() implies (gift_wrap(pts).contains(i) <==> is_extreme(pts, i)) by {
        if gift_wrap(pts).contains(i) {
            let k = choose|k: int| 0 <= k < gift_wrap(pts).len() && gift_wrap(pts)[k] == i;
            assert(is_extreme(pts, gift_wrap(pts)[k]));
        }
        if is_extreme(pts, i) {
            let (ex, ey) = choose|ex: int, ey: int| #[trigger] strictly_supports(pts, i, ex, ey);
            lemma_extreme_is_entry(pts, i, ex, ey);
        }
    }
}

} // verus!
