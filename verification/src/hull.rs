//! Convex hull of planar ternary points by gift wrapping (Jarvis march).

use vstd::prelude::*;

use crate::distance::{manhattan, manhattan_distance};
use crate::line::{cross, cross_product_2d};
use crate::point::TernaryPoint;

verus! {

/// `p` comes before `q` when ordered by x, then by y.
pub open spec fn lex_below(p: (u8, u8, u8), q: (u8, u8, u8)) -> bool {
    p.0 < q.0 || (p.0 == q.0 && p.1 < q.1)
}

/// Index `s` holds the leftmost-bottommost point, and no earlier index holds a point
/// as far left and down.
pub open spec fn is_hull_start(pts: Seq<TernaryPoint>, s: int) -> bool {
    &&& 0 <= s < pts.len()
    &&& forall|j: int| 0 <= j < pts.len() ==> !lex_below(#[trigger] pts[j]@, pts[s]@)
    &&& forall|j: int| 0 <= j < s ==> lex_below(pts[s]@, #[trigger] pts[j]@)
}

/// The leftmost-bottommost point among the first `k` points: the scan that starts at
/// index 0 and moves to a point only when it is strictly further left and down.
pub open spec fn leftmost_upto(pts: Seq<TernaryPoint>, k: nat) -> int
    decreases k,
{
    if k <= 1 {
        0
    } else {
        let s = leftmost_upto(pts, (k - 1) as nat);
        if lex_below(pts[k - 1]@, pts[s]@) {
            k - 1
        } else {
            s
        }
    }
}

/// The index where the hull starts.
pub open spec fn hull_start(pts: Seq<TernaryPoint>) -> int {
    leftmost_upto(pts, pts.len())
}

/// Seen from `c`, point `i` wins over the current candidate `cand`: it lies strictly
/// counter-clockwise of `c -> cand`, or on that line and farther from `c`.
pub open spec fn beats(c: (u8, u8, u8), cand: (u8, u8, u8), i: (u8, u8, u8)) -> bool {
    cross(c, cand, i) > 0 || (cross(c, cand, i) == 0 && manhattan(c, i) > manhattan(c, cand))
}

/// The candidate for the hull vertex after `cur` once the first `k` indices have been
/// scanned. The candidate starts at index 0; an index equal to `cur` is skipped; while
/// the candidate is `cur` itself the scanned index replaces it; otherwise the scanned
/// index replaces it when it beats it.
pub open spec fn wrap_candidate(pts: Seq<TernaryPoint>, cur: int, k: nat) -> int
    decreases k,
{
    if k == 0 {
        0
    } else {
        let nx = wrap_candidate(pts, cur, (k - 1) as nat);
        let i = k - 1;
        if i == cur {
            nx
        } else if nx == cur {
            i
        } else if beats(pts[cur]@, pts[nx]@, pts[i]@) {
            i
        } else {
            nx
        }
    }
}

/// The hull vertex chosen after `cur`.
pub open spec fn wrap_next(pts: Seq<TernaryPoint>, cur: int) -> int {
    wrap_candidate(pts, cur, pts.len())
}

/// The vertices that follow `cur` on the walk around the hull, stopping when the walk
/// returns to `start` or after `fuel` more vertices.
pub open spec fn wrap_from(pts: Seq<TernaryPoint>, start: int, cur: int, fuel: nat) -> Seq<int>
    decreases fuel,
{
    if fuel == 0 {
        Seq::empty()
    } else {
        let nx = wrap_next(pts, cur);
        if nx == start {
            Seq::empty()
        } else {
            seq![nx] + wrap_from(pts, start, nx, (fuel - 1) as nat)
        }
    }
}

/// The indices that `convex_hull_2d` returns: none, `[0]` or `[0, 1]` for fewer than
/// three points; otherwise the hull start followed by the gift-wrapping walk, which
/// adds at most one vertex per input point.
pub open spec fn gift_wrap(pts: Seq<TernaryPoint>) -> Seq<int> {
    if pts.len() == 0 {
        Seq::empty()
    } else if pts.len() == 1 {
        seq![0]
    } else if pts.len() == 2 {
        seq![0, 1]
    } else {
        seq![hull_start(pts)] + wrap_from(pts, hull_start(pts), hull_start(pts), pts.len())
    }
}

fn hull_start_index(points: &[TernaryPoint]) -> (start: usize)
    requires
        points.len() >= 1,
    ensures
        start == hull_start(points@),
        start < points.len(),
{
    let mut start: usize = 0;
    let mut i: usize = 0;
    while i < points.len()
        invariant
            i <= points.len(),
            start < points.len(),
            start == leftmost_upto(points@, i as nat),
            i == 0 ==> start == 0,
            i > 0 ==> start < i,
        decreases points.len() - i,
    {
        let pt = &points[i];
        let s = &points[start];
        if pt.x() < s.x() || (pt.x() == s.x() && pt.y() < s.y()) {
            start = i;
        }
        i += 1;
    }
    start
}

fn next_hull_vertex(points: &[TernaryPoint], current: usize) -> (next: usize)
    requires
        current < points.len(),
    ensures
        next == wrap_next(points@, current as int),
        next < points.len(),
{
    let mut next: usize = 0;
    let mut i: usize = 0;
    while i < points.len()
        invariant
            i <= points.len(),
            current < points.len(),
            next < points.len(),
            next == wrap_candidate(points@, current as int, i as nat),
        decreases points.len() - i,
    {
        if i == current {
        } else if next == current {
            next = i;
        } else {
            let c = cross_product_2d(&points[current], &points[next], &points[i]);
            if c > 0 {
                next = i;
            } else if c == 0 && manhattan_distance(&points[current], &points[i])
                > manhattan_distance(&points[current], &points[next]) {
                next = i;
            }
        }
        i += 1;
    }
    next
}

/// Convex hull of ternary points (2D) using the gift wrapping approach.
/// Returns indices into the input slice in hull order.
///
/// Orientation uses x and y only, but ties between collinear candidates go to the
/// one farther in Manhattan distance over all three coordinates. The hull's geometric
/// properties (see `convexity`) therefore hold for points that share one z; where
/// the z coordinates differ, a point can win a tie through its z alone and the
/// result need not be the convex hull.
pub fn convex_hull_2d(points: &[TernaryPoint]) -> (hull: Vec<usize>)
    ensures
        hull.len() == gift_wrap(points@).len(),
        forall|k: int| 0 <= k < hull.len() ==> hull@[k] == #[trigger] gift_wrap(points@)[k],
{
    if points.len() == 0 {
        return vec![];
    }
    if points.len() == 1 {
        return vec![0];
    }
    if points.len() == 2 {
        return vec![0, 1];
    }
    let ghost pts = points@;
    let ghost n = points.len();
    let start = hull_start_index(points);
    let mut hull: Vec<usize> = vec![start];
    let mut current = start;
    let ghost mut walked: Seq<int> = seq![start as int];
    assert(gift_wrap(pts) == walked + wrap_from(pts, start as int, current as int, n as nat));
    loop
        invariant_except_break
            1 <= hull.len() <= n,
            gift_wrap(pts) == walked + wrap_from(
                pts,
                start as int,
                current as int,
                (n + 1 - hull.len()) as nat,
            ),
        invariant
            pts == points@,
            n == points.len(),
            n >= 3,
            start < n,
            current < n,
            start == hull_start(pts),
            walked.len() == hull.len(),
            forall|k: int| 0 <= k < hull.len() ==> hull@[k] == #[trigger] walked[k],
        ensures
            walked.len() == hull.len(),
            forall|k: int| 0 <= k < hull.len() ==> hull@[k] == #[trigger] walked[k],
            gift_wrap(pts) == walked,
        decreases n - hull.len(),
    {
        let next = next_hull_vertex(points, current);
        let ghost fuel: nat = (n + 1 - hull.len()) as nat;
        if next == start {
            assert(wrap_from(pts, start as int, current as int, fuel) == Seq::<int>::empty());
            assert(walked + Seq::<int>::empty() == walked);
            break;
        }
        assert(wrap_from(pts, start as int, current as int, fuel) == seq![next as int] + wrap_from(
            pts,
            start as int,
            next as int,
            (fuel - 1) as nat,
        ));
        assert(walked + wrap_from(pts, start as int, current as int, fuel) == walked.push(
            next as int,
        ) + wrap_from(pts, start as int, next as int, (fuel - 1) as nat));
        hull.push(next);
        proof {
            walked = walked.push(next as int);
        }
        current = next;
        if hull.len() > points.len() {
            assert(wrap_from(pts, start as int, current as int, 0) == Seq::<int>::empty());
            assert(walked + Seq::<int>::empty() == walked);
            break;
        }
    }
    hull
}

proof fn lemma_leftmost_upto(pts: Seq<TernaryPoint>, k: nat)
    requires
        1 <= k <= pts.len(),
    ensures
        0 <= leftmost_upto(pts, k) < k,
        forall|j: int| 0 <= j < k ==> !lex_below(#[trigger] pts[j]@, pts[leftmost_upto(pts, k)]@),
        forall|j: int|
            0 <= j < leftmost_upto(pts, k) ==> lex_below(pts[leftmost_upto(pts, k)]@, #[trigger] pts[j]@),
    decreases k,
{
    if k > 1 {
        lemma_leftmost_upto(pts, (k - 1) as nat);
    }
}

/// The hull starts at the first of the leftmost-bottommost points.
pub proof fn lemma_hull_start_is_leftmost(pts: Seq<TernaryPoint>)
    requires
        pts.len() >= 1,
    ensures
        is_hull_start(pts, hull_start(pts)),
{
    lemma_leftmost_upto(pts, pts.len());
}

pub(crate) proof fn lemma_wrap_candidate_range(pts: Seq<TernaryPoint>, cur: int, k: nat)
    requires
        pts.len() >= 2,
        0 <= cur < pts.len(),
        k <= pts.len(),
    ensures
        0 <= wrap_candidate(pts, cur, k) < pts.len(),
        wrap_candidate(pts, cur, k) == cur ==> k == 0 || (k == 1 && cur == 0),
    decreases k,
{
    if k > 0 {
        lemma_wrap_candidate_range(pts, cur, (k - 1) as nat);
    }
}

/// The vertex after `cur` is another index of the input.
pub proof fn lemma_wrap_next_range(pts: Seq<TernaryPoint>, cur: int)
    requires
        pts.len() >= 2,
        0 <= cur < pts.len(),
    ensures
        0 <= wrap_next(pts, cur) < pts.len(),
        wrap_next(pts, cur) != cur,
{
    lemma_wrap_candidate_range(pts, cur, pts.len());
    if wrap_next(pts, cur) == cur {
        assert(cur != (if cur == 0 { 1int } else { 0int }));
    }
}

proof fn lemma_wrap_from_shape(pts: Seq<TernaryPoint>, start: int, cur: int, fuel: nat)
    requires
        pts.len() >= 2,
        0 <= cur < pts.len(),
    ensures
        wrap_from(pts, start, cur, fuel).len() <= fuel,
        forall|k: int|
            0 <= k < wrap_from(pts, start, cur, fuel).len() ==> {
                &&& 0 <= #[trigger] wrap_from(pts, start, cur, fuel)[k] < pts.len()
                &&& wrap_from(pts, start, cur, fuel)[k] != start
            },
        wrap_from(pts, start, cur, fuel).len() > 0 ==> wrap_from(pts, start, cur, fuel)[0] == wrap_next(pts, cur),
        forall|k: int|
            1 <= k < wrap_from(pts, start, cur, fuel).len() ==> #[trigger] wrap_from(
                pts,
                start,
                cur,
                fuel,
            )[k] == wrap_next(pts, wrap_from(pts, start, cur, fuel)[k - 1]),
    decreases fuel,
{
    lemma_wrap_next_range(pts, cur);
    if fuel > 0 && wrap_next(pts, cur) != start {
        let nx = wrap_next(pts, cur);
        lemma_wrap_from_shape(pts, start, nx, (fuel - 1) as nat);
        let rest = wrap_from(pts, start, nx, (fuel - 1) as nat);
        let w = wrap_from(pts, start, cur, fuel);
        assert(w == seq![nx] + rest);
        assert forall|k: int| 1 <= k < w.len() implies #[trigger] w[k] == wrap_next(pts, w[k - 1]) by {
            assert(w[k] == rest[k - 1]);
            if k > 1 {
                assert(w[k - 1] == rest[k - 2]);
            }
        }
    }
}

/// Shape of the hull: every entry is an index of the input; for three or more points
/// it starts at the leftmost-bottommost point, never returns to it, has at most one
/// entry more than there are points, and each entry is the vertex that gift wrapping
/// chooses after the one before it (so no index follows itself).
pub proof fn lemma_gift_wrap_shape(pts: Seq<TernaryPoint>)
    ensures
        forall|k: int| 0 <= k < gift_wrap(pts).len() ==> 0 <= #[trigger] gift_wrap(pts)[k] < pts.len(),
        pts.len() >= 1 ==> 1 <= gift_wrap(pts).len() <= pts.len() + 1,
        pts.len() == 0 ==> gift_wrap(pts).len() == 0,
        pts.len() >= 3 ==> {
            &&& is_hull_start(pts, gift_wrap(pts)[0])
            &&& forall|k: int| 1 <= k < gift_wrap(pts).len() ==> #[trigger] gift_wrap(pts)[k] != gift_wrap(pts)[0]
            &&& forall|k: int|
                1 <= k < gift_wrap(pts).len() ==> #[trigger] gift_wrap(pts)[k] == wrap_next(
                    pts,
                    gift_wrap(pts)[k - 1],
                )
            &&& forall|k: int|
                1 <= k < gift_wrap(pts).len() ==> #[trigger] gift_wrap(pts)[k] != gift_wrap(pts)[k - 1]
        },
{
    if pts.len() >= 3 {
        let s = hull_start(pts);
        lemma_hull_start_is_leftmost(pts);
        lemma_wrap_from_shape(pts, s, s, pts.len());
        let w = wrap_from(pts, s, s, pts.len());
        let g = gift_wrap(pts);
        assert(g == seq![s] + w);
        assert forall|k: int| 1 <= k < g.len() implies #[trigger] g[k] == wrap_next(pts, g[k - 1]) by {
            assert(g[k] == w[k - 1]);
            if k > 1 {
                assert(g[k - 1] == w[k - 2]);
            }
        }
        assert forall|k: int| 1 <= k < g.len() implies #[trigger] g[k] != g[k - 1] by {
            assert(g[k] == wrap_next(pts, g[k - 1]));
            assert(g[k - 1] < pts.len()) by {
                if k > 1 {
                    assert(g[k - 1] == w[k - 2]);
                }
            }
            lemma_wrap_next_range(pts, g[k - 1]);
        }
        assert forall|k: int| 1 <= k < g.len() implies #[trigger] g[k] != g[0] by {
            assert(g[k] == w[k - 1]);
        }
        assert forall|k: int| 0 <= k < g.len() implies 0 <= #[trigger] g[k] < pts.len() by {
            if k > 0 {
                assert(g[k] == w[k - 1]);
            }
        }
    }
}

} // verus!
