//! Voronoi partitions of the ternary grid: every grid point goes to its nearest seed,
//! ties going to the seed with the smallest index.

use vstd::prelude::*;

use crate::distance::{lee, lee_defined, lee_distance, manhattan, manhattan_distance};
use crate::point::{grid_point_2d, grid_point_3d, TernaryPoint};

verus! {

/// Seed `i` is the Manhattan-nearest seed to `p`, and no seed before it is as near.
pub open spec fn is_nearest_manhattan(p: (u8, u8, u8), seeds: Seq<TernaryPoint>, i: int) -> bool {
    &&& 0 <= i < seeds.len()
    &&& forall|j: int|
        0 <= j < seeds.len() ==> manhattan(p, seeds[i]@) <= #[trigger] manhattan(p, seeds[j]@)
    &&& forall|j: int| 0 <= j < i ==> manhattan(p, seeds[i]@) < #[trigger] manhattan(p, seeds[j]@)
}

/// Seed `i` is the Lee-nearest seed to `p`, and no seed before it is as near.
pub open spec fn is_nearest_lee(p: (u8, u8, u8), seeds: Seq<TernaryPoint>, i: int) -> bool {
    &&& 0 <= i < seeds.len()
    &&& forall|j: int| 0 <= j < seeds.len() ==> lee(p, seeds[i]@) <= #[trigger] lee(p, seeds[j]@)
    &&& forall|j: int| 0 <= j < i ==> lee(p, seeds[i]@) < #[trigger] lee(p, seeds[j]@)
}

/// A seed whose coordinates are at most 3 is at Lee-computable distance from every
/// grid point.
pub open spec fn lee_seed(s: TernaryPoint) -> bool {
    s@.0 <= 3 && s@.1 <= 3 && s@.2 <= 3
}

fn nearest_manhattan(pt: &TernaryPoint, seeds: &[TernaryPoint]) -> (best: usize)
    requires
        seeds.len() >= 1,
    ensures
        is_nearest_manhattan(pt@, seeds@, best as int),
{
    let mut best_idx: usize = 0;
    let mut best_dist = manhattan_distance(pt, &seeds[0]);
    let mut i: usize = 1;
    while i < seeds.len()
        invariant
            1 <= i <= seeds.len(),
            best_idx < i,
            best_dist == manhattan(pt@, seeds@[best_idx as int]@),
            forall|j: int| 0 <= j < i ==> best_dist <= #[trigger] manhattan(pt@, seeds@[j]@),
            forall|j: int| 0 <= j < best_idx ==> best_dist < #[trigger] manhattan(pt@, seeds@[j]@),
        decreases seeds.len() - i,
    {
        let d = manhattan_distance(pt, &seeds[i]);
        if d < best_dist {
            best_dist = d;
            best_idx = i;
        }
        i += 1;
    }
    best_idx
}

fn nearest_lee(pt: &TernaryPoint, seeds: &[TernaryPoint]) -> (best: usize)
    requires
        seeds.len() >= 1,
        forall|j: int| 0 <= j < seeds.len() ==> lee_defined(pt@, #[trigger] seeds@[j]@),
    ensures
        is_nearest_lee(pt@, seeds@, best as int),
{
    let mut best_idx: usize = 0;
    let mut best_dist = lee_distance(pt, &seeds[0]);
    let mut i: usize = 1;
    while i < seeds.len()
        invariant
            1 <= i <= seeds.len(),
            forall|j: int| 0 <= j < seeds.len() ==> lee_defined(pt@, #[trigger] seeds@[j]@),
            best_idx < i,
            best_dist == lee(pt@, seeds@[best_idx as int]@),
            forall|j: int| 0 <= j < i ==> best_dist <= #[trigger] lee(pt@, seeds@[j]@),
            forall|j: int| 0 <= j < best_idx ==> best_dist < #[trigger] lee(pt@, seeds@[j]@),
        decreases seeds.len() - i,
    {
        let d = lee_distance(pt, &seeds[i]);
        if d < best_dist {
            best_dist = d;
            best_idx = i;
        }
        i += 1;
    }
    best_idx
}

/// Compute the Voronoi region for a set of seed points using Manhattan distance.
/// Returns a mapping from each ternary 3D point to the index of its nearest seed.
/// Ties broken by smallest index.
pub fn voronoi_manhattan_3d(seeds: &[TernaryPoint]) -> (result: Vec<(TernaryPoint, usize)>)
    requires
        seeds.len() >= 1,
    ensures
        result.len() == 27,
        forall|k: int|
            0 <= k < 27 ==> {
                &&& (#[trigger] result@[k]).0@ == grid_point_3d(k)
                &&& is_nearest_manhattan(grid_point_3d(k), seeds@, result@[k].1 as int)
            },
{
    let grid = TernaryPoint::all_3d();
    let mut result: Vec<(TernaryPoint, usize)> = Vec::new();
    let mut k: usize = 0;
    while k < grid.len()
        invariant
            grid.len() == 27,
            forall|m: int| 0 <= m < 27 ==> #[trigger] grid@[m]@ == grid_point_3d(m),
            seeds.len() >= 1,
            k <= grid.len(),
            result.len() == k,
            forall|m: int|
                0 <= m < k ==> {
                    &&& (#[trigger] result@[m]).0@ == grid_point_3d(m)
                    &&& is_nearest_manhattan(grid_point_3d(m), seeds@, result@[m].1 as int)
                },
        decreases grid.len() - k,
    {
        let pt = grid[k];
        let best = nearest_manhattan(&pt, seeds);
        result.push((pt, best));
        k += 1;
    }
    result
}

/// Compute the Voronoi region for a set of seed points using Lee distance.
pub fn voronoi_lee_3d(seeds: &[TernaryPoint]) -> (result: Vec<(TernaryPoint, usize)>)
    requires
        seeds.len() >= 1,
        forall|j: int| 0 <= j < seeds.len() ==> lee_seed(#[trigger] seeds@[j]),
    ensures
        result.len() == 27,
        forall|k: int|
            0 <= k < 27 ==> {
                &&& (#[trigger] result@[k]).0@ == grid_point_3d(k)
                &&& is_nearest_lee(grid_point_3d(k), seeds@, result@[k].1 as int)
            },
{
    let grid = TernaryPoint::all_3d();
    let mut result: Vec<(TernaryPoint, usize)> = Vec::new();
    let mut k: usize = 0;
    while k < grid.len()
        invariant
            grid.len() == 27,
            forall|m: int| 0 <= m < 27 ==> #[trigger] grid@[m]@ == grid_point_3d(m),
            seeds.len() >= 1,
            forall|j: int| 0 <= j < seeds.len() ==> lee_seed(#[trigger] seeds@[j]),
            k <= grid.len(),
            result.len() == k,
            forall|m: int|
                0 <= m < k ==> {
                    &&& (#[trigger] result@[m]).0@ == grid_point_3d(m)
                    &&& is_nearest_lee(grid_point_3d(m), seeds@, result@[m].1 as int)
                },
        decreases grid.len() - k,
    {
        let pt = grid[k];
        assert(pt@ == grid_point_3d(k as int));
        assert(pt@.0 <= 2 && pt@.1 <= 2 && pt@.2 <= 2);
        assert forall|j: int| 0 <= j < seeds.len() implies lee_defined(pt@, #[trigger] seeds@[j]@) by {
            assert(lee_seed(seeds@[j]));
        }
        let best = nearest_lee(&pt, seeds);
        result.push((pt, best));
        k += 1;
    }
    result
}

/// 2D Voronoi with Manhattan distance.
pub fn voronoi_manhattan_2d(seeds: &[TernaryPoint]) -> (result: Vec<(TernaryPoint, usize)>)
    requires
        seeds.len() >= 1,
    ensures
        result.len() == 9,
        forall|k: int|
            0 <= k < 9 ==> {
                &&& (#[trigger] result@[k]).0@ == grid_point_2d(k)
                &&& is_nearest_manhattan(grid_point_2d(k), seeds@, result@[k].1 as int)
            },
{
    let grid = TernaryPoint::all_2d();
    let mut result: Vec<(TernaryPoint, usize)> = Vec::new();
    let mut k: usize = 0;
    while k < grid.len()
        invariant
            grid.len() == 9,
            forall|m: int| 0 <= m < 9 ==> #[trigger] grid@[m]@ == grid_point_2d(m),
            seeds.len() >= 1,
            k <= grid.len(),
            result.len() == k,
            forall|m: int|
                0 <= m < k ==> {
                    &&& (#[trigger] result@[m]).0@ == grid_point_2d(m)
                    &&& is_nearest_manhattan(grid_point_2d(m), seeds@, result@[m].1 as int)
                },
        decreases grid.len() - k,
    {
        let pt = grid[k];
        let best = nearest_manhattan(&pt, seeds);
        result.push((pt, best));
        k += 1;
    }
    result
}

/// The nearest seed is unique: ties always go to the seed with the smallest index.
pub proof fn lemma_nearest_manhattan_unique(p: (u8, u8, u8), seeds: Seq<TernaryPoint>, i: int, j: int)
    requires
        is_nearest_manhattan(p, seeds, i),
        is_nearest_manhattan(p, seeds, j),
    ensures
        i == j,
{
    if i < j {
        assert(manhattan(p, seeds[j]@) < manhattan(p, seeds[i]@));
    } else if j < i {
        assert(manhattan(p, seeds[i]@) < manhattan(p, seeds[j]@));
    }
}

/// The nearest seed under the Lee distance is unique as well.
pub proof fn lemma_nearest_lee_unique(p: (u8, u8, u8), seeds: Seq<TernaryPoint>, i: int, j: int)
    requires
        is_nearest_lee(p, seeds, i),
        is_nearest_lee(p, seeds, j),
    ensures
        i == j,
{
    if i < j {
        assert(lee(p, seeds[j]@) < lee(p, seeds[i]@));
    } else if j < i {
        assert(lee(p, seeds[i]@) < lee(p, seeds[j]@));
    }
}

/// A grid point that is itself a seed belongs to that seed, or to an earlier copy of it.
pub proof fn lemma_seed_owns_its_point_manhattan(
    p: (u8, u8, u8),
    seeds: Seq<TernaryPoint>,
    i: int,
    j: int,
)
    requires
        is_nearest_manhattan(p, seeds, i),
        0 <= j < seeds.len(),
        seeds[j]@ == p,
    ensures
        seeds[i]@ == p,
        i <= j,
{
    assert(manhattan(p, seeds[j]@) == 0);
    assert(manhattan(p, seeds[i]@) <= manhattan(p, seeds[j]@));
}

/// Under the Lee distance too, a grid point that is a seed belongs to that seed or to
/// an earlier copy of it, when all seeds are ternary points (a coordinate 3 would be
/// at Lee distance 0 from a coordinate 0).
pub proof fn lemma_seed_owns_its_point_lee(p: (u8, u8, u8), seeds: Seq<TernaryPoint>, i: int, j: int)
    requires
        p.0 <= 2 && p.1 <= 2 && p.2 <= 2,
        is_nearest_lee(p, seeds, i),
        0 <= j < seeds.len(),
        seeds[j]@ == p,
        forall|k: int| 0 <= k < seeds.len() ==> (#[trigger] seeds[k]).is_ternary(),
    ensures
        seeds[i]@ == p,
        i <= j,
{
    assert(lee(p, seeds[j]@) == 0);
    assert(lee(p, seeds[i]@) <= lee(p, seeds[j]@));
}

} // verus!
