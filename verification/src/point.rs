//! Points of the ternary grid.

use vstd::prelude::*;

verus! {

broadcast use vstd::array::group_array_axioms;

/// A point in ternary space (each coordinate in {0, 1, 2}).
#[derive(Clone, Copy, Debug, PartialEq, Eq, Hash)]
pub struct TernaryPoint {
    pub coords: [u8; 3],
}

impl View for TernaryPoint {
    type V = (u8, u8, u8);

    open spec fn view(&self) -> (u8, u8, u8) {
        (self.coords@[0], self.coords@[1], self.coords@[2])
    }
}

impl TernaryPoint {
    /// Every coordinate lies in {0, 1, 2}.
    pub open spec fn is_ternary(self) -> bool {
        self@.0 <= 2 && self@.1 <= 2 && self@.2 <= 2
    }

    pub fn new(x: u8, y: u8, z: u8) -> (p: Self)
        requires
            x <= 2,
            y <= 2,
            z <= 2,
        ensures
            p@ == (x, y, z),
    {
        TernaryPoint { coords: [x, y, z] }
    }

    pub fn new_2d(x: u8, y: u8) -> (p: Self)
        requires
            x <= 2,
            y <= 2,
        ensures
            p@ == (x, y, 0u8),
    {
        Self::new(x, y, 0)
    }

    pub fn x(&self) -> (r: u8)
        ensures
            r == self@.0,
    {
        self.coords[0]
    }

    pub fn y(&self) -> (r: u8)
        ensures
            r == self@.1,
    {
        self.coords[1]
    }

    pub fn z(&self) -> (r: u8)
        ensures
            r == self@.2,
    {
        self.coords[2]
    }
}

/// The `k`-th point of the 2D grid in row-major order: `(k / 3, k % 3, 0)`.
pub open spec fn grid_point_2d(k: int) -> (u8, u8, u8) {
    ((k / 3) as u8, (k % 3) as u8, 0u8)
}

/// The `k`-th point of the 3D grid in lexicographic order: `(k / 9, (k / 3) % 3, k % 3)`.
pub open spec fn grid_point_3d(k: int) -> (u8, u8, u8) {
    ((k / 9) as u8, ((k / 3) % 3) as u8, (k % 3) as u8)
}

impl TernaryPoint {
    /// All possible ternary 2D points (9 total), in row-major order.
    pub fn all_2d() -> (pts: Vec<Self>)
        ensures
            pts.len() == 9,
            forall|k: int| 0 <= k < 9 ==> #[trigger] pts@[k]@ == grid_point_2d(k),
    {
        let mut pts: Vec<Self> = Vec::with_capacity(9);
        let mut x: u8 = 0;
        while x < 3
            invariant
                x <= 3,
                pts.len() == 3 * x,
                forall|k: int| 0 <= k < pts.len() ==> #[trigger] pts@[k]@ == grid_point_2d(k),
            decreases 3 - x,
        {
            let mut y: u8 = 0;
            while y < 3
                invariant
                    x < 3,
                    y <= 3,
                    pts.len() == 3 * x + y,
                    forall|k: int| 0 <= k < pts.len() ==> #[trigger] pts@[k]@ == grid_point_2d(k),
                decreases 3 - y,
            {
                pts.push(TernaryPoint::new_2d(x, y));
                y += 1;
            }
            x += 1;
        }
        pts
    }

    /// All possible ternary 3D points (27 total), in lexicographic order.
    pub fn all_3d() -> (pts: Vec<Self>)
        ensures
            pts.len() == 27,
            forall|k: int| 0 <= k < 27 ==> #[trigger] pts@[k]@ == grid_point_3d(k),
    {
        let mut pts: Vec<Self> = Vec::with_capacity(27);
        let mut x: u8 = 0;
        while x < 3
            invariant
                x <= 3,
                pts.len() == 9 * x,
                forall|k: int| 0 <= k < pts.len() ==> #[trigger] pts@[k]@ == grid_point_3d(k),
            decreases 3 - x,
        {
            let mut y: u8 = 0;
            while y < 3
                invariant
                    x < 3,
                    y <= 3,
                    pts.len() == 9 * x + 3 * y,
                    forall|k: int| 0 <= k < pts.len() ==> #[trigger] pts@[k]@ == grid_point_3d(k),
                decreases 3 - y,
            {
                let mut z: u8 = 0;
                while z < 3
                    invariant
                        x < 3,
                        y < 3,
                        z <= 3,
                        pts.len() == 9 * x + 3 * y + z,
                        forall|k: int| 0 <= k < pts.len() ==> #[trigger] pts@[k]@ == grid_point_3d(k),
                    decreases 3 - z,
                {
                    pts.push(TernaryPoint::new(x, y, z));
                    z += 1;
                }
                y += 1;
            }
            x += 1;
        }
        pts
    }
}

/// The 3D grid enumeration lists exactly the ternary points, each once: the point
/// `(x, y, z)` stands at index `9x + 3y + z` and nowhere else.
pub proof fn lemma_grid_3d_enumerates(x: u8, y: u8, z: u8)
    requires
        x <= 2,
        y <= 2,
        z <= 2,
    ensures
        grid_point_3d(9 * x + 3 * y + z) == (x, y, z),
        forall|k: int| 0 <= k < 27 && #[trigger] grid_point_3d(k) == (x, y, z) ==> k == 9 * x + 3 * y + z,
{
    assert forall|k: int| 0 <= k < 27 && #[trigger] grid_point_3d(k) == (x, y, z) implies k == 9 * x + 3
        * y + z by {
        assert(k == 9 * (k / 9) + 3 * ((k / 3) % 3) + k % 3);
    }
}

/// Every entry of the 3D grid enumeration is a ternary point.
pub proof fn lemma_grid_3d_is_ternary(k: int)
    requires
        0 <= k < 27,
    ensures
        grid_point_3d(k).0 <= 2 && grid_point_3d(k).1 <= 2 && grid_point_3d(k).2 <= 2,
{
}

/// The 2D grid enumeration lists exactly the ternary points with `z = 0`, each once:
/// the point `(x, y, 0)` stands at index `3x + y` and nowhere else.
pub proof fn lemma_grid_2d_enumerates(x: u8, y: u8)
    requires
        x <= 2,
        y <= 2,
    ensures
        grid_point_2d(3 * x + y) == (x, y, 0u8),
        forall|k: int| 0 <= k < 9 && #[trigger] grid_point_2d(k) == (x, y, 0u8) ==> k == 3 * x + y,
{
    assert forall|k: int| 0 <= k < 9 && #[trigger] grid_point_2d(k) == (x, y, 0u8) implies k == 3 * x
        + y by {
        assert(k == 3 * (k / 3) + k % 3);
    }
}

/// Every entry of the 2D grid enumeration is a ternary point in the plane `z = 0`.
pub proof fn lemma_grid_2d_is_ternary(k: int)
    requires
        0 <= k < 9,
    ensures
        grid_point_2d(k).0 <= 2 && grid_point_2d(k).1 <= 2 && grid_point_2d(k).2 == 0,
{
}

} // verus!
