# ternary geometry, verified

Geometry on the ternary grid {0, 1, 2}^3, written in Verus with every function
proved against its contract.

- `src/point.rs`: `TernaryPoint` and the enumerations of the 2D and 3D grids.
- `src/distance.rs`: Manhattan, Lee (cyclic on Z/3Z) and Hamming distances, with
  their metric laws.
- `src/line.rs`: segments, midpoints, orientation and segment membership.
- `src/voronoi.rs`: nearest-seed partitions of the grid, ties to the first seed.
- `src/hull.rs`: gift-wrapping convex hull and its exact specification.
- `src/convexity.rs`: proofs that, on points sharing one z, the hull's edges keep
  every point on their right and points strictly inside the hull are never
  returned; and, where no two points share x and y, that the walk closes within n
  steps without repeating an index and returns exactly the extreme points.
- `src/region.rs`: grid volume and area, bounding boxes, points inside a box.
- `src/area.rs`: the integer shoelace sum and coordinate sums.
- `app/lib.rs`: the floating-point polygon area and centroid built on `src/area.rs`.
