//! Geometry on the ternary grid {0, 1, 2}^3: points, lines, distance metrics,
//! Voronoi partitions, convex hulls and areas.

pub mod area;
pub mod convexity;
pub mod distance;
pub mod hull;
pub mod line;
pub mod point;
pub mod region;
pub mod voronoi;

pub use area::{coordinate_sums_2d, polygon_doubled_signed_area_2d};
pub use distance::{hamming_distance, lee_distance, manhattan_distance};
pub use hull::convex_hull_2d;
pub use line::{point_on_segment, TernaryLine};
pub use point::TernaryPoint;
pub use region::{bounding_box_2d, points_in_bbox, ternary_grid_area, ternary_grid_volume};
pub use voronoi::{voronoi_lee_3d, voronoi_manhattan_2d, voronoi_manhattan_3d};
