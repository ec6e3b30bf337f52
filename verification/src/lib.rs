//! Integer line rasterization on a pixel grid.
//!
//! [`interpolate_line`] turns a segment between two grid cells into the cells
//! to paint, with Bresenham's integer algorithm. Its contract is stated over
//! the model in [`line`]; [`laws`] holds what follows of every such segment.

pub mod coordinate;
pub mod laws;
pub mod line;
pub mod raster;
pub mod rounding;

pub use coordinate::Coordinate;
pub use raster::interpolate_line;
