//! Derives the planar affine transform that carries the marker triangle of
//! one UV raster onto the marker triangle of another.
//!
//! The pipeline has two stages: the marker locator scans a raster for
//! non-background pixels and orders them by a color-derived key, and the
//! affine solver computes the unique map that carries one ordered triangle
//! exactly onto another.

pub mod color;
pub mod locator;
pub mod raster;
pub mod solver;
