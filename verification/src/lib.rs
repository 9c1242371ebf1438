//! Arc-length resampling of flattened contours and selection of the
//! rotating-vector components that redraw them.
//!
//! A drawing passes through the modules in this order: `geometry` measures
//! straight segments on an integer grid, `contour` chains them into a path
//! and sums its arc length, `resample` places evenly spaced samples on the
//! path, and `epicycle` picks, from the spectrum of those samples, the
//! frequency components to draw.

pub mod contour;
pub mod epicycle;
pub mod geometry;
pub mod resample;
