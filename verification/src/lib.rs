//! Voronoi diagram rasterizer.
//!
//! A `Canvas` owns a grid of packed 32-bit colors and a list of seed
//! points.  Rasterization assigns every pixel the color of the nearest
//! seed under Euclidean distance, with ties broken toward the seed of
//! lowest index.  The resulting pixel buffer can be encoded as a binary
//! netpbm (P6) image.

pub mod canvas;
pub mod geom;
pub mod netpbm;
