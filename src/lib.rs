//! Incremental planar triangulation over points with integer coordinates.
//!
//! A [`triangulation::Triangulation`] owns a list of points and a collection of
//! triangles that refer to those points by index. Points are pre-ordered along a
//! serpentine walk over a grid of bins, enclosed in one oversized bootstrap
//! triangle, and then inserted one at a time: the first triangle that contains
//! the new point is replaced by the three triangles that fan out from it.

pub mod bin_order;
pub mod point;
pub mod triangle;
pub mod triangulation;
