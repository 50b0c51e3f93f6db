//! A k-means clustering library (Lloyd's algorithm) over points with exact
//! integer coordinates, verified with Verus.
//!
//! Coordinates are bounded integers and every centroid is kept as an exact
//! rational: the coordinate-wise sum of its members together with the member
//! count. All distance comparisons are carried out exactly in integer
//! arithmetic (comparing squared Euclidean distances by cross-multiplication),
//! so clustering decisions never depend on rounding. Randomized centroid
//! initialization (uniform and k-means++ style weighted sampling) draws from
//! the `rand` crate through a small trusted seam; for a fixed seed the whole
//! fit is a mathematical function of its inputs, and the contracts say which
//! one.

pub mod bounds;
pub mod centroid;
pub mod cluster;
pub mod kmeans;
pub mod point;
pub mod sampling;
