//! A k-d tree over primitives, split by the surface area heuristic.
//!
//! The tree is built once from the bounds of the primitives and then only
//! read. A primitive is known by its index; a leaf holds the indices of the
//! primitives whose bounds reach into it.
pub mod candidate;
pub mod cost;
pub mod plane;
pub mod node;
pub mod traverse;
pub mod coverage;
pub mod sort;
pub mod tree;
pub mod query;
pub mod counts;
