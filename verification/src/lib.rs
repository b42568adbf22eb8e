//! The verified core of a spectral path tracer: the decisions of the renderer
//! that depend on the order of numbers, on counts and on indices, each with a
//! contract that Verus proves.
pub mod aabb;
pub mod bxdf;
pub mod camera;
pub mod config;
pub mod geometry;
pub mod grid;
pub mod integrator;
pub mod kdtree;
pub mod nearest;
pub mod ordering;
pub mod refractive_index;
pub mod renderer;
pub mod sampler;
pub mod scalar;
pub mod scene;
pub mod spectrum;
