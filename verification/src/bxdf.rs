//! Scattering lobes: what kind each is, and how a surface picks among them.
pub mod flags;
pub mod bsdf;
pub mod local;
