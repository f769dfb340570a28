//! Verified core of an offline Monte Carlo path tracer.
//!
//! The renderer's scalar arithmetic is IEEE-754 floating point, which the
//! verifier cannot reason about; that arithmetic lives in the unverified
//! front end.  What stands here is the discrete heart of the renderer:
//! the lattice permutations behind the procedural noise texture, the
//! ordering and partitioning that build the bounding-volume hierarchy,
//! and the assembly of the textual image output.

pub mod bvh;
pub mod perlin;
pub mod perm;
pub mod ppm;
mod rng;
