//! A particle simulator for the Lorenz attractor with fixed-length trails.
//!
//! Every particle carries a contiguous, fixed-length history of positions in
//! one flat buffer; each simulation step shifts that history by one slot and
//! integrates a new head state with a forward Euler step of the Lorenz
//! system.  All simulation arithmetic is exact rational arithmetic, so every
//! contract in this crate pins the computed values down precisely.

use vstd::prelude::*;

pub mod camera;
pub mod frame;
pub mod lorenz;
pub mod rational;
pub mod render;
pub mod trail;
pub mod uniform;
pub mod vec3;

verus! {

/// Number of independent particles in the default configuration.
pub const PARTICLES: u32 = 50;

/// Number of history records kept per particle in the default configuration.
pub const TRAIL_LENGTH: u32 = 500;

} // verus!
