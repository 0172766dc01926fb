//! Fixed-point conventions and machine limits.
//!
//! A world unit (one pixel of the viewport, one second of simulated time,
//! an attraction factor of 1.0) is `SCALE` sub-units. All quantities in the
//! library are `i64` counts of sub-units.

use vstd::prelude::*;

verus! {

/// Sub-units per world unit: positions, velocities, times and force factors
/// are all scaled by this constant.
pub const SCALE: i64 = 1_000_000;

/// The repulsion-core constant of the force law, 0.3 in world units:
/// below this normalized distance the force is repulsive for every
/// colour pairing.
pub const BETA: i64 = 300_000;

/// Half-life of the velocity decay, 0.02 seconds in world units: after this
/// much simulated time a velocity decays to one half.
pub const HALF_LIFE: i64 = 20_000;

/// Largest magnitude a boundary corner may reach: a well-formed boundary
/// keeps `x`, `y`, `x + width` and `y + height` within `[-COORD_CAP,
/// COORD_CAP]`, so that the inclusive containment and overlap tests never
/// overflow an `i64`.
pub const COORD_CAP: i64 = 4_000_000_000_000_000_000;

/// Largest magnitude of a particle coordinate accepted at the start of a
/// frame (one million world units).
pub const COORD_LIMIT: i64 = 1_000_000_000_000;

/// Largest domain width or height accepted by the integrator (two million
/// world units).
pub const SIZE_LIMIT: i64 = 2_000_000_000_000;

/// Largest magnitude of a particle velocity accepted at the start of a
/// frame (one million world units per second).
pub const VEL_LIMIT: i64 = 1_000_000_000_000;

/// Largest frame time accepted (ten seconds).
pub const TIME_LIMIT: i64 = 10_000_000;

/// Largest magnitude of an attraction factor (16.0 in world units).
pub const ATTRACTION_LIMIT: i64 = 16_000_000;

/// Largest interaction threshold accepted (one thousand world units).
pub const THRESHOLD_LIMIT: i64 = 1_000_000_000;

/// Largest particle radius accepted (one thousand world units).
pub const RADIUS_LIMIT: i64 = 1_000_000_000;

/// Largest magnitude of an acceleration handed to the integrator.
pub const ACCEL_LIMIT: i64 = 4_000_000_000_000_000;

/// Largest magnitude a particle coordinate can reach in the middle of a
/// frame, after one integration step from within [`COORD_LIMIT`].
pub const POS_WORK_LIMIT: i64 = 2_000_000_000_000_000_000;

/// Largest magnitude a particle velocity can reach in the middle of a
/// frame, after one decay-and-accelerate update from within [`VEL_LIMIT`].
pub const VEL_WORK_LIMIT: i64 = 100_000_000_000_000_000;

/// Largest number of particles a single frame step accepts.
pub const COUNT_LIMIT: usize = 65536;

} // verus!
