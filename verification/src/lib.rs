//! A verified core for a 2-D "particle life" simulation: a region quadtree
//! over particles, a colour-pair force law with a triangular kernel, a
//! wrap-around integrator with frame-rate-independent velocity decay, and a
//! per-frame driver that rebuilds the index and updates particles in order.
//!
//! All coordinates, velocities, times and force factors are fixed-point
//! integers with [`units::SCALE`] sub-units per world unit, so that every
//! computation is exact integer arithmetic and every contract can be stated
//! over mathematical integers.

pub mod units;
pub mod geom;
pub mod particle;
pub mod quadtree;
pub mod math;
pub mod force;
pub mod kinematics;
pub mod sim;
