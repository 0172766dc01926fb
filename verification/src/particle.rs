//! Particles: identity-less records of position, velocity and colour.

use vstd::prelude::*;
use crate::geom::{Position, Velocity};
use crate::units::{COORD_LIMIT, POS_WORK_LIMIT, VEL_LIMIT, VEL_WORK_LIMIT};

verus! {

/// The colour classes a particle can carry. The force law looks attraction
/// factors up by ordered pairs of these; any colour outside the first
/// three falls into `Other`.
#[derive(Clone, Copy, PartialEq, Eq, Structural, Debug)]
pub enum ColorTag {
    Red,
    Green,
    Blue,
    Other,
}

/// A particle of the simulation. Particles are owned by the driver's flat
/// store; the quadtree holds copies for the duration of one frame only.
#[derive(Clone, Copy, PartialEq, Eq, Structural, Debug)]
pub struct Particle {
    pub position: Position,
    pub color: ColorTag,
    pub velocity: Velocity,
}

impl Particle {
    /// Builds a particle from its parts.
    pub fn new(position: Position, color: ColorTag, velocity: Velocity) -> (p: Particle)
        ensures
            p == (Particle { position, color, velocity }),
    {
        Particle { position, color, velocity }
    }

    /// The bounds a particle must satisfy at the start of a frame for every
    /// arithmetic step of that frame to stay in range.
    pub open spec fn in_input_limits(self) -> bool {
        &&& -COORD_LIMIT <= self.position.x <= COORD_LIMIT
        &&& -COORD_LIMIT <= self.position.y <= COORD_LIMIT
        &&& -VEL_LIMIT <= self.velocity.x <= VEL_LIMIT
        &&& -VEL_LIMIT <= self.velocity.y <= VEL_LIMIT
    }

    /// The looser bounds a particle satisfies in the middle of a frame,
    /// after one velocity update and one integration step from within the
    /// input limits.
    pub open spec fn in_working_limits(self) -> bool {
        &&& -POS_WORK_LIMIT <= self.position.x <= POS_WORK_LIMIT
        &&& -POS_WORK_LIMIT <= self.position.y <= POS_WORK_LIMIT
        &&& -VEL_WORK_LIMIT <= self.velocity.x <= VEL_WORK_LIMIT
        &&& -VEL_WORK_LIMIT <= self.velocity.y <= VEL_WORK_LIMIT
    }
}

} // verus!
