//! Plane geometry: positions, velocities, and axis-aligned boundaries with
//! inclusive containment and overlap tests, plus the exact quartering of a
//! boundary that the quadtree subdivides into.

use vstd::prelude::*;
use crate::units::COORD_CAP;

verus! {

/// A point of the plane, in fixed-point sub-units.
#[derive(Clone, Copy, PartialEq, Eq, Structural, Debug)]
pub struct Position {
    pub x: i64,
    pub y: i64,
}

/// A rate of positional change per unit of simulated time, in fixed-point
/// sub-units.
#[derive(Clone, Copy, PartialEq, Eq, Structural, Debug)]
pub struct Velocity {
    pub x: i64,
    pub y: i64,
}

/// An axis-aligned rectangle `[x, x + width] x [y, y + height]`, used both
/// as a quadtree node's territory and as a query window.
#[derive(Clone, Copy, PartialEq, Eq, Structural, Debug)]
pub struct Boundary {
    pub x: i64,
    pub y: i64,
    pub width: i64,
    pub height: i64,
}

impl Boundary {
    /// A boundary is well formed when its extents are non-negative and all
    /// four corners stay within `[-COORD_CAP, COORD_CAP]`, so that the
    /// containment and overlap arithmetic cannot overflow.
    pub open spec fn wf(self) -> bool {
        &&& 0 <= self.width
        &&& 0 <= self.height
        &&& -COORD_CAP <= self.x
        &&& -COORD_CAP <= self.y
        &&& self.x + self.width <= COORD_CAP
        &&& self.y + self.height <= COORD_CAP
    }

    /// Inclusive containment: both bounds of each axis belong to the
    /// boundary.
    pub open spec fn contains_spec(self, p: Position) -> bool {
        &&& self.x <= p.x <= self.x + self.width
        &&& self.y <= p.y <= self.y + self.height
    }

    /// Strict interior: containment away from every edge.
    pub open spec fn interior_spec(self, p: Position) -> bool {
        &&& self.x < p.x < self.x + self.width
        &&& self.y < p.y < self.y + self.height
    }

    /// Inclusive axis-aligned overlap test between `self` (a query window)
    /// and `other` (a node's territory).
    pub open spec fn overlaps_spec(self, other: Boundary) -> bool {
        &&& self.x + self.width >= other.x
        &&& self.x <= other.x + other.width
        &&& self.y + self.height >= other.y
        &&& self.y <= other.y + other.height
    }

    /// The north-west quarter of the boundary.
    pub open spec fn nw_spec(self) -> Boundary {
        Boundary {
            x: self.x,
            y: self.y,
            width: (self.width / 2) as i64,
            height: (self.height / 2) as i64,
        }
    }

    /// The north-east quarter of the boundary.
    pub open spec fn ne_spec(self) -> Boundary {
        Boundary {
            x: (self.x + self.width / 2) as i64,
            y: self.y,
            width: (self.width - self.width / 2) as i64,
            height: (self.height / 2) as i64,
        }
    }

    /// The south-west quarter of the boundary.
    pub open spec fn sw_spec(self) -> Boundary {
        Boundary {
            x: self.x,
            y: (self.y + self.height / 2) as i64,
            width: (self.width / 2) as i64,
            height: (self.height - self.height / 2) as i64,
        }
    }

    /// The south-east quarter of the boundary.
    pub open spec fn se_spec(self) -> Boundary {
        Boundary {
            x: (self.x + self.width / 2) as i64,
            y: (self.y + self.height / 2) as i64,
            width: (self.width - self.width / 2) as i64,
            height: (self.height - self.height / 2) as i64,
        }
    }

    /// Executable inclusive containment test.
    pub fn contains(&self, p: &Position) -> (r: bool)
        requires
            self.wf(),
        ensures
            r == self.contains_spec(*p),
    {
        p.x >= self.x && p.x <= self.x + self.width && p.y >= self.y && p.y <= self.y + self.height
    }

    /// Executable inclusive overlap test.
    pub fn overlaps(&self, other: &Boundary) -> (r: bool)
        requires
            self.wf(),
            other.wf(),
        ensures
            r == self.overlaps_spec(*other),
    {
        self.x + self.width >= other.x && self.x <= other.x + other.width
            && self.y + self.height >= other.y && self.y <= other.y + other.height
    }
}

/// Each quarter of a well-formed boundary is itself well formed and is
/// contained in the whole.
pub proof fn lemma_quadrants_wf(b: Boundary)
    requires
        b.wf(),
    ensures
        b.nw_spec().wf(),
        b.ne_spec().wf(),
        b.sw_spec().wf(),
        b.se_spec().wf(),
        forall|p: Position| b.nw_spec().contains_spec(p) ==> b.contains_spec(p),
        forall|p: Position| b.ne_spec().contains_spec(p) ==> b.contains_spec(p),
        forall|p: Position| b.sw_spec().contains_spec(p) ==> b.contains_spec(p),
        forall|p: Position| b.se_spec().contains_spec(p) ==> b.contains_spec(p),
{
}

/// The four quarters of a well-formed boundary tile it exactly: every point
/// of the whole lies in at least one quarter (no gap), every point of a
/// quarter lies in the whole, and the quarters' strict interiors are
/// pairwise disjoint, so two quarters can share edge points only.
pub proof fn lemma_quadrants_partition(b: Boundary)
    requires
        b.wf(),
    ensures
        forall|p: Position|
            b.contains_spec(p) <==> (b.nw_spec().contains_spec(p) || b.ne_spec().contains_spec(p)
                || b.sw_spec().contains_spec(p) || b.se_spec().contains_spec(p)),
        forall|p: Position| !(b.nw_spec().interior_spec(p) && b.ne_spec().interior_spec(p)),
        forall|p: Position| !(b.nw_spec().interior_spec(p) && b.sw_spec().interior_spec(p)),
        forall|p: Position| !(b.nw_spec().interior_spec(p) && b.se_spec().interior_spec(p)),
        forall|p: Position| !(b.ne_spec().interior_spec(p) && b.sw_spec().interior_spec(p)),
        forall|p: Position| !(b.ne_spec().interior_spec(p) && b.se_spec().interior_spec(p)),
        forall|p: Position| !(b.sw_spec().interior_spec(p) && b.se_spec().interior_spec(p)),
{
}

} // verus!
