//! Three-component rational vectors: the particle state of the simulation.

use crate::rational::Q;
use vstd::prelude::*;

verus! {

/// A spec-level rational: an unbounded numerator/denominator pair.
pub type Qv = (int, int);

/// A spec-level three-component vector of rationals.
pub type V3v = (Qv, Qv, Qv);

/// A position (or derivative) of one particle, held exactly.
#[derive(Clone, Copy, PartialEq, Eq, Structural, Debug)]
pub struct V3 {
    pub x: Q,
    pub y: Q,
    pub z: Q,
}

/// A spec-level four-component vector of rationals.
pub type V4v = (Qv, Qv, Qv, Qv);

/// A four-component rational vector: one matrix row, or a clip-space
/// position, or a colour.
#[derive(Clone, Copy, PartialEq, Eq, Structural, Debug)]
pub struct Vec4Q {
    pub x: Q,
    pub y: Q,
    pub z: Q,
    pub w: Q,
}

impl Vec4Q {
    /// All four components are well-formed rationals.
    pub open spec fn wf(self) -> bool {
        self.x.wf() && self.y.wf() && self.z.wf() && self.w.wf()
    }

    /// The vector as a quadruple of unbounded rationals.
    pub open spec fn v(self) -> V4v {
        (self.x.v(), self.y.v(), self.z.v(), self.w.v())
    }
}

impl V3 {
    /// All three components are well-formed rationals.
    pub open spec fn wf(self) -> bool {
        self.x.wf() && self.y.wf() && self.z.wf()
    }

    /// The vector as a triple of unbounded rationals.
    pub open spec fn v(self) -> V3v {
        (self.x.v(), self.y.v(), self.z.v())
    }

    /// Builds a vector from its components.
    pub fn new(x: Q, y: Q, z: Q) -> (r: V3)
        ensures
            r == (V3 { x, y, z }),
    {
        V3 { x, y, z }
    }
}

} // verus!
