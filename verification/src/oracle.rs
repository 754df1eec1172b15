//! The environment oracle: the black-box sweep test an external physics
//! engine supplies.
//!
//! The resolver never inspects geometry itself. An oracle value stands for
//! one entity's view of the environment: it carries the entity's collision
//! shape, orientation and self-exclusion filter, and answers sweep and
//! overlap questions about them. The resolver validates every report
//! before using it (clamping the impact fraction, bounding the normal),
//! so implementations carry no proof obligations.

use vstd::prelude::*;

verus! {

use crate::vec3::Vec3Fx;

/// One reported contact.
///
/// For a sweep, `time_of_impact` is the fraction of the full motion the
/// shape can travel before first contact, scaled by
/// [`crate::fx::FP_ONE`] (so `0` means already touching and `FP_ONE`
/// means the whole motion); for an overlap test it is the penetration
/// depth, a fixed-point length. `normal` is the contacted surface's
/// normal, a unit vector.
#[derive(Clone, Copy, PartialEq, Eq, Structural, Debug)]
pub struct SweepHit {
    pub time_of_impact: i64,
    pub normal: Vec3Fx,
}

/// The sweep-test contract an external physics engine fulfils.
pub trait EnvironmentOracle {
    /// The nearest hit for the entity's shape swept from `origin` along
    /// the full displacement `motion`, excluding the entity itself;
    /// `None` when the path is clear.
    fn cast(&self, origin: Vec3Fx, motion: Vec3Fx) -> Option<SweepHit>;

    /// A zero-distance overlap test of the shape placed at `origin`: a
    /// hit means the shape already overlaps geometry, and asks to be
    /// pushed out along `normal` by `time_of_impact` (the penetration
    /// depth).
    fn overlap(&self, origin: Vec3Fx) -> Option<SweepHit>;
}

} // verus!
