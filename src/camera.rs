use vstd::prelude::*;
use crate::common_math::{Angles, Vec3};

verus! {

/// The cockpit viewpoint: where the camera is and which way it looks (Euler
/// angles), copied from the aircraft each tick.
#[derive(Clone, Copy, Debug, PartialEq, Eq)]
pub struct Camera {
    pub position: Vec3,
    pub euler: Angles,
}

impl Camera {
    /// At the origin, level.
    pub fn new() -> (r: Camera)
        ensures
            r.position == (Vec3 { x: 0, y: 0, z: 0 }),
            r.euler == (Angles { azimouth: 0, altitude: 0, roll: 0 }),
    {
        Camera { position: Vec3::new(0, 0, 0), euler: Angles::new(0, 0, 0) }
    }
}

} // verus!
