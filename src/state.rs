use vstd::prelude::*;
use vstd::string::*;
use crate::common_math::{Angles, Vec3, SCALE, angles_json, vec3_json};

verus! {

/// The complete physical snapshot of the aircraft at one instant.
#[derive(Clone, Copy, Debug, PartialEq, Eq)]
pub struct State {
    pub position: Vec3,
    pub pointing_global: Angles,
    pub angular_rate: Angles,
    pub velocity: Vec3,
    pub acceleration: Vec3,
}

pub open spec fn zero_vec() -> Vec3 {
    Vec3 { x: 0, y: 0, z: 0 }
}

pub open spec fn zero_angles() -> Angles {
    Angles { azimouth: 0, altitude: 0, roll: 0 }
}

/// The text record of a state: a JSON object of its five fields.
pub open spec fn state_json(s: State) -> Seq<char> {
    "{\"position\": "@ + vec3_json(s.position) + ", \"pointing_global\": "@ + angles_json(
        s.pointing_global,
    ) + ", \"angular_rate\": "@ + angles_json(s.angular_rate) + ", \"velocity\": "@ + vec3_json(
        s.velocity,
    ) + ", \"acceleration\": "@ + vec3_json(s.acceleration) + "}"@
}

impl State {
    pub open spec fn spec_runway() -> State {
        State {
            position: zero_vec(),
            pointing_global: zero_angles(),
            angular_rate: zero_angles(),
            velocity: zero_vec(),
            acceleration: zero_vec(),
        }
    }

    pub open spec fn spec_flying() -> State {
        State {
            position: Vec3 { x: 0, y: 0, z: 100_000_000 },
            pointing_global: Angles { azimouth: 0, altitude: 6_000_000, roll: 0 },
            angular_rate: zero_angles(),
            velocity: Vec3 { x: 40_000_000, y: 0, z: 0 },
            acceleration: zero_vec(),
        }
    }

    pub open spec fn spec_flying_high() -> State {
        State {
            position: Vec3 { x: 0, y: 0, z: 1_000_000_000 },
            pointing_global: Angles { azimouth: 0, altitude: 6_000_000, roll: 0 },
            angular_rate: zero_angles(),
            velocity: Vec3 { x: 40_000_000, y: 0, z: 0 },
            acceleration: zero_vec(),
        }
    }

    /// At rest at the origin, level.
    pub fn new() -> (r: State)
        ensures
            r.position == zero_vec(),
            r.pointing_global == zero_angles(),
            r.angular_rate == zero_angles(),
            r.velocity == zero_vec(),
            r.acceleration == zero_vec(),
    {
        State {
            pointing_global: Angles::new(0, 0, 0),
            angular_rate: Angles::new(0, 0, 0),
            position: Vec3::new(0, 0, 0),
            velocity: Vec3::new(0, 0, 0),
            acceleration: Vec3::new(0, 0, 0),
        }
    }

    /// Cruise: 100 m up, 40 m/s forward along x, pitched up 6 degrees.
    pub fn flying() -> (r: State)
        ensures
            r.position == (Vec3 { x: 0, y: 0, z: 100_000_000 }),
            r.pointing_global == (Angles { azimouth: 0, altitude: 6_000_000, roll: 0 }),
            r.angular_rate == zero_angles(),
            r.velocity == (Vec3 { x: 40_000_000, y: 0, z: 0 }),
            r.acceleration == zero_vec(),
    {
        State {
            pointing_global: Angles::new(0, 6 * SCALE, 0),
            angular_rate: Angles::new(0, 0, 0),
            position: Vec3::new(0, 0, 100 * SCALE),
            velocity: Vec3::new(40 * SCALE, 0, 0),
            acceleration: Vec3::new(0, 0, 0),
        }
    }

    /// High-altitude cruise: as `flying`, but 1000 m up.
    pub fn flying_high() -> (r: State)
        ensures
            r.position == (Vec3 { x: 0, y: 0, z: 1_000_000_000 }),
            r.pointing_global == (Angles { azimouth: 0, altitude: 6_000_000, roll: 0 }),
            r.angular_rate == zero_angles(),
            r.velocity == (Vec3 { x: 40_000_000, y: 0, z: 0 }),
            r.acceleration == zero_vec(),
    {
        State {
            pointing_global: Angles::new(0, 6 * SCALE, 0),
            angular_rate: Angles::new(0, 0, 0),
            position: Vec3::new(0, 0, 1000 * SCALE),
            velocity: Vec3::new(40 * SCALE, 0, 0),
            acceleration: Vec3::new(0, 0, 0),
        }
    }

    /// On the runway: at rest at the origin, level.
    pub fn runway() -> (r: State)
        ensures
            r.position == zero_vec(),
            r.pointing_global == zero_angles(),
            r.angular_rate == zero_angles(),
            r.velocity == zero_vec(),
            r.acceleration == zero_vec(),
    {
        State {
            pointing_global: Angles::new(0, 0, 0),
            angular_rate: Angles::new(0, 0, 0),
            position: Vec3::new(0, 0, 0),
            velocity: Vec3::new(0, 0, 0),
            acceleration: Vec3::new(0, 0, 0),
        }
    }

    /// The state as one JSON object, one record of the flight log.
    pub fn log(&self) -> (r: String)
        ensures
            r@ == state_json(*self),
    {
        let mut s = String::new();
        s.append("{\"position\": ");
        s.append(self.position.jsonify().as_str());
        s.append(", \"pointing_global\": ");
        s.append(self.pointing_global.jsonify().as_str());
        s.append(", \"angular_rate\": ");
        s.append(self.angular_rate.jsonify().as_str());
        s.append(", \"velocity\": ");
        s.append(self.velocity.jsonify().as_str());
        s.append(", \"acceleration\": ");
        s.append(self.acceleration.jsonify().as_str());
        s.append("}");
        proof {
            assert(s@ =~= state_json(*self));
        }
        s
    }
}

} // verus!
