use vstd::prelude::*;
use crate::common_math::{
    clamp, floor_div, fmul, lemma_div_within, lemma_mul_bound, mul_fixed, scale, spec_rad_to_deg,
    within, Angles, AnglesTrig, Trig, Vec3, ANGLE_LIMIT, LIMIT, PI, SCALE, WORLD_LIMIT,
    FORCE_LIMIT, RAD_LIMIT, spec_deg_to_rad, spec_transform, deg_to_rad, rad_to_deg,
    lemma_fmul_bound, lemma_deg_to_rad_within, lemma_square_bound, lemma_norm_sq_nonneg,
    lemma_floor_sqrt,
};
use crate::state::State;

verus! {

/// Air density at sea level, kg/m^3.
pub const RHO: i64 = 1_225_000;

/// Gravitational acceleration, m/s^2.
pub const GRAVITY: i64 = 9_810_000;

/// Upper saturation of the lift coefficient.
pub const CL_MAX: i64 = 1_200_000;

/// Lower saturation of the lift coefficient.
pub const CL_MIN: i64 = -800_000;

/// Aspect ratio of the main wing, in the induced-drag term.
pub const ASPECT_RATIO: i64 = 7;

/// Parasitic drag coefficient.
pub const PARASITIC_DRAG: i64 = 50_000;

/// Static thrust of the engine at full throttle, N: the power-limited thrust
/// `power / speed` is capped at this times the throttle, which also defines
/// the thrust at zero airspeed.
pub const STATIC_THRUST: i64 = 3_000_000_000;

/// Vertical speed, m/s, below which a touchdown is a crash.
pub const HARD_LANDING_SPEED: i64 = -1_000_000;

/// Bound on the velocity components inside the flight envelope (1000 m/s).
pub const VELOCITY_LIMIT: i64 = 1_000_000_000;

/// Bound on the position components inside the flight envelope (10^9 m).
pub const POSITION_LIMIT: i64 = 1_000_000_000_000_000;

/// Bound on the reference area inside the flight envelope (10000 m^2).
pub const AREA_LIMIT: i64 = 10_000_000_000;

/// Bound on azimuth, roll and the angular rates: any two of them add up
/// within `i64`.
pub const TURN_LIMIT: i64 = 4_000_000_000_000_000_000;

/// Bound on a climb angle handed in by the caller, radians (above pi).
pub const CLIMB_LIMIT: i64 = 4_000_000;

/// What one integration step led to.
#[derive(Clone, Copy, Debug, PartialEq, Eq)]
pub enum StepOutcome {
    /// Above the ground after the step.
    Airborne,
    /// The step reached the ground at an acceptable vertical speed (the speed
    /// before the step); the ground constraint was applied.
    Grounded { vertical_speed: i64 },
    /// The step reached the ground faster than `HARD_LANDING_SPEED` allows:
    /// a terminal failure. The state was left as it was before the step.
    Crashed { vertical_speed: i64 },
}

/// The simulated vehicle: its physical state, throttle setting in `[0, 1]`
/// and airframe constants (kg, W, m^2).
#[derive(Clone, Copy, Debug, PartialEq, Eq)]
pub struct Aircraft {
    pub state: State,
    pub throttle_percent: i64,
    pub mass: i64,
    pub max_power: i64,
    pub area: i64,
}

pub open spec fn max(a: int, b: int) -> int {
    if a >= b {
        a
    } else {
        b
    }
}

/// Lift coefficient for angle of attack `alpha` (radians): a tenth of the
/// angle in degrees, saturated at `CL_MIN` and `CL_MAX`.
pub open spec fn spec_lift_coefficient(alpha: int) -> int {
    spec_lift_coefficient_deg(spec_rad_to_deg(alpha))
}

/// Lift coefficient for angle of attack `alpha_deg` (degrees).
pub open spec fn spec_lift_coefficient_deg(alpha_deg: int) -> int {
    clamp(alpha_deg / 10, CL_MIN as int, CL_MAX as int)
}

/// Drag coefficient for angle of attack `alpha` (radians): induced drag
/// `alpha^2 / (pi * aspect ratio)` plus the parasitic term.
pub open spec fn spec_drag_coefficient(alpha: int) -> int {
    (alpha * alpha) / (ASPECT_RATIO * PI) + PARASITIC_DRAG
}

/// Throttle after adding `delta` to `t`, held to `[0, 1]`.
pub open spec fn spec_throttle(t: int, delta: int) -> int {
    clamp(t + delta, 0, scale())
}

/// Throttle after applying each of `deltas` in turn.
pub open spec fn spec_throttle_all(t: int, deltas: Seq<i64>) -> int
    decreases deltas.len(),
{
    if deltas.len() == 0 {
        t
    } else {
        spec_throttle_all(spec_throttle(t, deltas[0] as int), deltas.drop_first())
    }
}

/// World-frame acceleration, velocity, position and orientation after one
/// step of `dt` seconds under the world-frame force `f` plus weight, then the
/// ground constraint; and what the step led to.
pub open spec fn spec_integrate(s: State, f: Vec3, mass: int, dt: int) -> (State, StepOutcome) {
    let weight = fmul(mass, GRAVITY as int);
    let ax = (f.x * scale()) / mass;
    let ay = (f.y * scale()) / mass;
    let az = ((f.z - weight) * scale()) / mass;
    let vx = s.velocity.x + fmul(ax, dt);
    let vy = s.velocity.y + fmul(ay, dt);
    let vz = s.velocity.z + fmul(az, dt);
    let px = s.position.x + fmul(vx, dt);
    let py = s.position.y + fmul(vy, dt);
    let pz = s.position.z + fmul(vz, dt);
    let pointing = Angles {
        azimouth: (s.pointing_global.azimouth + fmul(s.angular_rate.azimouth as int, dt)) as i64,
        altitude: (s.pointing_global.altitude + fmul(s.angular_rate.altitude as int, dt)) as i64,
        roll: (s.pointing_global.roll + fmul(s.angular_rate.roll as int, dt)) as i64,
    };
    if pz <= 0 {
        if s.velocity.z < HARD_LANDING_SPEED {
            (s, StepOutcome::Crashed { vertical_speed: s.velocity.z })
        } else {
            (
                State {
                    position: Vec3 {
                        x: px as i64,
                        y: py as i64,
                        z: max(s.position.z as int, 0) as i64,
                    },
                    pointing_global: pointing,
                    angular_rate: s.angular_rate,
                    velocity: Vec3 {
                        x: vx as i64,
                        y: vy as i64,
                        z: max(s.velocity.z as int, 0) as i64,
                    },
                    acceleration: Vec3 {
                        x: ax as i64,
                        y: ay as i64,
                        z: max(s.acceleration.z as int, 0) as i64,
                    },
                },
                StepOutcome::Grounded { vertical_speed: s.velocity.z },
            )
        }
    } else {
        (
            State {
                position: Vec3 { x: px as i64, y: py as i64, z: pz as i64 },
                pointing_global: pointing,
                angular_rate: s.angular_rate,
                velocity: Vec3 { x: vx as i64, y: vy as i64, z: vz as i64 },
                acceleration: Vec3 { x: ax as i64, y: ay as i64, z: az as i64 },
            },
            StepOutcome::Airborne,
        )
    }
}

/// The state bounds under which the integrator's arithmetic fits.
pub open spec fn integrable(s: State) -> bool {
    s.position.bounded(POSITION_LIMIT as int) && s.velocity.bounded(LIMIT as int)
        && s.pointing_global.bounded(TURN_LIMIT as int) && s.angular_rate.bounded(
        TURN_LIMIT as int,
    )
}

/// `|a| <= bound` and `|b| <= 1` keep the fixed-point product within `bound`.
pub proof fn lemma_fmul_unit(a: int, b: int, bound: int)
    requires
        bound >= 0,
        within(a, bound),
        within(b, scale()),
    ensures
        within(fmul(a, b), bound),
{
    lemma_mul_bound(a, b, bound, scale());
    lemma_div_within(a * b, scale(), bound);
}

proof fn lemma_accel_bound(f: int, mass: int)
    requires
        within(f, WORLD_LIMIT + LIMIT * 10),
        scale() <= mass,
    ensures
        within((f * scale()) / mass, WORLD_LIMIT + LIMIT * 10),
{
    let b = WORLD_LIMIT + LIMIT * 10;
    assert(within(f * scale(), b * mass)) by (nonlinear_arith)
        requires
            within(f, b),
            scale() <= mass,
            b >= 0,
    ;
    lemma_div_within(f * scale(), mass, b);
}

/// One fixed-timestep update of `state` under the world-frame force
/// `world_force` (weight is added here) for an aircraft of `mass`, followed
/// by the ground constraint.
pub fn integrate(state: &State, world_force: &Vec3, mass: i64, dt: i64) -> (r: (State, StepOutcome))
    requires
        integrable(*state),
        world_force.bounded(WORLD_LIMIT as int),
        SCALE <= mass <= LIMIT,
        0 <= dt <= SCALE,
    ensures
        r == spec_integrate(*state, *world_force, mass as int, dt as int),
        !(r.1 is Crashed) ==> r.0.position.z >= 0,
        state.position.z >= 0 ==> r.0.position.z >= 0,
{
    let s = SCALE as i128;
    let lim = WORLD_LIMIT + LIMIT * 10;
    proof {
        assert(scale() == 1_000_000);
        lemma_mul_bound(mass as int, GRAVITY as int, LIMIT as int, 10 * scale());
        lemma_div_within(mass * GRAVITY, scale(), 10 * LIMIT);
    }
    let weight = floor_div(mass as i128 * GRAVITY as i128, s);
    let fz = world_force.z as i128 - weight;
    proof {
        lemma_accel_bound(world_force.x as int, mass as int);
        lemma_accel_bound(world_force.y as int, mass as int);
        lemma_accel_bound(fz as int, mass as int);
    }
    let ax = floor_div(world_force.x as i128 * s, mass as i128) as i64;
    let ay = floor_div(world_force.y as i128 * s, mass as i128) as i64;
    let az = floor_div(fz * s, mass as i128) as i64;
    proof {
        lemma_fmul_unit(ax as int, dt as int, lim as int);
        lemma_fmul_unit(ay as int, dt as int, lim as int);
        lemma_fmul_unit(az as int, dt as int, lim as int);
    }
    let vx = state.velocity.x + mul_fixed(ax, dt);
    let vy = state.velocity.y + mul_fixed(ay, dt);
    let vz = state.velocity.z + mul_fixed(az, dt);
    proof {
        lemma_fmul_unit(vx as int, dt as int, (lim + LIMIT) as int);
        lemma_fmul_unit(vy as int, dt as int, (lim + LIMIT) as int);
        lemma_fmul_unit(vz as int, dt as int, (lim + LIMIT) as int);
    }
    let px = state.position.x + mul_fixed(vx, dt);
    let py = state.position.y + mul_fixed(vy, dt);
    let pz = state.position.z + mul_fixed(vz, dt);
    let rate = state.angular_rate;
    proof {
        lemma_fmul_unit(rate.azimouth as int, dt as int, TURN_LIMIT as int);
        lemma_fmul_unit(rate.altitude as int, dt as int, TURN_LIMIT as int);
        lemma_fmul_unit(rate.roll as int, dt as int, TURN_LIMIT as int);
    }
    let pointing = Angles {
        azimouth: state.pointing_global.azimouth + mul_fixed(rate.azimouth, dt),
        altitude: state.pointing_global.altitude + mul_fixed(rate.altitude, dt),
        roll: state.pointing_global.roll + mul_fixed(rate.roll, dt),
    };
    if pz <= 0 {
        if state.velocity.z < HARD_LANDING_SPEED {
            (*state, StepOutcome::Crashed { vertical_speed: state.velocity.z })
        } else {
            let next = State {
                position: Vec3 {
                    x: px,
                    y: py,
                    z: if state.position.z > 0 {
                        state.position.z
                    } else {
                        0
                    },
                },
                pointing_global: pointing,
                angular_rate: rate,
                velocity: Vec3 {
                    x: vx,
                    y: vy,
                    z: if state.velocity.z > 0 {
                        state.velocity.z
                    } else {
                        0
                    },
                },
                acceleration: Vec3 {
                    x: ax,
                    y: ay,
                    z: if state.acceleration.z > 0 {
                        state.acceleration.z
                    } else {
                        0
                    },
                },
            };
            (next, StepOutcome::Grounded { vertical_speed: state.velocity.z })
        }
    } else {
        let next = State {
            position: Vec3 { x: px, y: py, z: pz },
            pointing_global: pointing,
            angular_rate: rate,
            velocity: Vec3 { x: vx, y: vy, z: vz },
            acceleration: Vec3 { x: ax, y: ay, z: az },
        };
        (next, StepOutcome::Airborne)
    }
}

pub open spec fn min(a: int, b: int) -> int {
    if a <= b {
        a
    } else {
        b
    }
}

/// Thrust of the power-limited propeller, N: `power / speed`, capped at the
/// static thrust for the throttle setting, which is also the thrust at zero
/// airspeed.
pub open spec fn spec_thrust(a: Aircraft) -> int {
    let power = fmul(a.max_power as int, a.throttle_percent as int);
    let cap = fmul(STATIC_THRUST as int, a.throttle_percent as int);
    let speed = a.state.velocity.length();
    if speed == 0 {
        cap
    } else {
        min((power * scale()) / speed, cap)
    }
}

/// Angle of attack, radians: pitch minus the caller's climb angle of the
/// velocity.
pub open spec fn spec_alpha(a: Aircraft, climb: int) -> int {
    spec_deg_to_rad(a.state.pointing_global.altitude as int) - climb
}

/// `0.5 * rho * |v|^2 * area`, N per unit of force coefficient.
pub open spec fn spec_pressure_area(a: Aircraft) -> int {
    spec_dynamic_pressure_area(a.state.velocity, a.area as int)
}

/// `0.5 * rho * |v|^2 * area`, N per unit of force coefficient.
pub open spec fn spec_dynamic_pressure_area(v: Vec3, area: int) -> int {
    (RHO * v.norm_sq() * area) / (2 * scale() * scale() * scale())
}

/// `0.5 * rho * |v|^2 * area`, the force per unit of coefficient, N, for
/// the airspeed `v` over a surface of `area`.
pub fn dynamic_pressure_area(v: &Vec3, area: i64) -> (r: i64)
    requires
        v.bounded(VELOCITY_LIMIT as int),
        0 <= area <= AREA_LIMIT,
    ensures
        r == spec_dynamic_pressure_area(*v, area as int),
        0 <= r <= 20_000_000_000_000_000,
{
    proof {
        lemma_square_bound(v.x as int, VELOCITY_LIMIT as int);
        lemma_square_bound(v.y as int, VELOCITY_LIMIT as int);
        lemma_square_bound(v.z as int, VELOCITY_LIMIT as int);
    }
    let ns = v.x as i128 * v.x as i128 + v.y as i128 * v.y as i128 + v.z as i128 * v.z as i128;
    proof {
        assert(0 <= RHO * ns <= 4_000_000_000_000_000_000_000_000) by (nonlinear_arith)
            requires
                0 <= ns <= 3_000_000_000_000_000_000,
        ;
        assert(0 <= RHO * ns * area <= 40_000_000_000_000_000_000_000_000_000_000_000) by (
        nonlinear_arith)
            requires
                0 <= RHO * ns <= 4_000_000_000_000_000_000_000_000,
                0 <= area <= AREA_LIMIT,
        ;
        assert(scale() == 1_000_000);
        lemma_div_within(RHO * ns * area, 2 * scale() * scale() * scale(), 20_000_000_000_000_000);
        assert((RHO * ns * area) / (2 * scale() * scale() * scale()) >= 0) by (nonlinear_arith)
            requires
                RHO * ns * area >= 0,
        ;
    }
    let n = RHO as i128 * ns * area as i128;
    floor_div(n, 2 * SCALE as i128 * SCALE as i128 * SCALE as i128) as i64
}

/// Net aerodynamic force in body frame: thrust along x, lift along z, drag
/// against the angle of attack, whose sine and cosine are `at`.
pub open spec fn spec_body_force(a: Aircraft, climb: int, at: Trig) -> Vec3 {
    let alpha = spec_alpha(a, climb);
    let qa = spec_pressure_area(a);
    let lift = fmul(qa, spec_lift_coefficient(alpha));
    let drag = fmul(qa, spec_drag_coefficient(alpha));
    Vec3 {
        x: (spec_thrust(a) + fmul(-drag, at.cos as int)) as i64,
        y: 0,
        z: (lift + fmul(drag, at.sin as int)) as i64,
    }
}

/// One step of the aircraft: body force to world frame, then the integrator.
pub open spec fn spec_step(a: Aircraft, dt: int, attitude: AnglesTrig, climb: int, at: Trig) -> (
    State,
    StepOutcome,
) {
    spec_integrate(
        a.state,
        spec_transform(spec_body_force(a, climb, at), a.state.pointing_global, attitude),
        a.mass as int,
        dt,
    )
}

/// Lift coefficient for angle of attack `alpha` (radians), saturating at
/// `CL_MIN` and `CL_MAX`.
pub fn lift_coefficient(alpha: i64) -> (r: i64)
    requires
        within(alpha as int, LIMIT as int),
    ensures
        r == spec_lift_coefficient(alpha as int),
        CL_MIN <= r <= CL_MAX,
        spec_rad_to_deg(alpha as int) / 10 > CL_MAX ==> r == CL_MAX,
        spec_rad_to_deg(alpha as int) / 10 < CL_MIN ==> r == CL_MIN,
{
    lift_coefficient_deg(rad_to_deg(alpha))
}

/// Lift coefficient for angle of attack `alpha_deg` (degrees): a tenth of
/// the angle, saturating at `CL_MIN` and `CL_MAX`.
pub fn lift_coefficient_deg(alpha_deg: i64) -> (r: i64)
    ensures
        r == spec_lift_coefficient_deg(alpha_deg as int),
        CL_MIN <= r <= CL_MAX,
        alpha_deg / 10 > CL_MAX ==> r == CL_MAX,
        alpha_deg / 10 < CL_MIN ==> r == CL_MIN,
{
    let scaled = floor_div(alpha_deg as i128, 10);
    if scaled > CL_MAX as i128 {
        CL_MAX
    } else if scaled < CL_MIN as i128 {
        CL_MIN
    } else {
        scaled as i64
    }
}

/// Drag coefficient for angle of attack `alpha` (radians).
pub fn drag_coefficient(alpha: i64) -> (r: i64)
    requires
        within(alpha as int, LIMIT as int),
    ensures
        r == spec_drag_coefficient(alpha as int),
        r >= PARASITIC_DRAG,
{
    proof {
        lemma_square_bound(alpha as int, LIMIT as int);
        assert(scale() == 1_000_000);
        assert(ASPECT_RATIO * PI == 21_991_151);
        lemma_div_within(alpha * alpha, ASPECT_RATIO * PI, 50_000_000_000_000_000);
        assert(alpha * alpha / (ASPECT_RATIO * PI) >= 0) by (nonlinear_arith)
            requires
                alpha * alpha >= 0,
        ;
    }
    let a = alpha as i128;
    (floor_div(a * a, (ASPECT_RATIO * PI) as i128) + PARASITIC_DRAG as i128) as i64
}

proof fn lemma_drag_coefficient_bound(alpha: int)
    requires
        within(alpha, (RAD_LIMIT + CLIMB_LIMIT) as int),
    ensures
        PARASITIC_DRAG <= spec_drag_coefficient(alpha) <= 31_000_000,
{
    lemma_square_bound(alpha, 24_000_000);
    assert(ASPECT_RATIO * PI == 21_991_151);
    lemma_div_within(alpha * alpha, ASPECT_RATIO * PI, 30_000_000);
}

/// Throttle after applying each of a sequence of deltas stays in `[0, 1]`,
/// whatever the deltas and whatever the starting value.
pub proof fn lemma_throttle_stays_in_range(t: int, deltas: Seq<i64>)
    requires
        0 <= t <= scale(),
    ensures
        0 <= spec_throttle_all(t, deltas) <= scale(),
    decreases deltas.len(),
{
    if deltas.len() > 0 {
        let next = spec_throttle(t, deltas[0] as int);
        lemma_throttle_stays_in_range(next, deltas.drop_first());
    }
}

/// A step of zero length leaves position, velocity, orientation and
/// angular rate as they were (only the acceleration is recomputed), for an
/// aircraft above the ground, or on it and not sinking.
pub proof fn lemma_zero_step_keeps_state(a: Aircraft, attitude: AnglesTrig, climb: int, at: Trig)
    requires
        a.in_envelope(),
        a.state.position.z > 0 || (a.state.position.z == 0 && a.state.velocity.z >= 0),
    ensures
        ({
            let (s, o) = spec_step(a, 0, attitude, climb, at);
            &&& s.position == a.state.position
            &&& s.velocity == a.state.velocity
            &&& s.pointing_global == a.state.pointing_global
            &&& s.angular_rate == a.state.angular_rate
            &&& !(o is Crashed)
        }),
{
    let f = spec_transform(spec_body_force(a, climb, at), a.state.pointing_global, attitude);
    let st = a.state;
    let weight = fmul(a.mass as int, GRAVITY as int);
    assert(fmul((f.x * scale()) / (a.mass as int), 0) == 0);
    assert(fmul((f.y * scale()) / (a.mass as int), 0) == 0);
    assert(fmul(((f.z - weight) * scale()) / (a.mass as int), 0) == 0);
    assert(fmul(st.velocity.x as int, 0) == 0);
    assert(fmul(st.velocity.y as int, 0) == 0);
    assert(fmul(st.velocity.z as int, 0) == 0);
    assert(fmul(st.angular_rate.azimouth as int, 0) == 0);
    assert(fmul(st.angular_rate.altitude as int, 0) == 0);
    assert(fmul(st.angular_rate.roll as int, 0) == 0);
}

impl Aircraft {
    /// The bounds inside which every step's arithmetic fits: the pitch
    /// (which sets the angle of attack) within a thousand degrees, the other
    /// angles and all rates only within what `i64` addition needs.
    pub open spec fn in_envelope(&self) -> bool {
        &&& self.state.position.bounded(POSITION_LIMIT as int)
        &&& self.state.velocity.bounded(VELOCITY_LIMIT as int)
        &&& self.state.pointing_global.bounded(TURN_LIMIT as int)
        &&& within(self.state.pointing_global.altitude as int, ANGLE_LIMIT as int)
        &&& self.state.angular_rate.bounded(TURN_LIMIT as int)
        &&& SCALE <= self.mass <= LIMIT
        &&& 0 <= self.area <= AREA_LIMIT
        &&& 0 <= self.max_power
        &&& 0 <= self.throttle_percent <= SCALE
    }

    /// Whether the aircraft is inside the flight envelope.
    pub fn envelope_ok(&self) -> (r: bool)
        ensures
            r == self.in_envelope(),
    {
        let s = &self.state;
        vec3_within(&s.position, POSITION_LIMIT) && vec3_within(&s.velocity, VELOCITY_LIMIT)
            && angles_within(&s.pointing_global, TURN_LIMIT) && -ANGLE_LIMIT
            <= s.pointing_global.altitude && s.pointing_global.altitude <= ANGLE_LIMIT
            && angles_within(&s.angular_rate, TURN_LIMIT) && SCALE <= self.mass && self.mass
            <= LIMIT && 0 <= self.area && self.area <= AREA_LIMIT && 0 <= self.max_power && 0
            <= self.throttle_percent && self.throttle_percent <= SCALE
    }

    /// On the runway, engine idle (a light aircraft of 1156 kg, 120 kW,
    /// 16.17 m^2 of wing).
    pub fn new() -> (r: Aircraft)
        ensures
            r.state == State::spec_runway(),
            r.throttle_percent == 0,
            r.mass == 1_156_000_000,
            r.max_power == 120_000_000_000,
            r.area == 16_170_000,
            r.in_envelope(),
    {
        Aircraft {
            state: State::runway(),
            throttle_percent: 0,
            mass: 1_156_000_000,
            max_power: 120_000_000_000,
            area: 16_170_000,
        }
    }

    /// Cruising at 100 m, throttle at 0.7 (1000 kg, 120 kW, 16.17 m^2).
    pub fn flying() -> (r: Aircraft)
        ensures
            r.state == State::spec_flying(),
            r.throttle_percent == 700_000,
            r.mass == 1_000_000_000,
            r.max_power == 120_000_000_000,
            r.area == 16_170_000,
            r.in_envelope(),
    {
        Aircraft {
            state: State::flying(),
            throttle_percent: 700_000,
            mass: 1_000_000_000,
            max_power: 120_000_000_000,
            area: 16_170_000,
        }
    }

    /// Cruising at 1000 m, throttle at 0.7 (1000 kg, 120 kW, 16.17 m^2).
    pub fn flying_high() -> (r: Aircraft)
        ensures
            r.state == State::spec_flying_high(),
            r.throttle_percent == 700_000,
            r.mass == 1_000_000_000,
            r.max_power == 120_000_000_000,
            r.area == 16_170_000,
            r.in_envelope(),
    {
        Aircraft {
            state: State::flying_high(),
            throttle_percent: 700_000,
            mass: 1_000_000_000,
            max_power: 120_000_000_000,
            area: 16_170_000,
        }
    }

    /// Thrust, N: `max_power * throttle / speed`, capped at
    /// `STATIC_THRUST * throttle` (the thrust at zero airspeed).
    pub fn calculate_thrust(&self) -> (r: i64)
        requires
            self.in_envelope(),
        ensures
            r == spec_thrust(*self),
            0 <= r <= STATIC_THRUST,
    {
        proof {
            assert(scale() == 1_000_000);
            lemma_fmul_unit(
                self.max_power as int,
                self.throttle_percent as int,
                i64::MAX as int,
            );
            assert(fmul(self.max_power as int, self.throttle_percent as int) >= 0) by (
            nonlinear_arith)
                requires
                    self.max_power >= 0,
                    self.throttle_percent >= 0,
            ;
        }
        proof {
            lemma_fmul_unit(STATIC_THRUST as int, self.throttle_percent as int, STATIC_THRUST as int);
            assert(fmul(STATIC_THRUST as int, self.throttle_percent as int) >= 0) by (
            nonlinear_arith)
                requires
                    self.throttle_percent >= 0,
            ;
        }
        let power = mul_fixed(self.max_power, self.throttle_percent);
        let cap = mul_fixed(STATIC_THRUST, self.throttle_percent);
        let speed = self.state.velocity.magnitude();
        if speed == 0 {
            return cap;
        }
        let q = floor_div(power as i128 * SCALE as i128, speed as i128);
        proof {
            assert(q >= 0) by (nonlinear_arith)
                requires
                    q == (power * scale()) / (speed as int),
                    power >= 0,
                    speed > 0,
            ;
        }
        if q > cap as i128 {
            cap
        } else {
            q as i64
        }
    }

    /// Adds `amount` to the throttle, held to `[0, 1]`.
    pub fn throttle_by(&mut self, amount: i64)
        ensures
            final(self).throttle_percent == spec_throttle(
                old(self).throttle_percent as int,
                amount as int,
            ),
            0 <= final(self).throttle_percent <= SCALE,
            final(self).state == old(self).state,
            final(self).mass == old(self).mass,
            final(self).max_power == old(self).max_power,
            final(self).area == old(self).area,
    {
        let t = self.throttle_percent as i128 + amount as i128;
        self.throttle_percent = if t > SCALE as i128 {
            SCALE
        } else if t < 0 {
            0
        } else {
            t as i64
        };
    }

    /// Pitch stick input, degrees per second: with the aircraft rolled by an
    /// angle whose sine and cosine are `roll`, `amount` goes to the pitch rate
    /// in proportion to the cosine and to the azimuth rate in proportion to
    /// the sine.
    pub fn pitch_by(&mut self, amount: i64, roll: &Trig)
        requires
            within(amount as int, LIMIT as int),
            roll.wf(),
            within(
                old(self).state.angular_rate.altitude + fmul(amount as int, roll.cos as int),
                i64::MAX as int,
            ),
            within(
                old(self).state.angular_rate.azimouth + fmul(amount as int, roll.sin as int),
                i64::MAX as int,
            ),
        ensures
            final(self).state.angular_rate.altitude == old(self).state.angular_rate.altitude
                + fmul(amount as int, roll.cos as int),
            final(self).state.angular_rate.azimouth == old(self).state.angular_rate.azimouth
                + fmul(amount as int, roll.sin as int),
            final(self).state.angular_rate.roll == old(self).state.angular_rate.roll,
            *final(self) == (Aircraft { state: final(self).state, ..*old(self) }),
            final(self).state == (State { angular_rate: final(self).state.angular_rate, ..old(
                self,
            ).state }),
    {
        proof {
            lemma_fmul_unit(amount as int, roll.cos as int, LIMIT as int);
            lemma_fmul_unit(amount as int, roll.sin as int, LIMIT as int);
        }
        let delta_pitch = mul_fixed(amount, roll.cos);
        let delta_yaw = mul_fixed(amount, roll.sin);
        self.state.angular_rate.altitude = self.state.angular_rate.altitude + delta_pitch;
        self.state.angular_rate.azimouth = self.state.angular_rate.azimouth + delta_yaw;
    }

    /// Yaw stick input, degrees per second: with the aircraft rolled by an
    /// angle whose sine and cosine are `roll`, `amount` goes to the azimuth
    /// rate in proportion to the cosine and to the pitch rate in proportion to
    /// the sine.
    pub fn yaw_by(&mut self, amount: i64, roll: &Trig)
        requires
            within(amount as int, LIMIT as int),
            roll.wf(),
            within(
                old(self).state.angular_rate.altitude + fmul(amount as int, roll.sin as int),
                i64::MAX as int,
            ),
            within(
                old(self).state.angular_rate.azimouth + fmul(amount as int, roll.cos as int),
                i64::MAX as int,
            ),
        ensures
            final(self).state.angular_rate.altitude == old(self).state.angular_rate.altitude
                + fmul(amount as int, roll.sin as int),
            final(self).state.angular_rate.azimouth == old(self).state.angular_rate.azimouth
                + fmul(amount as int, roll.cos as int),
            final(self).state.angular_rate.roll == old(self).state.angular_rate.roll,
            *final(self) == (Aircraft { state: final(self).state, ..*old(self) }),
            final(self).state == (State { angular_rate: final(self).state.angular_rate, ..old(
                self,
            ).state }),
    {
        proof {
            lemma_fmul_unit(amount as int, roll.cos as int, LIMIT as int);
            lemma_fmul_unit(amount as int, roll.sin as int, LIMIT as int);
        }
        let delta_pitch = mul_fixed(amount, roll.sin);
        let delta_yaw = mul_fixed(amount, roll.cos);
        self.state.angular_rate.altitude = self.state.angular_rate.altitude + delta_pitch;
        self.state.angular_rate.azimouth = self.state.angular_rate.azimouth + delta_yaw;
    }

    /// Angle of attack, radians: the pitch in radians minus `climb`, the
    /// signed climb angle of the velocity (radians, from the caller).
    pub fn get_alpha(&self, climb: i64) -> (r: i64)
        requires
            within(self.state.pointing_global.altitude as int, ANGLE_LIMIT as int),
            within(climb as int, CLIMB_LIMIT as int),
        ensures
            r == spec_alpha(*self, climb as int),
            within(r as int, (RAD_LIMIT + CLIMB_LIMIT) as int),
    {
        proof {
            lemma_deg_to_rad_within(self.state.pointing_global.altitude as int);
        }
        deg_to_rad(self.state.pointing_global.altitude) - climb
    }

    /// Sideslip angle: this model has none.
    pub fn get_sideslip(&self) -> (r: i64)
        ensures
            r == 0,
    {
        0
    }

    /// `0.5 * rho * |v|^2 * area`, the force per unit of coefficient, N.
    pub fn pressure_area(&self) -> (r: i64)
        requires
            self.state.velocity.bounded(VELOCITY_LIMIT as int),
            0 <= self.area <= AREA_LIMIT,
        ensures
            r == spec_pressure_area(*self),
            0 <= r <= 20_000_000_000_000_000,
    {
        dynamic_pressure_area(&self.state.velocity, self.area)
    }

    /// Net aerodynamic force in body frame (thrust, lift and drag), for the
    /// caller's climb angle `climb` of the velocity and the sine and cosine
    /// `alpha_trig` of the resulting angle of attack.
    pub fn free_body_diagram(&self, climb: i64, alpha_trig: &Trig) -> (r: Vec3)
        requires
            self.in_envelope(),
            within(climb as int, CLIMB_LIMIT as int),
            alpha_trig.wf(),
        ensures
            r == spec_body_force(*self, climb as int, *alpha_trig),
            r.bounded(FORCE_LIMIT as int),
    {
        let thrust = self.calculate_thrust();
        let alpha = self.get_alpha(climb);
        let cl = lift_coefficient(alpha);
        let cd = drag_coefficient(alpha);
        let qa = self.pressure_area();
        proof {
            assert(scale() == 1_000_000);
            lemma_drag_coefficient_bound(alpha as int);
            lemma_fmul_bound(qa as int, cl as int, 20_000_000_000_000_000, 1_200_000);
            lemma_fmul_bound(qa as int, cd as int, 20_000_000_000_000_000, 31_000_000);
        }
        let lift = mul_fixed(qa, cl);
        let drag = mul_fixed(qa, cd);
        proof {
            lemma_fmul_unit(-drag, alpha_trig.cos as int, 620_000_000_000_000_001);
            lemma_fmul_unit(drag as int, alpha_trig.sin as int, 620_000_000_000_000_001);
        }
        let drag_x = mul_fixed(-drag, alpha_trig.cos);
        let drag_z = mul_fixed(drag, alpha_trig.sin);
        Vec3 { x: thrust + drag_x, y: 0, z: lift + drag_z }
    }

    /// Advances the aircraft by `dt` seconds: the body force (for the
    /// caller's climb angle `climb` of the velocity and the sine and cosine
    /// `alpha_trig` of the angle of attack) goes to world frame through the
    /// sines and cosines `attitude` of the orientation, then the integrator
    /// adds weight, integrates and applies the ground constraint. On a crash
    /// the state is left as it was.
    pub fn do_step(&mut self, dt: i64, attitude: &AnglesTrig, climb: i64, alpha_trig: &Trig) -> (r:
        StepOutcome)
        requires
            old(self).in_envelope(),
            0 <= dt <= SCALE,
            attitude.wf(),
            within(climb as int, CLIMB_LIMIT as int),
            alpha_trig.wf(),
        ensures
            (final(self).state, r) == spec_step(
                *old(self),
                dt as int,
                *attitude,
                climb as int,
                *alpha_trig,
            ),
            *final(self) == (Aircraft { state: final(self).state, ..*old(self) }),
            !(r is Crashed) ==> final(self).state.position.z >= 0,
            old(self).state.position.z >= 0 ==> final(self).state.position.z >= 0,
    {
        let body = self.free_body_diagram(climb, alpha_trig);
        let world = body.transform_coordinates(&self.state.pointing_global, attitude);
        let (next, outcome) = integrate(&self.state, &world, self.mass, dt);
        self.state = next;
        outcome
    }
}

fn vec3_within(v: &Vec3, bound: i64) -> (r: bool)
    requires
        bound >= 0,
    ensures
        r == v.bounded(bound as int),
{
    -bound <= v.x && v.x <= bound && -bound <= v.y && v.y <= bound && -bound <= v.z && v.z <= bound
}

fn angles_within(a: &Angles, bound: i64) -> (r: bool)
    requires
        bound >= 0,
    ensures
        r == a.bounded(bound as int),
{
    -bound <= a.azimouth && a.azimouth <= bound && -bound <= a.altitude && a.altitude <= bound
        && -bound <= a.roll && a.roll <= bound
}

} // verus!
