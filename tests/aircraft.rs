use flightsim::aircraft::{
    lift_coefficient, Aircraft, StepOutcome, CL_MAX, CL_MIN, STATIC_THRUST,
};
use flightsim::common_math::{deg_to_rad, Angles, AnglesTrig, Trig, Vec3, SCALE};
use flightsim::state::State;

fn trig_rad(r: f64) -> Trig {
    Trig::new((r.sin() * 1e6).round() as i64, (r.cos() * 1e6).round() as i64)
}

fn attitude(a: &Angles) -> AnglesTrig {
    let t = |d: i64| trig_rad((d as f64 / 1e6).to_radians());
    AnglesTrig { azimouth: t(a.azimouth), altitude: t(a.altitude), roll: t(a.roll) }
}

fn climb_of(v: &Vec3) -> i64 {
    let (x, y, z) = (v.x as f64, v.y as f64, v.z as f64);
    (z.atan2((x * x + y * y).sqrt()) * 1e6).round() as i64
}

fn step(plane: &mut Aircraft, dt: i64) -> StepOutcome {
    let climb = climb_of(&plane.state.velocity);
    let alpha = plane.get_alpha(climb);
    let at = trig_rad(alpha as f64 / 1e6);
    let att = attitude(&plane.state.pointing_global);
    plane.do_step(dt, &att, climb, &at)
}

#[test]
fn test_alpha() {
    let state = State {
        pointing_global: Angles::new(0, 0, 0),
        position: Vec3::new(0, 0, 0),
        angular_rate: Angles::new(0, 0, 0),
        velocity: Vec3::new(10 * SCALE, 0, SCALE),
        acceleration: Vec3::new(0, 0, 0),
    };
    let mut plane = Aircraft { state, throttle_percent: 0, mass: 10 * SCALE, max_power: SCALE, area: SCALE };
    let target = -(0.1_f64.atan()) * 1e6;
    let answer = plane.get_alpha(climb_of(&plane.state.velocity));
    assert!((target - answer as f64).abs() < 1.0);

    plane.state.velocity = Vec3::new(0, 10 * SCALE, SCALE);
    let target = -(0.1_f64.atan()) * 1e6;
    let answer = plane.get_alpha(climb_of(&plane.state.velocity));
    assert!((target - answer as f64).abs() < 1.0);
}

#[test]
fn lift_coefficient_saturates() {
    assert_eq!(lift_coefficient(SCALE), CL_MAX);
    assert_eq!(lift_coefficient(3 * SCALE), CL_MAX);
    assert_eq!(lift_coefficient(-SCALE), CL_MIN);
    assert_eq!(lift_coefficient(-3 * SCALE), CL_MIN);
    assert_eq!(lift_coefficient(100_000), 572_957);
    assert_eq!(lift_coefficient(0), 0);
}

#[test]
fn throttle_stays_between_zero_and_one() {
    let mut plane = Aircraft::flying();
    plane.throttle_by(500_000);
    assert_eq!(plane.throttle_percent, SCALE);
    plane.throttle_by(-2 * SCALE);
    assert_eq!(plane.throttle_percent, 0);
    plane.throttle_by(250_000);
    assert_eq!(plane.throttle_percent, 250_000);
    for d in [i64::MAX, i64::MIN, 3, -7, 999_999, -1] {
        plane.throttle_by(d);
        assert!(0 <= plane.throttle_percent && plane.throttle_percent <= SCALE);
    }
}

#[test]
fn thrust_is_capped_at_zero_airspeed() {
    let mut plane = Aircraft::new();
    plane.throttle_by(SCALE);
    assert_eq!(plane.calculate_thrust(), STATIC_THRUST);
    let cruise = Aircraft::flying();
    assert_eq!(cruise.calculate_thrust(), 2_100_000_000);
    assert_eq!(Aircraft::new().calculate_thrust(), 0);
}

#[test]
fn pitch_and_yaw_split_by_roll() {
    let mut plane = Aircraft::flying();
    let level = Trig::new(0, SCALE);
    plane.pitch_by(2 * SCALE, &level);
    assert_eq!(plane.state.angular_rate, Angles::new(0, 2 * SCALE, 0));
    assert_eq!(plane.state.pointing_global, Angles::new(0, 6 * SCALE, 0));
    let rolled = Trig::new(SCALE, 0);
    plane.pitch_by(SCALE, &rolled);
    assert_eq!(plane.state.angular_rate, Angles::new(SCALE, 2 * SCALE, 0));
    plane.yaw_by(-SCALE, &level);
    assert_eq!(plane.state.angular_rate.azimouth, 0);
    plane.yaw_by(SCALE, &rolled);
    assert_eq!(plane.state.angular_rate.altitude, 3 * SCALE);
    let before = plane.state.pointing_global;
    assert_eq!(step(&mut plane, 500_000), StepOutcome::Airborne);
    assert_eq!(plane.state.pointing_global.altitude, before.altitude + 1_500_000);
}

#[test]
fn long_turns_stay_in_envelope() {
    let mut plane = Aircraft::flying_high();
    plane.state.pointing_global.azimouth = 360_000 * 1000 * SCALE;
    plane.state.pointing_global.roll = -720_000 * 1000 * SCALE;
    plane.state.angular_rate = Angles::new(50 * SCALE, 0, 50 * SCALE);
    assert!(plane.envelope_ok());
    assert_eq!(step(&mut plane, 20_000), StepOutcome::Airborne);
    assert_eq!(plane.state.pointing_global.azimouth, 360_000 * 1000 * SCALE + SCALE);
}

#[test]
fn hard_landing_is_a_crash() {
    let mut plane = Aircraft::new();
    plane.state.position.z = 100_000;
    plane.state.velocity.z = -5 * SCALE;
    let before = plane.state;
    let outcome = step(&mut plane, 100_000);
    assert_eq!(outcome, StepOutcome::Crashed { vertical_speed: -5 * SCALE });
    assert!(plane.state.position.z >= 0);
    assert_eq!(plane.state, before);
}

#[test]
fn soft_touchdown_clamps_to_ground() {
    let mut plane = Aircraft::new();
    plane.state.position.z = 1_000;
    plane.state.velocity.z = -500_000;
    let outcome = step(&mut plane, 100_000);
    assert_eq!(outcome, StepOutcome::Grounded { vertical_speed: -500_000 });
    assert_eq!(plane.state.position.z, 1_000);
    assert_eq!(plane.state.velocity.z, 0);
    assert_eq!(plane.state.acceleration.z, 0);
}

#[test]
fn resting_on_runway_stays_grounded() {
    let mut plane = Aircraft::new();
    let outcome = step(&mut plane, 20_000);
    assert_eq!(outcome, StepOutcome::Grounded { vertical_speed: 0 });
    assert_eq!(plane.state.position.z, 0);
    assert!(plane.state.velocity.x == 0);
}

#[test]
fn cruise_step_is_airborne() {
    let mut plane = Aircraft::flying();
    let outcome = step(&mut plane, 20_000);
    assert_eq!(outcome, StepOutcome::Airborne);
    assert!(plane.state.position.x > 0);
    assert!(plane.state.position.z > 90 * SCALE);
}

#[test]
fn zero_step_keeps_state() {
    let mut plane = Aircraft::flying_high();
    plane.state.angular_rate = Angles::new(SCALE, -SCALE, 2 * SCALE);
    let before = plane.state;
    let outcome = step(&mut plane, 0);
    assert_eq!(outcome, StepOutcome::Airborne);
    assert_eq!(plane.state.position, before.position);
    assert_eq!(plane.state.velocity, before.velocity);
    assert_eq!(plane.state.pointing_global, before.pointing_global);
    assert_eq!(plane.state.angular_rate, before.angular_rate);
}

#[test]
fn trimmed_level_flight_has_no_acceleration() {
    // Solve lift + drag sin(a) = weight / cos(p) and thrust = drag cos(a)
    // at pitch p = angle of attack a = 4 degrees, in level flight.
    let pitch_deg = 4.0_f64;
    let mass = 1000.0;
    let area = 16.17;
    let max_power = 120e3;
    let alpha = deg_to_rad(4 * SCALE) as f64 / 1e6;
    let cl = 0.4;
    let cd = alpha * alpha / (std::f64::consts::PI * 7.0) + 0.05;
    let p = pitch_deg.to_radians();
    let qa = mass * 9.81 / ((cl + cd * alpha.sin()) * p.cos());
    let speed = (qa / (0.5 * 1.225 * area)).sqrt();
    let thrust = qa * cd * alpha.cos();
    let throttle = thrust * speed / max_power;
    let mut state = State::new();
    state.position = Vec3::new(0, 0, 500 * SCALE);
    state.velocity = Vec3::new((speed * 1e6).round() as i64, 0, 0);
    state.pointing_global = Angles::new(0, 4 * SCALE, 0);
    let mut plane = Aircraft {
        state,
        throttle_percent: (throttle * 1e6).round() as i64,
        mass: (mass * 1e6) as i64,
        max_power: (max_power * 1e6) as i64,
        area: (area * 1e6) as i64,
    };
    for _ in 0..20 {
        assert_eq!(step(&mut plane, 20_000), StepOutcome::Airborne);
        let a = plane.state.acceleration;
        assert!(a.x.abs() < 1_000 && a.y.abs() < 1_000 && a.z.abs() < 1_000, "{:?}", a);
    }
}

#[test]
fn envelope_check_matches_presets() {
    assert!(Aircraft::new().envelope_ok());
    assert!(Aircraft::flying().envelope_ok());
    let mut plane = Aircraft::flying();
    plane.mass = 0;
    assert!(!plane.envelope_ok());
    assert_eq!(plane.get_sideslip(), 0);
}
