use flightsim::camera::Camera;
use flightsim::common_math::{Angles, Vec3, SCALE};
use flightsim::displays::{Dial, Gauge};
use flightsim::state::State;

#[test]
fn state_presets() {
    let s = State::flying();
    assert_eq!(s.position, Vec3::new(0, 0, 100 * SCALE));
    assert_eq!(s.velocity, Vec3::new(40 * SCALE, 0, 0));
    assert_eq!(s.pointing_global, Angles::new(0, 6 * SCALE, 0));
    assert_eq!(State::runway(), State::new());
    assert_eq!(State::flying_high().position.z, 1000 * SCALE);
}

#[test]
fn state_log_is_one_json_object() {
    let mut s = State::new();
    s.velocity = Vec3::new(40 * SCALE, 0, -1_250_000);
    let expected = "{\"position\": {\"x\": 0, \"y\": 0, \"z\": 0}, \
\"pointing_global\": {\"alt\": 0, \"az\": 0, \"roll\": 0}, \
\"angular_rate\": {\"alt\": 0, \"az\": 0, \"roll\": 0}, \
\"velocity\": {\"x\": 40, \"y\": 0, \"z\": -1.25}, \
\"acceleration\": {\"x\": 0, \"y\": 0, \"z\": 0}}";
    assert_eq!(s.log(), expected);
}

#[test]
fn camera_starts_level_at_origin() {
    let c = Camera::new();
    assert_eq!(c.position, Vec3::zero());
    assert_eq!(c.euler, Angles::new(0, 0, 0));
}

#[test]
fn instruments_interpolate_their_range() {
    let d = Dial::test();
    assert_eq!(d.name, "test");
    assert_eq!(d.get_at_percent(250_000), 1_250_000);
    let v = Dial::new("vel".to_string(), "m/s".to_string(), 80 * SCALE, 0);
    assert_eq!(v.get_at_percent(250_000), 20 * SCALE);
    let g = Gauge::test();
    assert_eq!(g.unit, "na");
    assert_eq!(g.get_at_percent(SCALE), SCALE);
    let t = Gauge::new("throttle".to_string(), "%".to_string(), SCALE, 0);
    assert_eq!(t.get_at_percent(500_000), 500_000);
}
