use flightsim::common_math::{Angles, AnglesTrig, Trig, Vec3, SCALE};
use flightsim::wing::Wing;

fn trig_deg(deg: f64) -> Trig {
    let r = deg.to_radians();
    Trig::new((r.sin() * 1e6).round() as i64, (r.cos() * 1e6).round() as i64)
}

fn mount_trig(w: &Wing) -> AnglesTrig {
    let d = |v: i64| trig_deg(v as f64 / 1e6);
    AnglesTrig { azimouth: d(w.pointing.azimouth), altitude: d(w.pointing.altitude), roll: d(w.pointing.roll) }
}

fn climb_of(v: &Vec3) -> i64 {
    let (x, y, z) = (v.x as f64, v.y as f64, v.z as f64);
    (z.atan2((x * x + y * y).sqrt()) * 1e6).round() as i64
}

fn forces(w: &Wing, v: &Vec3) -> Vec3 {
    w.aero_forces(v, climb_of(v), &mount_trig(w))
}

#[test]
fn alpha_of_6() {
    let test_wing = Wing::new(Vec3::new(SCALE, 0, 0), SCALE, 7 * SCALE, 10_000, Angles::new(0, 0, 0));
    let six = 6.0_f64.to_radians();
    let test_velocity = Vec3::new((10e6 * six.cos()).round() as i64, 0, (10e6 * six.sin()).round() as i64);
    let test_forces = forces(&test_wing, &test_velocity);
    let lift_result = 0.5 * 1.225 * 100.0 * 1.0 * 0.6;
    assert!((test_forces.z as f64 / 1e6 - lift_result).abs() < 1e-3);

    let test_velocity_down = Vec3 { z: -test_velocity.z, ..test_velocity };
    let test_forces_down = forces(&test_wing, &test_velocity_down);
    let downforce_result = 0.5 * 1.225 * 100.0 * 1.0 * -0.6;
    assert!((test_forces_down.z as f64 / 1e6 - downforce_result).abs() < 1e-3);

    let test_setting = Wing { pointing: Angles::new(0, 3 * SCALE, 0), ..test_wing };
    let test_forces2 = forces(&test_setting, &test_velocity);
    let lift_result2 = 0.5 * 1.225 * 100.0 * 0.9;
    let cd = 0.01 + (0.9 * 0.9) / (std::f64::consts::PI * 7.0);
    let drag_result2 = 0.5 * 1.225 * 100.0 * cd;
    let three = 3.0_f64.to_radians();
    let z_force = lift_result2 * three.cos() - drag_result2 * three.sin();
    assert!((test_forces2.z as f64 / 1e6 - z_force).abs() < 1e-3);

    let test_setting_forces2 = forces(&test_setting, &test_velocity_down);
    let downforce_result_setting = 0.5 * 1.225 * 100.0 * 1.0 * -0.3;
    let cd2 = 0.01 + (-0.3 * -0.3) / (std::f64::consts::PI * 7.0);
    let drag_result2 = 0.5 * 1.225 * 100.0 * cd2;
    let z_force2 = downforce_result_setting * three.cos() - drag_result2 * three.sin();
    assert!((test_setting_forces2.z as f64 / 1e6 - z_force2).abs() < 1e-3);
}

#[test]
fn wing_lift_saturates_at_high_angle() {
    let wing = Wing::new(Vec3::zero(), SCALE, 7 * SCALE, 10_000, Angles::new(0, 0, 0));
    let steep = 40.0_f64.to_radians();
    let v = Vec3::new((10e6 * steep.cos()).round() as i64, 0, (10e6 * steep.sin()).round() as i64);
    let f = forces(&wing, &v);
    let lift = 0.5 * 1.225 * 100.0 * 1.2;
    assert!((f.z as f64 / 1e6 - lift).abs() < 1e-3);
    assert!(f.x < 0);
}
