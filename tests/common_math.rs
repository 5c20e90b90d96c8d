use flightsim::common_math::{
    deg_to_rad, rad_to_deg, Angles, AnglesTrig, Trig, Vec3, HALF_PI, PI, SCALE,
};

fn trig_deg(deg: f64) -> Trig {
    let r = deg.to_radians();
    Trig::new((r.sin() * 1e6).round() as i64, (r.cos() * 1e6).round() as i64)
}

fn angles_trig(az: f64, alt: f64, roll: f64) -> AnglesTrig {
    AnglesTrig { azimouth: trig_deg(az), altitude: trig_deg(alt), roll: trig_deg(roll) }
}

fn angles_deg(az: f64, alt: f64, roll: f64) -> Angles {
    Angles::new((az * 1e6) as i64, (alt * 1e6) as i64, (roll * 1e6) as i64)
}

fn unit(x: f64, y: f64, z: f64) -> Vec3 {
    Vec3::new((x * 1e6).round() as i64, (y * 1e6).round() as i64, (z * 1e6).round() as i64)
}

fn arccos(c: i64) -> i64 {
    ((c as f64 / 1e6).acos() * 1e6).round() as i64
}

fn close(a: &Vec3, b: &Vec3, tol: i64) -> bool {
    (a.x - b.x).abs() <= tol && (a.y - b.y).abs() <= tol && (a.z - b.z).abs() <= tol
}

#[test]
fn deg_to_rad_correct() {
    assert_eq!(deg_to_rad(180 * SCALE), PI);
}

#[test]
fn rad_to_deg_of_pi_is_half_turn() {
    assert_eq!(rad_to_deg(PI), 180 * SCALE);
    assert_eq!(deg_to_rad(-90 * SCALE), -1_570_797);
}

#[test]
fn magnitude_correct() {
    let thing = Vec3::new(2 * SCALE, 3 * SCALE, 4 * SCALE);
    assert_eq!(thing.magnitude(), (29_f64.sqrt() * 1e6).floor() as i64);
}

#[test]
fn unit_vector_correct() {
    let v = Vec3::new(3 * SCALE, 0, -4 * SCALE);
    assert_eq!(v.unit_vector(), Some(Vec3::new(600_000, 0, -800_000)));
    assert_eq!(Vec3::zero().unit_vector(), None);
    let w = Vec3::new(1, 1, 0);
    let u = w.unit_vector().unwrap();
    assert_eq!(u, Vec3::new(707_107, 707_107, 0));
    assert_eq!(Vec3::new(-1, 0, 0).unit_vector(), Some(Vec3::new(-SCALE, 0, 0)));
    let big = Vec3::new(SCALE, 2 * SCALE, -3 * SCALE).unit_vector().unwrap();
    let len = ((big.x as f64).powi(2) + (big.y as f64).powi(2) + (big.z as f64).powi(2)).sqrt();
    assert!((len - 1e6).abs() < 4.0);
    assert!(big.x > 0 && big.y > 0 && big.z < 0);
}

fn check_transform(v: Vec3, az: f64, alt: f64, roll: f64, answer: Vec3) {
    let check = v.transform_coordinates(&angles_deg(az, alt, roll), &angles_trig(az, alt, roll));
    assert!(close(&answer, &check, 2), "{:?} != {:?}", check, answer);
    assert!((answer.magnitude() - SCALE).abs() <= 2);
}

#[test]
fn coordinate_transform_correct() {
    // azimuth 90 degrees right, thrust forwards
    check_transform(unit(1.0, 0.0, 0.0), 90.0, 0.0, 0.0, unit(0.0, 1.0, 0.0));
    // azimuth 90 degrees left, thrust forwards
    check_transform(unit(1.0, 0.0, 0.0), -90.0, 0.0, 0.0, unit(0.0, -1.0, 0.0));
    // azimuth 90 degrees right, thrust pointing right
    check_transform(unit(0.0, 1.0, 0.0), 90.0, 0.0, 0.0, unit(-1.0, 0.0, 0.0));
    // azimuth 90 degrees left, thrust pointing right
    check_transform(unit(0.0, 1.0, 0.0), -90.0, 0.0, 0.0, unit(1.0, 0.0, 0.0));
    // altitude 45 degrees up and azimuth 45 degrees right, thrust forwards
    let h = 1.0 / 2.0_f64.sqrt();
    check_transform(unit(1.0, 0.0, 0.0), 45.0, 45.0, 0.0, unit(h * h, h * h, h));
    // altitude 10 degrees up and roll 10 degrees left
    let ten = 10.0_f64.to_radians();
    check_transform(unit(1.0, 0.0, 0.0), 0.0, 10.0, 10.0, unit(ten.cos(), 0.0, ten.sin()));
    // altitude 10 degrees down
    check_transform(unit(1.0, 0.0, 0.0), 0.0, -10.0, 0.0, unit(ten.cos(), 0.0, -ten.sin()));
}

#[test]
fn transform_azimuth_quarter_turns_are_exact() {
    let fwd = Vec3::new(SCALE, 0, 0);
    let right = fwd.transform_coordinates(&angles_deg(90.0, 0.0, 0.0), &angles_trig(90.0, 0.0, 0.0));
    assert_eq!(right, Vec3::new(0, SCALE, 0));
    let left = fwd.transform_coordinates(&angles_deg(-90.0, 0.0, 0.0), &angles_trig(-90.0, 0.0, 0.0));
    assert_eq!(left, Vec3::new(0, -SCALE, 0));
}

#[test]
fn transform_keeps_forward_length_without_roll() {
    let v = Vec3::new(7 * SCALE, 0, 0);
    let p = angles_deg(30.0, 20.0, 0.0);
    let r = v.transform_coordinates(&p, &angles_trig(30.0, 20.0, 0.0));
    assert!((r.magnitude() - v.magnitude()).abs() <= 20);
}

#[test]
fn transform_scales_sideways_vector_by_roll_in_radians() {
    let v = Vec3::new(0, SCALE, 0);
    let r = v.transform_coordinates(&angles_deg(90.0, 0.0, 0.0), &angles_trig(90.0, 0.0, 0.0));
    assert_eq!(r, Vec3::new(-SCALE, 0, 0));
    let level = Vec3::new(0, SCALE, 0).transform_coordinates(&angles_deg(0.0, 0.0, 0.0), &angles_trig(0.0, 0.0, 0.0));
    assert_eq!(level, Vec3::zero());
}

#[test]
fn test_angle_with() {
    let vec1_1 = unit(0.0, 1.0, 0.0);
    let vec1_2 = unit(0.0, -1.0, 0.0);
    let a1 = vec1_1.angle_with(&vec1_2, arccos);
    println!("{}", a1 as f64 / PI as f64);
    assert_eq!(a1, PI);
    let vec2_1 = unit(1.0, 0.0, 0.0);
    let a2 = vec1_1.angle_with(&vec2_1, arccos);
    println!("{}", a2 as f64 / PI as f64);
    assert_eq!(a2, HALF_PI);
    let vec2_2 = unit(1.0, 0.0, 1.0).unit_vector().unwrap();
    let a3 = vec2_1.angle_with(&vec2_2, arccos);
    println!("{}, {:?}", a3 as f64 / PI as f64, vec2_2);
    assert!((a3 - PI / 4).abs() <= 2);
}

#[test]
fn angle_with_self_opposite_and_zero() {
    let v = Vec3::new(3 * SCALE, -2 * SCALE, 5 * SCALE);
    let minus_v = Vec3::new(-3 * SCALE, 2 * SCALE, -5 * SCALE);
    assert_eq!(v.cos_angle_with(&v), Some(SCALE));
    assert_eq!(v.angle_with(&v, arccos), 0);
    assert_eq!(v.cos_angle_with(&minus_v), Some(-SCALE));
    assert_eq!(v.angle_with(&minus_v, arccos), PI);
    assert_eq!(v.cos_angle_with(&Vec3::zero()), None);
    assert_eq!(v.angle_with(&Vec3::zero(), arccos), HALF_PI);
    assert_eq!(Vec3::zero().angle_with(&v, arccos), HALF_PI);
}

#[test]
fn test_angle_to_vec3() {
    assert_eq!(angles_deg(0.0, 0.0, 0.0).as_vec3(&angles_trig(0.0, 0.0, 0.0)), Vec3::new(SCALE, 0, 0));
    assert_eq!(angles_deg(0.0, 90.0, 0.0).as_vec3(&angles_trig(0.0, 90.0, 0.0)), Vec3::new(0, 0, SCALE));
    assert_eq!(angles_deg(90.0, 0.0, 0.0).as_vec3(&angles_trig(90.0, 0.0, 0.0)), Vec3::new(0, SCALE, 0));
}

#[test]
fn vector_arithmetic_is_fixed_point() {
    let a = Vec3::new(1_500_000, -2_000_000, 3);
    let b = Vec3::new(500_000, 2_000_000, -3);
    assert_eq!(a.add(&b), Vec3::new(2_000_000, 0, 0));
    assert_eq!(a.mul(2_000_000), Vec3::new(3_000_000, -4_000_000, 6));
    assert_eq!(a.mul(500_000), Vec3::new(750_000, -1_000_000, 1));
    assert_eq!(a.dot_product(&b), 750_000 - 4_000_000 - 1);
    let r = Angles::new(1_000_000, -2_000_000, 0).mul(20_000);
    assert_eq!(r, Angles::new(20_000, -40_000, 0));
    assert_eq!(Angles::new(1, 2, 3).add(&Angles::new(10, 20, 30)), Angles::new(11, 22, 33));
}

#[test]
fn jsonify_writes_shortest_decimals() {
    let v = Vec3::new(-1_500_000, 2_000_000, 7);
    assert_eq!(v.jsonify(), "{\"x\": -1.5, \"y\": 2, \"z\": 0.000007}");
    let a = Angles::new(90_000_000, -250_000, 0);
    assert_eq!(a.jsonify(), "{\"alt\": -0.25, \"az\": 90, \"roll\": 0}");
}

#[test]
fn transform_accepts_any_roll_without_sideways_force() {
    let roll = 3_000_000_000_000_000_000;
    let p = Angles::new(0, 0, roll);
    let t = AnglesTrig { azimouth: trig_deg(0.0), altitude: trig_deg(0.0), roll: trig_deg(90.0) };
    let r = Vec3::new(0, 0, SCALE).transform_coordinates(&p, &t);
    assert_eq!(r, Vec3::new(0, SCALE, 0));
}
