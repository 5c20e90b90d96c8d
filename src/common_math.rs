use vstd::prelude::*;
use vstd::string::*;
use crate::text::{fixed_text, push_fixed};

verus! {

/// Number of fixed-point units in one whole unit: every real quantity of the
/// library (metres, seconds, newtons, degrees, radians, ...) is held as an
/// `i64` count of millionths.
pub const SCALE: i64 = 1_000_000;

/// Bound on the components of a vector handed to the general vector
/// operations (a million whole units).
pub const LIMIT: i64 = 1_000_000_000_000;

/// Bound on the components of a vector handed to the body-to-world transform.
pub const FORCE_LIMIT: i64 = 1_000_000_000_000_000_000;

/// Bound on the components of a vector produced by the body-to-world
/// transform.
pub const WORLD_LIMIT: i64 = 3_000_000_000_000_000_000;

/// Bound on an angle in degrees (a thousand degrees), as it accumulates in an
/// orientation.
pub const ANGLE_LIMIT: i64 = 1_000_000_000;

/// Pi, to the nearest millionth.
pub const PI: i64 = 3_141_593;

/// Half of pi, to the nearest millionth: the angle between two vectors when
/// one of them has no direction.
pub const HALF_PI: i64 = 1_570_796;

pub open spec fn scale() -> int {
    SCALE as int
}

/// Fixed-point product of two fixed-point values, rounded down.
pub proof fn lemma_scale_values()
    ensures
        scale() == 1_000_000,
        scale() * scale() == 1_000_000_000_000,
{
    assert(scale() * scale() == 1_000_000_000_000) by (nonlinear_arith)
        requires
            scale() == 1_000_000,
    ;
}

pub open spec fn fmul(a: int, b: int) -> int {
    (a * b) / scale()
}

pub open spec fn clamp(v: int, lo: int, hi: int) -> int {
    if v < lo {
        lo
    } else if v > hi {
        hi
    } else {
        v
    }
}

pub open spec fn within(v: int, bound: int) -> bool {
    -bound <= v <= bound
}

/// The largest `r` whose square does not exceed `n`.
pub open spec fn floor_sqrt(n: int) -> int
    decreases n,
{
    if n <= 0 {
        0
    } else {
        let r = floor_sqrt(n - 1);
        if (r + 1) * (r + 1) <= n {
            r + 1
        } else {
            r
        }
    }
}

pub proof fn lemma_floor_sqrt(n: int)
    requires
        n >= 0,
    ensures
        floor_sqrt(n) >= 0,
        floor_sqrt(n) * floor_sqrt(n) <= n,
        n < (floor_sqrt(n) + 1) * (floor_sqrt(n) + 1),
    decreases n,
{
    if n > 0 {
        lemma_floor_sqrt(n - 1);
        let r = floor_sqrt(n - 1);
        if (r + 1) * (r + 1) > n {
            assert(n < (r + 1) * (r + 1));
        } else {
            assert((r + 1) * (r + 1) == n) by (nonlinear_arith)
                requires
                    (r + 1) * (r + 1) <= n,
                    n - 1 < (r + 1) * (r + 1),
            ;
            assert(n < (r + 2) * (r + 2)) by (nonlinear_arith)
                requires
                    (r + 1) * (r + 1) == n,
                    r >= 0,
            ;
        }
    }
}

/// The floor square root is the only non-negative `r` with `r * r <= n < (r + 1) * (r + 1)`.
pub proof fn lemma_floor_sqrt_unique(n: int, r: int)
    requires
        r >= 0,
        r * r <= n,
        n < (r + 1) * (r + 1),
    ensures
        floor_sqrt(n) == r,
{
    lemma_floor_sqrt(n);
    let f = floor_sqrt(n);
    if f < r {
        assert((f + 1) * (f + 1) <= r * r) by (nonlinear_arith)
            requires
                0 <= f < r,
        ;
    } else if f > r {
        assert((r + 1) * (r + 1) <= f * f) by (nonlinear_arith)
            requires
                0 <= r < f,
        ;
    }
}

/// Floor square root of `n`, for `n` below `2^124`.
pub fn isqrt(n: u128) -> (r: u128)
    requires
        n < 0x10000000000000000000000000000000,
    ensures
        r == floor_sqrt(n as int),
{
    let mut lo: u128 = 0;
    let mut hi: u128 = 0x4000000000000000;
    assert(hi * hi == 0x10000000000000000000000000000000);
    while hi - lo > 1
        invariant
            lo < hi <= 0x4000000000000000,
            lo * lo <= n,
            n < hi * hi,
        decreases hi - lo,
    {
        let mid: u128 = lo + (hi - lo) / 2;
        assert(mid * mid <= 0x10000000000000000000000000000000) by (nonlinear_arith)
            requires
                mid <= 0x4000000000000000,
        ;
        if mid * mid <= n {
            lo = mid;
        } else {
            hi = mid;
        }
    }
    proof {
        assert(hi == lo + 1);
        lemma_floor_sqrt_unique(n as int, lo as int);
    }
    lo
}

/// `a / d` rounded towards zero.
pub open spec fn spec_trunc_div(a: int, d: int) -> int {
    if a >= 0 {
        a / d
    } else {
        -((-a) / d)
    }
}

/// Division rounded towards zero.
pub fn trunc_div(a: i128, d: i128) -> (r: i128)
    requires
        d > 0,
        a > i128::MIN,
    ensures
        r == spec_trunc_div(a as int, d as int),
{
    if a >= 0 {
        a / d
    } else {
        -((-a) / d)
    }
}

/// Floor division, `n / d` rounded towards negative infinity.
pub fn floor_div(n: i128, d: i128) -> (r: i128)
    requires
        d > 0,
    ensures
        r == n as int / d as int,
{
    if n >= 0 {
        n / d
    } else {
        let m: i128 = -(n + 1);
        let q: i128 = m / d;
        proof {
            lemma_floor_div_negative(n as int, d as int, q as int);
        }
        -q - 1
    }
}

proof fn lemma_floor_div_negative(n: int, d: int, q: int)
    requires
        d > 0,
        n < 0,
        q == (-(n + 1)) / d,
    ensures
        n / d == -q - 1,
{
    let m = -(n + 1);
    let r = m % d;
    vstd::arithmetic::div_mod::lemma_fundamental_div_mod(m, d);
    assert(m == d * q + r);
    assert(0 <= r < d);
    // n = -m - 1 = d * (-q - 1) + (d - 1 - r)
    assert(n == d * (-q - 1) + (d - 1 - r)) by (nonlinear_arith)
        requires
            m == d * q + r,
            n == -m - 1,
    ;
    vstd::arithmetic::div_mod::lemma_fundamental_div_mod_converse(n, d, -q - 1, d - 1 - r);
}

/// Fixed-point product `a * b / SCALE`, rounded down.
pub fn mul_fixed(a: i64, b: i64) -> (r: i64)
    requires
        within(fmul(a as int, b as int), i64::MAX as int),
    ensures
        r == fmul(a as int, b as int),
{
    proof {
        lemma_mul_bound(a as int, b as int, 0x8000000000000000, 0x8000000000000000);
    }
    floor_div(a as i128 * b as i128, SCALE as i128) as i64
}

/// Converts degrees to radians: `d * pi / 180`, rounded down.
pub fn deg_to_rad(degrees: i64) -> (r: i64)
    ensures
        r == spec_deg_to_rad(degrees as int),
{
    let r = floor_div(degrees as i128 * PI as i128, 180 * SCALE as i128);
    proof {
        lemma_deg_to_rad_bound(degrees as int);
    }
    r as i64
}

pub open spec fn spec_deg_to_rad(d: int) -> int {
    (d * PI) / (180 * scale())
}

pub open spec fn spec_rad_to_deg(r: int) -> int {
    (r * 180 * scale()) / (PI as int)
}

pub proof fn lemma_deg_to_rad_bound(d: int)
    ensures
        d >= 0 ==> 0 <= spec_deg_to_rad(d) <= d,
        d < 0 ==> d <= spec_deg_to_rad(d) < 0,
{
    if d >= 0 {
        assert(0 <= (d * PI) / (180 * scale()) <= d) by (nonlinear_arith)
            requires
                d >= 0,
        ;
    } else {
        assert(d <= (d * PI) / (180 * scale()) < 0) by (nonlinear_arith)
            requires
                d < 0,
        ;
    }
}

/// Bound on an angle in radians converted from a bounded angle in degrees.
pub const RAD_LIMIT: i64 = 20_000_000;

pub proof fn lemma_deg_to_rad_within(d: int)
    requires
        within(d, ANGLE_LIMIT as int),
    ensures
        within(spec_deg_to_rad(d), RAD_LIMIT as int),
{
    assert(within((d * PI) / (180 * scale()), RAD_LIMIT as int)) by (nonlinear_arith)
        requires
            within(d, ANGLE_LIMIT as int),
    ;
}

/// Converts radians to degrees: `r * 180 / pi`, rounded down.
pub fn rad_to_deg(radians: i64) -> (r: i64)
    requires
        within(radians as int, LIMIT as int),
    ensures
        r == spec_rad_to_deg(radians as int),
{
    proof {
        assert(within((radians * 180 * scale()) / (PI as int), 60 * LIMIT)) by (nonlinear_arith)
            requires
                within(radians as int, LIMIT as int),
        ;
    }
    floor_div(radians as i128 * 180 * SCALE as i128, PI as i128) as i64
}

/// A Cartesian triple in body or world frame: position, velocity,
/// acceleration or force, each component in millionths of its unit.
#[derive(Clone, Copy, Debug, PartialEq, Eq)]
pub struct Vec3 {
    pub x: i64,
    pub y: i64,
    pub z: i64,
}

/// An orientation (or an angular rate) as azimuth, altitude (pitch) and roll,
/// in millionths of a degree (per second).
#[derive(Clone, Copy, Debug, PartialEq, Eq)]
pub struct Angles {
    pub azimouth: i64,
    pub altitude: i64,
    pub roll: i64,
}

/// Sine and cosine of one angle, in millionths; supplied by the caller, which
/// owns the transcendental functions.
#[derive(Clone, Copy, Debug, PartialEq, Eq)]
pub struct Trig {
    pub sin: i64,
    pub cos: i64,
}

/// Sine and cosine of each of the three angles of an orientation.
#[derive(Clone, Copy, Debug, PartialEq, Eq)]
pub struct AnglesTrig {
    pub azimouth: Trig,
    pub altitude: Trig,
    pub roll: Trig,
}

impl Trig {
    pub open spec fn wf(&self) -> bool {
        within(self.sin as int, scale()) && within(self.cos as int, scale())
    }

    pub fn new(sin: i64, cos: i64) -> (r: Trig)
        ensures
            r.sin == sin,
            r.cos == cos,
    {
        Trig { sin, cos }
    }
}

impl AnglesTrig {
    pub open spec fn wf(&self) -> bool {
        self.azimouth.wf() && self.altitude.wf() && self.roll.wf()
    }
}

impl Vec3 {
    pub open spec fn bounded(&self, bound: int) -> bool {
        within(self.x as int, bound) && within(self.y as int, bound) && within(self.z as int, bound)
    }

    /// Sum of the squares of the components.
    pub open spec fn norm_sq(&self) -> int {
        self.x * self.x + self.y * self.y + self.z * self.z
    }

    /// Euclidean length, rounded down.
    pub open spec fn length(&self) -> int {
        floor_sqrt(self.norm_sq())
    }

    /// Sum of the products of the components (in millionths squared).
    pub open spec fn dot(&self, o: Vec3) -> int {
        self.x * o.x + self.y * o.y + self.z * o.z
    }

    pub fn new(x: i64, y: i64, z: i64) -> (r: Vec3)
        ensures
            r == (Vec3 { x, y, z }),
    {
        Vec3 { x, y, z }
    }

    pub fn zero() -> (r: Vec3)
        ensures
            r == (Vec3 { x: 0, y: 0, z: 0 }),
    {
        Vec3 { x: 0, y: 0, z: 0 }
    }

    /// Component-wise sum.
    pub fn add(&self, other: &Vec3) -> (r: Vec3)
        requires
            within(self.x + other.x, i64::MAX as int),
            within(self.y + other.y, i64::MAX as int),
            within(self.z + other.z, i64::MAX as int),
        ensures
            r.x == self.x + other.x,
            r.y == self.y + other.y,
            r.z == self.z + other.z,
    {
        Vec3 { x: self.x + other.x, y: self.y + other.y, z: self.z + other.z }
    }

    /// Product with a fixed-point scalar, each component rounded down.
    pub fn mul(&self, k: i64) -> (r: Vec3)
        requires
            self.bounded(LIMIT as int),
            within(k as int, LIMIT as int),
        ensures
            r.x == fmul(self.x as int, k as int),
            r.y == fmul(self.y as int, k as int),
            r.z == fmul(self.z as int, k as int),
    {
        proof {
            assert(scale() == 1_000_000);
            assert(LIMIT as int * LIMIT as int == 1_000_000_000_000_000_000_000_000);
            assert(LIMIT as int * LIMIT as int / scale() + 1 <= i64::MAX);
            lemma_fmul_bound(self.x as int, k as int, LIMIT as int, LIMIT as int);
            lemma_fmul_bound(self.y as int, k as int, LIMIT as int, LIMIT as int);
            lemma_fmul_bound(self.z as int, k as int, LIMIT as int, LIMIT as int);
        }
        Vec3 { x: mul_fixed(self.x, k), y: mul_fixed(self.y, k), z: mul_fixed(self.z, k) }
    }

    /// Euclidean length, rounded down to a millionth.
    pub fn magnitude(&self) -> (r: i64)
        requires
            self.bounded(LIMIT as int),
        ensures
            r == self.length(),
            r >= 0,
    {
        let n = self.norm_sq_exec();
        let r = isqrt(n);
        proof {
            lemma_norm_sq_nonneg(*self);
            lemma_floor_sqrt(n as int);
            assert(r <= 0x40000000000) by (nonlinear_arith)
                requires
                    r * r <= n,
                    n < 0x1000000000000000000000,
                    r >= 0,
            ;
        }
        r as i64
    }

    fn norm_sq_exec(&self) -> (n: u128)
        requires
            self.bounded(LIMIT as int),
        ensures
            n == self.norm_sq(),
            n <= 3 * LIMIT * LIMIT,
    {
        let x = self.x as i128;
        let y = self.y as i128;
        let z = self.z as i128;
        proof {
            lemma_square_bound(x as int, LIMIT as int);
            lemma_square_bound(y as int, LIMIT as int);
            lemma_square_bound(z as int, LIMIT as int);
        }
        (x * x + y * y + z * z) as u128
    }

    /// The vector scaled to unit length, or `None` for the zero vector, which
    /// has no direction. Each component is `c / |v|` with `|v|` taken to a
    /// millionth of a millionth, rounded towards zero; the result's length
    /// lies strictly between `SCALE - 4` and `SCALE + 1`.
    pub fn unit_vector(&self) -> (r: Option<Vec3>)
        requires
            self.bounded(LIMIT as int),
        ensures
            r is None <==> self.norm_sq() == 0,
            r matches Some(u) ==> u.x == unit_component(self.x as int, fine_length(*self))
                && u.y == unit_component(self.y as int, fine_length(*self)) && u.z
                == unit_component(self.z as int, fine_length(*self)),
            r matches Some(u) ==> (SCALE - 4) * (SCALE - 4) < u.norm_sq() < (SCALE + 1) * (SCALE
                + 1),
    {
        let ns = self.norm_sq_exec();
        proof {
            assert(ns * 1_000_000_000_000 <= 3_000_000_000_000_000_000_000_000_000_000_000_000)
                by (nonlinear_arith)
                requires
                    ns <= 3 * LIMIT * LIMIT,
            ;
        }
        let m = isqrt(ns * 1_000_000_000_000);
        proof {
            lemma_scale_values();
            lemma_norm_sq_nonneg(*self);
            lemma_floor_sqrt(self.norm_sq() * (scale() * scale()));
            assert(m * m <= 3_000_000_000_000_000_000_000_000_000_000_000_000);
            assert(m <= 2_000_000_000_000_000_000) by (nonlinear_arith)
                requires
                    m * m <= 3_000_000_000_000_000_000_000_000_000_000_000_000,
                    m >= 0,
            ;
        }
        if m == 0 {
            proof {
                if self.norm_sq() != 0 {
                    lemma_fine_length_at_least_scale(*self);
                }
            }
            return None;
        }
        proof {
            lemma_fine_length_at_least_scale(*self);
            lemma_unit_length(*self);
        }
        let t: i128 = 1_000_000_000_000;
        let m = m as i128;
        Some(
            Vec3 {
                x: trunc_div(self.x as i128 * t, m) as i64,
                y: trunc_div(self.y as i128 * t, m) as i64,
                z: trunc_div(self.z as i128 * t, m) as i64,
            },
        )
    }

    /// Fixed-point dot product, rounded down.
    pub fn dot_product(&self, other: &Vec3) -> (r: i64)
        requires
            self.bounded(LIMIT as int),
            other.bounded(LIMIT as int),
        ensures
            r == self.dot(*other) / scale(),
    {
        let d = self.dot_exec(other);
        d as i64
    }

    fn dot_exec(&self, other: &Vec3) -> (d: i128)
        requires
            self.bounded(LIMIT as int),
            other.bounded(LIMIT as int),
        ensures
            d == self.dot(*other) / scale(),
            within(d as int, 3_000_000_000_000_000_000),
    {
        proof {
            lemma_mul_bound(self.x as int, other.x as int, LIMIT as int, LIMIT as int);
            lemma_mul_bound(self.y as int, other.y as int, LIMIT as int, LIMIT as int);
            lemma_mul_bound(self.z as int, other.z as int, LIMIT as int, LIMIT as int);
        }
        let d = self.x as i128 * other.x as i128 + self.y as i128 * other.y as i128 + self.z as i128
            * other.z as i128;
        proof {
            lemma_div_within(d as int, scale(), 3_000_000_000_000_000_000);
        }
        floor_div(d, SCALE as i128)
    }

    /// Cosine of the angle between two vectors, in millionths, held to
    /// `[-SCALE, SCALE]`; `None` when either vector has no direction.
    pub fn cos_angle_with(&self, other: &Vec3) -> (r: Option<i64>)
        requires
            self.bounded(LIMIT as int),
            other.bounded(LIMIT as int),
        ensures
            r == spec_cos_angle(*self, *other),
    {
        let m1 = self.magnitude();
        let m2 = other.magnitude();
        proof {
            lemma_norm_sq_nonneg(*self);
            lemma_norm_sq_nonneg(*other);
            lemma_floor_sqrt(self.norm_sq());
            lemma_floor_sqrt(other.norm_sq());
            lemma_length_zero(*self);
            lemma_length_zero(*other);
        }
        if m1 == 0 || m2 == 0 {
            return None;
        }
        proof {
            lemma_mul_bound(self.x as int, other.x as int, LIMIT as int, LIMIT as int);
            lemma_mul_bound(self.y as int, other.y as int, LIMIT as int, LIMIT as int);
            lemma_mul_bound(self.z as int, other.z as int, LIMIT as int, LIMIT as int);
            lemma_length_bound(*self);
            lemma_length_bound(*other);
            assert(0 < m1 * m2 <= 4 * LIMIT * LIMIT) by (nonlinear_arith)
                requires
                    0 < m1 <= 2 * LIMIT,
                    0 < m2 <= 2 * LIMIT,
            ;
        }
        let d = self.x as i128 * other.x as i128 + self.y as i128 * other.y as i128 + self.z as i128
            * other.z as i128;
        proof {
            lemma_mul_bound(d as int, scale(), 3 * LIMIT * LIMIT, scale());
        }
        let c = floor_div(d * SCALE as i128, m1 as i128 * m2 as i128);
        if c > SCALE as i128 {
            Some(SCALE)
        } else if c < -SCALE as i128 {
            Some(-SCALE)
        } else {
            Some(c as i64)
        }
    }

    /// The angle between two vectors in millionths of a radian: the caller's
    /// arccosine of `cos_angle_with`, or exactly `HALF_PI` when either vector
    /// has no direction.
    pub fn angle_with<F: Fn(i64) -> i64>(&self, other: &Vec3, arccos: F) -> (r: i64)
        requires
            self.bounded(LIMIT as int),
            other.bounded(LIMIT as int),
            forall|c: i64| within(c as int, scale()) ==> arccos.requires((c,)),
        ensures
            match spec_cos_angle(*self, *other) {
                None => r == HALF_PI,
                Some(c) => arccos.ensures((c,), r),
            },
    {
        match self.cos_angle_with(other) {
            None => HALF_PI,
            Some(c) => {
                assert(within(c as int, scale()));
                arccos(c)
            },
        }
    }

    /// Maps a body-frame vector into the world frame for orientation
    /// `pointing`, whose sines and cosines are `trig`, by the composed
    /// yaw/pitch/roll formula of `transform_numerators` (an approximation of a
    /// rotation: it keeps lengths only for some orientations). The roll
    /// angle itself enters only through the sideways term `y * roll`, which
    /// must stay within `FORCE_LIMIT * SCALE`; with no sideways component any
    /// roll is accepted.
    pub fn transform_coordinates(&self, pointing: &Angles, trig: &AnglesTrig) -> (r: Vec3)
        requires
            self.bounded(FORCE_LIMIT as int),
            within(self.y * spec_deg_to_rad(pointing.roll as int), FORCE_LIMIT * SCALE),
            trig.wf(),
        ensures
            r == spec_transform(*self, *pointing, *trig),
            r.bounded(WORLD_LIMIT as int),
    {
        let x = self.x as i128;
        let y = self.y as i128;
        let z = self.z as i128;
        let s = SCALE as i128;
        let roll_rad = deg_to_rad(pointing.roll) as i128;
        let (saz, caz) = (trig.azimouth.sin as i128, trig.azimouth.cos as i128);
        let (salt, calt) = (trig.altitude.sin as i128, trig.altitude.cos as i128);
        let (sroll, croll) = (trig.roll.sin as i128, trig.roll.cos as i128);
        proof {
            lemma_deg_to_rad_bound(pointing.roll as int);
            lemma_mul_bound(y as int, roll_rad as int, FORCE_LIMIT as int, 0x8000000000000000);
            lemma_triple_bound(x as int, calt as int, caz as int);
            lemma_triple_bound(z as int, sroll as int, saz as int);
            lemma_triple_bound(y as int, saz as int, croll as int);
            lemma_triple_bound(x as int, calt as int, saz as int);
            lemma_triple_bound(z as int, sroll as int, s as int);
            lemma_roll_term_bound(y * roll_rad, saz as int);
            lemma_triple_bound(x as int, salt as int, s as int);
            lemma_triple_bound(y as int, sroll as int, s as int);
            lemma_triple_bound(z as int, calt as int, croll as int);
        }
        let nx = x * calt * caz + z * sroll * saz - y * saz * croll;
        let y_roll = y * roll_rad;
        let ny = x * calt * saz + z * sroll * s + y_roll * saz;
        let nz = x * salt * s + y * sroll * s + z * calt * croll;
        proof {
            lemma_transform_result_bound(nx as int);
            lemma_transform_result_bound(ny as int);
            lemma_transform_result_bound(nz as int);
        }
        let d = s * s;
        Vec3 {
            x: floor_div(nx, d) as i64,
            y: floor_div(ny, d) as i64,
            z: floor_div(nz, d) as i64,
        }
    }

    /// JSON object text with keys `x`, `y` and `z`.
    pub fn jsonify(&self) -> (r: String)
        ensures
            r@ == vec3_json(*self),
    {
        let mut s = String::new();
        s.append("{\"x\": ");
        push_fixed(&mut s, self.x);
        s.append(", \"y\": ");
        push_fixed(&mut s, self.y);
        s.append(", \"z\": ");
        push_fixed(&mut s, self.z);
        s.append("}");
        proof {
            assert(s@ =~= vec3_json(*self));
        }
        s
    }
}

pub open spec fn vec3_json(v: Vec3) -> Seq<char> {
    "{\"x\": "@ + fixed_text(v.x as int) + ", \"y\": "@ + fixed_text(v.y as int) + ", \"z\": "@
        + fixed_text(v.z as int) + "}"@
}

pub open spec fn angles_json(a: Angles) -> Seq<char> {
    "{\"alt\": "@ + fixed_text(a.altitude as int) + ", \"az\": "@ + fixed_text(a.azimouth as int)
        + ", \"roll\": "@ + fixed_text(a.roll as int) + "}"@
}

impl Angles {
    pub open spec fn bounded(&self, bound: int) -> bool {
        within(self.azimouth as int, bound) && within(self.altitude as int, bound) && within(
            self.roll as int,
            bound,
        )
    }

    pub fn new(azimouth: i64, altitude: i64, roll: i64) -> (r: Angles)
        ensures
            r == (Angles { azimouth, altitude, roll }),
    {
        Angles { azimouth, altitude, roll }
    }

    /// Component-wise sum.
    pub fn add(&self, other: &Angles) -> (r: Angles)
        requires
            within(self.azimouth + other.azimouth, i64::MAX as int),
            within(self.altitude + other.altitude, i64::MAX as int),
            within(self.roll + other.roll, i64::MAX as int),
        ensures
            r.azimouth == self.azimouth + other.azimouth,
            r.altitude == self.altitude + other.altitude,
            r.roll == self.roll + other.roll,
    {
        Angles {
            azimouth: self.azimouth + other.azimouth,
            altitude: self.altitude + other.altitude,
            roll: self.roll + other.roll,
        }
    }

    /// Product with a fixed-point scalar, each component rounded down.
    pub fn mul(&self, k: i64) -> (r: Angles)
        requires
            self.bounded(LIMIT as int),
            within(k as int, LIMIT as int),
        ensures
            r.azimouth == fmul(self.azimouth as int, k as int),
            r.altitude == fmul(self.altitude as int, k as int),
            r.roll == fmul(self.roll as int, k as int),
    {
        proof {
            assert(scale() == 1_000_000);
            assert(LIMIT as int * LIMIT as int == 1_000_000_000_000_000_000_000_000);
            lemma_fmul_bound(self.azimouth as int, k as int, LIMIT as int, LIMIT as int);
            lemma_fmul_bound(self.altitude as int, k as int, LIMIT as int, LIMIT as int);
            lemma_fmul_bound(self.roll as int, k as int, LIMIT as int, LIMIT as int);
        }
        Angles {
            azimouth: mul_fixed(self.azimouth, k),
            altitude: mul_fixed(self.altitude, k),
            roll: mul_fixed(self.roll, k),
        }
    }

    /// The forward direction of this orientation (roll ignored), from the
    /// sines and cosines `trig` of its angles:
    /// `(cos az cos alt, sin az cos alt, sin alt)`.
    pub fn as_vec3(&self, trig: &AnglesTrig) -> (r: Vec3)
        requires
            trig.wf(),
        ensures
            r.x == fmul(trig.azimouth.cos as int, trig.altitude.cos as int),
            r.y == fmul(trig.azimouth.sin as int, trig.altitude.cos as int),
            r.z == trig.altitude.sin,
    {
        proof {
            assert(scale() == 1_000_000);
            lemma_fmul_bound(trig.azimouth.cos as int, trig.altitude.cos as int, scale(), scale());
            lemma_fmul_bound(trig.azimouth.sin as int, trig.altitude.cos as int, scale(), scale());
        }
        let x = mul_fixed(trig.azimouth.cos, trig.altitude.cos);
        let y = mul_fixed(trig.azimouth.sin, trig.altitude.cos);
        let z = trig.altitude.sin;
        Vec3 { x, y, z }
    }

    /// JSON object text with keys `alt`, `az` and `roll`.
    pub fn jsonify(&self) -> (r: String)
        ensures
            r@ == angles_json(*self),
    {
        let mut s = String::new();
        s.append("{\"alt\": ");
        push_fixed(&mut s, self.altitude);
        s.append(", \"az\": ");
        push_fixed(&mut s, self.azimouth);
        s.append(", \"roll\": ");
        push_fixed(&mut s, self.roll);
        s.append("}");
        proof {
            assert(s@ =~= angles_json(*self));
        }
        s
    }
}

/// Numerators (over `SCALE * SCALE`) of the body-to-world transform of `v`:
///   x: x cos(alt) cos(az) + z sin(roll) sin(az) - y sin(az) cos(roll)
///   y: x cos(alt) sin(az) + z sin(roll) + y roll_in_radians sin(az)
///   z: x sin(alt) + y sin(roll) + z cos(alt) cos(roll)
pub open spec fn transform_numerators(v: Vec3, p: Angles, t: AnglesTrig) -> (int, int, int) {
    let s = scale();
    let roll_rad = spec_deg_to_rad(p.roll as int);
    (
        v.x * t.altitude.cos * t.azimouth.cos + v.z * t.roll.sin * t.azimouth.sin - v.y
            * t.azimouth.sin * t.roll.cos,
        v.x * t.altitude.cos * t.azimouth.sin + v.z * t.roll.sin * s + v.y * roll_rad
            * t.azimouth.sin,
        v.x * t.altitude.sin * s + v.y * t.roll.sin * s + v.z * t.altitude.cos * t.roll.cos,
    )
}

pub open spec fn spec_transform(v: Vec3, p: Angles, t: AnglesTrig) -> Vec3 {
    let n = transform_numerators(v, p, t);
    let d = scale() * scale();
    Vec3 { x: (n.0 / d) as i64, y: (n.1 / d) as i64, z: (n.2 / d) as i64 }
}

/// Cosine of the angle between `a` and `b` in millionths, held to
/// `[-SCALE, SCALE]`, or `None` when either has no direction.
pub open spec fn spec_cos_angle(a: Vec3, b: Vec3) -> Option<i64> {
    if a.length() == 0 || b.length() == 0 {
        None
    } else {
        Some(clamp((a.dot(b) * scale()) / (a.length() * b.length()), -scale(), scale()) as i64)
    }
}

pub proof fn lemma_mul_bound(a: int, b: int, ba: int, bb: int)
    requires
        within(a, ba),
        within(b, bb),
    ensures
        within(a * b, ba * bb),
{
    assert(within(a * b, ba * bb)) by (nonlinear_arith)
        requires
            within(a, ba),
            within(b, bb),
    ;
}

pub proof fn lemma_square_bound(a: int, ba: int)
    requires
        within(a, ba),
    ensures
        0 <= a * a <= ba * ba,
{
    assert(0 <= a * a <= ba * ba) by (nonlinear_arith)
        requires
            within(a, ba),
    ;
}

pub proof fn lemma_fmul_bound(a: int, b: int, ba: int, bb: int)
    requires
        within(a, ba),
        within(b, bb),
        ba >= 0,
        bb >= 0,
    ensures
        within(fmul(a, b), ba * bb / scale() + 1),
{
    lemma_mul_bound(a, b, ba, bb);
    assert(within((a * b) / scale(), ba * bb / scale() + 1)) by (nonlinear_arith)
        requires
            within(a * b, ba * bb),
            ba * bb >= 0,
    ;
}

proof fn lemma_triple_bound(a: int, b: int, c: int)
    requires
        within(a, FORCE_LIMIT as int),
        within(b, scale()),
        within(c, scale()),
    ensures
        within(a * b, FORCE_LIMIT * SCALE),
        within(a * b * c, FORCE_LIMIT * SCALE * SCALE),
{
    lemma_mul_bound(a, b, FORCE_LIMIT as int, scale());
    lemma_mul_bound(a * b, c, FORCE_LIMIT * SCALE, scale());
}

proof fn lemma_roll_term_bound(y_roll: int, s: int)
    requires
        within(y_roll, FORCE_LIMIT * SCALE),
        within(s, scale()),
    ensures
        within(y_roll * s, FORCE_LIMIT * SCALE * SCALE),
{
    lemma_mul_bound(y_roll, s, FORCE_LIMIT * SCALE, scale());
}

proof fn lemma_transform_result_bound(n: int)
    requires
        within(n, 3 * FORCE_LIMIT * SCALE * SCALE),
    ensures
        within(n / (scale() * scale()), WORLD_LIMIT as int),
{
    assert(scale() == 1_000_000);
    assert(scale() * scale() == 1_000_000_000_000);
    lemma_div_within(n, scale() * scale(), 3_000_000_000_000_000_000int);
}

/// `|n| <= b * d` bounds `|n / d|` by `b`.
pub proof fn lemma_div_within(n: int, d: int, b: int)
    requires
        d > 0,
        b >= 0,
        within(n, b * d),
    ensures
        within(n / d, b),
{
    vstd::arithmetic::div_mod::lemma_div_is_ordered(n, b * d, d);
    vstd::arithmetic::div_mod::lemma_div_is_ordered(-(b * d), n, d);
    vstd::arithmetic::div_mod::lemma_div_multiples_vanish(b, d);
    vstd::arithmetic::div_mod::lemma_div_multiples_vanish(-b, d);
    assert(-(b * d) == d * (-b)) by (nonlinear_arith);
    assert(b * d == d * b) by (nonlinear_arith);
}

pub proof fn lemma_norm_sq_nonneg(v: Vec3)
    ensures
        v.norm_sq() >= 0,
        v.norm_sq() == 0 <==> (v.x == 0 && v.y == 0 && v.z == 0),
{
    lemma_square_bound(v.x as int, i64::MAX as int + 1);
    lemma_square_bound(v.y as int, i64::MAX as int + 1);
    lemma_square_bound(v.z as int, i64::MAX as int + 1);
    assert(v.x != 0 ==> v.x * v.x > 0) by (nonlinear_arith);
    assert(v.y != 0 ==> v.y * v.y > 0) by (nonlinear_arith);
    assert(v.z != 0 ==> v.z * v.z > 0) by (nonlinear_arith);
}

proof fn lemma_length_zero(v: Vec3)
    ensures
        v.length() == 0 <==> v.norm_sq() == 0,
{
    lemma_norm_sq_nonneg(v);
    lemma_floor_sqrt(v.norm_sq());
    let m = v.length();
    if m == 0 {
        assert((m + 1) * (m + 1) == 1) by (nonlinear_arith)
            requires
                m == 0,
        ;
    }
}

proof fn lemma_length_bound(v: Vec3)
    requires
        v.bounded(LIMIT as int),
    ensures
        0 <= v.length() <= 2 * LIMIT,
{
    lemma_square_bound(v.x as int, LIMIT as int);
    lemma_square_bound(v.y as int, LIMIT as int);
    lemma_square_bound(v.z as int, LIMIT as int);
    lemma_floor_sqrt(v.norm_sq());
    let m = v.length();
    assert(m <= 2 * LIMIT) by (nonlinear_arith)
        requires
            m * m <= v.norm_sq(),
            v.norm_sq() <= 3 * LIMIT * LIMIT,
            m >= 0,
    ;
}

/// With zero roll, a forward (body x) vector keeps its length under the
/// body-to-world transform, before rounding: when the sine and cosine of
/// azimuth and of altitude are exact (their squares sum to `SCALE^2`), the
/// squared length of the numerators is `|v|^2 * SCALE^4`.
pub proof fn lemma_zero_roll_keeps_forward_length(v: Vec3, p: Angles, t: AnglesTrig)
    requires
        v.y == 0,
        v.z == 0,
        p.roll == 0,
        t.roll == (Trig { sin: 0, cos: SCALE }),
        t.azimouth.sin * t.azimouth.sin + t.azimouth.cos * t.azimouth.cos == scale() * scale(),
        t.altitude.sin * t.altitude.sin + t.altitude.cos * t.altitude.cos == scale() * scale(),
    ensures
        ({
            let n = transform_numerators(v, p, t);
            n.0 * n.0 + n.1 * n.1 + n.2 * n.2 == v.norm_sq() * (scale() * scale()) * (scale()
                * scale())
        }),
{
    let s = scale();
    let (sz, cz) = (t.azimouth.sin as int, t.azimouth.cos as int);
    let (sa, ca) = (t.altitude.sin as int, t.altitude.cos as int);
    let x = v.x as int;
    assert(spec_deg_to_rad(0) == 0);
    let n = transform_numerators(v, p, t);
    assert(n.0 == x * ca * cz);
    assert(n.1 == x * ca * sz);
    assert(n.2 == x * sa * s);
    let xx = x * x;
    let (c2, z2, w2, a2, s2) = (ca * ca, cz * cz, sz * sz, sa * sa, s * s);
    assert((x * ca * cz) * (x * ca * cz) == xx * c2 * z2) by (nonlinear_arith)
        requires
            xx == x * x,
            c2 == ca * ca,
            z2 == cz * cz,
    ;
    assert((x * ca * sz) * (x * ca * sz) == xx * c2 * w2) by (nonlinear_arith)
        requires
            xx == x * x,
            c2 == ca * ca,
            w2 == sz * sz,
    ;
    assert((x * sa * s) * (x * sa * s) == xx * a2 * s2) by (nonlinear_arith)
        requires
            xx == x * x,
            a2 == sa * sa,
            s2 == s * s,
    ;
    assert(xx * c2 * z2 + xx * c2 * w2 == xx * c2 * s2) by (nonlinear_arith)
        requires
            z2 + w2 == s2,
    ;
    assert(xx * c2 * s2 + xx * a2 * s2 == xx * s2 * s2) by (nonlinear_arith)
        requires
            c2 + a2 == s2,
    ;
}

/// Length of `v` in millionths of a millionth, rounded down.
pub open spec fn fine_length(v: Vec3) -> int {
    floor_sqrt(v.norm_sq() * (scale() * scale()))
}

/// Component `c` of a vector of fine length `m`, scaled to unit length.
pub open spec fn unit_component(c: int, m: int) -> int {
    spec_trunc_div(c * (scale() * scale()), m)
}

proof fn lemma_fine_length_at_least_scale(v: Vec3)
    requires
        v.norm_sq() != 0,
    ensures
        fine_length(v) >= scale(),
{
    let t = scale() * scale();
    lemma_scale_values();
    lemma_norm_sq_nonneg(v);
    let n = v.norm_sq() * t;
    assert(n >= t) by (nonlinear_arith)
        requires
            v.norm_sq() >= 1,
            t > 0,
            n == v.norm_sq() * t,
    ;
    lemma_floor_sqrt(n);
    let m = fine_length(v);
    if m < scale() {
        assert((m + 1) * (m + 1) <= scale() * scale()) by (nonlinear_arith)
            requires
                0 <= m < scale(),
        ;
    }
}

/// With `q = |c * T| / m` (rounded down), `q * m <= |c * T| < (q + 1) * m`,
/// squared.
proof fn lemma_unit_component(c: int, m: int)
    requires
        m > 0,
    ensures
        ({
            let u = unit_component(c, m);
            let q = if u >= 0 {
                u
            } else {
                -u
            };
            &&& q >= 0
            &&& (u * u) * (m * m) <= (c * c) * ((scale() * scale()) * (scale() * scale()))
            &&& ((q + 1) * (q + 1)) * (m * m) > (c * c) * ((scale() * scale()) * (scale()
                * scale()))
        }),
{
    let t = scale() * scale();
    let ct = c * t;
    let a = if ct >= 0 {
        ct
    } else {
        -ct
    };
    let q = a / m;
    vstd::arithmetic::div_mod::lemma_fundamental_div_mod(a, m);
    assert(0 <= q) by (nonlinear_arith)
        requires
            a >= 0,
            m > 0,
            a == m * q + a % m,
            0 <= a % m < m,
    ;
    let u = unit_component(c, m);
    assert(u == q || u == -q);
    assert(u * u == q * q) by (nonlinear_arith)
        requires
            u == q || u == -q,
    ;
    assert(a * a == (c * c) * (t * t)) by (nonlinear_arith)
        requires
            a == ct || a == -ct,
            ct == c * t,
    ;
    assert((q * q) * (m * m) <= a * a) by (nonlinear_arith)
        requires
            a == m * q + a % m,
            0 <= a % m,
            q >= 0,
            m > 0,
    ;
    assert(((q + 1) * (q + 1)) * (m * m) > a * a) by (nonlinear_arith)
        requires
            a == m * q + a % m,
            a % m < m,
            a >= 0,
            q >= 0,
            m > 0,
    ;
}

/// The scaled components have squared length strictly between
/// `(SCALE - 4)^2` and `(SCALE + 1)^2`.
proof fn lemma_unit_length(v: Vec3)
    requires
        v.norm_sq() != 0,
        fine_length(v) >= scale(),
    ensures
        ({
            let m = fine_length(v);
            let u = Vec3 {
                x: unit_component(v.x as int, m) as i64,
                y: unit_component(v.y as int, m) as i64,
                z: unit_component(v.z as int, m) as i64,
            };
            &&& within(unit_component(v.x as int, m), scale())
            &&& within(unit_component(v.y as int, m), scale())
            &&& within(unit_component(v.z as int, m), scale())
            &&& (scale() - 4) * (scale() - 4) < u.norm_sq() < (scale() + 1) * (scale() + 1)
        }),
{
    let s = scale();
    let t = s * s;
    let t2 = t * t;
    let m = fine_length(v);
    let m2 = m * m;
    let n = v.norm_sq();
    lemma_scale_values();
    assert(m2 > 0) by (nonlinear_arith)
        requires
            m >= s,
            s > 0,
            m2 == m * m,
    ;
    lemma_norm_sq_nonneg(v);
    lemma_floor_sqrt(n * t);
    lemma_unit_component(v.x as int, m);
    lemma_unit_component(v.y as int, m);
    lemma_unit_component(v.z as int, m);
    let (ux, uy, uz) = (
        unit_component(v.x as int, m),
        unit_component(v.y as int, m),
        unit_component(v.z as int, m),
    );
    let qx = if ux >= 0 { ux } else { -ux };
    let qy = if uy >= 0 { uy } else { -uy };
    let qz = if uz >= 0 { uz } else { -uz };
    let (cx, cy, cz) = (v.x as int * v.x as int, v.y as int * v.y as int, v.z as int * v.z as int);
    let su = ux * ux + uy * uy + uz * uz;
    assert(qx * qx == ux * ux && qy * qy == uy * uy && qz * qz == uz * uz) by (nonlinear_arith)
        requires
            qx == ux || qx == -ux,
            qy == uy || qy == -uy,
            qz == uz || qz == -uz,
    ;
    // upper bound: su * m^2 <= n * t^2 < (m + 1)^2 * t <= (s + 1)^2 * m^2
    assert(su * m2 <= n * t2) by (nonlinear_arith)
        requires
            (ux * ux) * m2 <= cx * t2,
            (uy * uy) * m2 <= cy * t2,
            (uz * uz) * m2 <= cz * t2,
            su == ux * ux + uy * uy + uz * uz,
            n == cx + cy + cz,
    ;
    assert(n * t2 < (m + 1) * (m + 1) * t) by (nonlinear_arith)
        requires
            n * t < (m + 1) * (m + 1),
            t2 == t * t,
            t > 0,
    ;
    assert((m + 1) * (m + 1) * t <= (s + 1) * (s + 1) * m2) by (nonlinear_arith)
        requires
            m >= s,
            s > 0,
            t == s * s,
            m2 == m * m,
    ;
    assert(su < (s + 1) * (s + 1)) by (nonlinear_arith)
        requires
            su * m2 < (s + 1) * (s + 1) * m2,
            m2 > 0,
    ;
    // each component is at most one in size
    assert(qx <= s && qy <= s && qz <= s) by (nonlinear_arith)
        requires
            qx * qx == ux * ux,
            qy * qy == uy * uy,
            qz * qz == uz * uz,
            qx >= 0,
            qy >= 0,
            qz >= 0,
            ux * ux + uy * uy + uz * uz < (s + 1) * (s + 1),
            s > 0,
    ;
    // lower bound: sum of (q + 1)^2 exceeds t, since m^2 <= n * t
    assert(((qx + 1) * (qx + 1) + (qy + 1) * (qy + 1) + (qz + 1) * (qz + 1)) * m2 > n * t2)
        by (nonlinear_arith)
        requires
            ((qx + 1) * (qx + 1)) * m2 > cx * t2,
            ((qy + 1) * (qy + 1)) * m2 > cy * t2,
            ((qz + 1) * (qz + 1)) * m2 > cz * t2,
            n == cx + cy + cz,
    ;
    assert(n * t2 >= m2 * t) by (nonlinear_arith)
        requires
            m2 <= n * t,
            t2 == t * t,
            t > 0,
    ;
    assert((qx + 1) * (qx + 1) + (qy + 1) * (qy + 1) + (qz + 1) * (qz + 1) > t) by (
    nonlinear_arith)
        requires
            ((qx + 1) * (qx + 1) + (qy + 1) * (qy + 1) + (qz + 1) * (qz + 1)) * m2 > m2 * t,
            m2 > 0,
    ;
    assert(su > (s - 4) * (s - 4)) by (nonlinear_arith)
        requires
            (qx + 1) * (qx + 1) + (qy + 1) * (qy + 1) + (qz + 1) * (qz + 1) > t,
            t == s * s,
            su == qx * qx + qy * qy + qz * qz,
            0 <= qx <= s,
            0 <= qy <= s,
            0 <= qz <= s,
            s == 1_000_000,
    ;
}

/// For `r = n / d` (rounded down): `|r| * d <= |n| + d` and
/// `|n| <= (|r| + 1) * d`.
proof fn lemma_floor_component(n: int, d: int)
    requires
        d > 0,
    ensures
        ({
            let r = n / d;
            let q = if r >= 0 {
                r
            } else {
                -r
            };
            let a = if n >= 0 {
                n
            } else {
                -n
            };
            &&& q >= 0
            &&& q * d <= a + d
            &&& a <= (q + 1) * d
        }),
{
    vstd::arithmetic::div_mod::lemma_fundamental_div_mod(n, d);
    let r = n / d;
    let md = n % d;
    let dr = d * r;
    assert(r * d == dr && (r + 1) * d == dr + d && (-r) * d == -dr && (-r + 1) * d == -dr + d)
        by (nonlinear_arith)
        requires
            dr == d * r,
    ;
    if n >= 0 {
        assert(r >= 0) by (nonlinear_arith)
            requires
                n == d * r + md,
                0 <= md < d,
                n >= 0,
        ;
    } else {
        assert(r < 0) by (nonlinear_arith)
            requires
                n == d * r + md,
                0 <= md < d,
                n < 0,
        ;
    }
}

proof fn lemma_sq_le(u: int, w: int)
    requires
        0 <= u <= w,
    ensures
        u * u <= w * w,
{
    assert(u * u <= w * w) by (nonlinear_arith)
        requires
            0 <= u <= w,
    ;
}

/// Three numerators over `d` whose squares sum to `(x * d)^2`, each rounded
/// down, give squares summing to within `6x + 9` of `x^2`.
proof fn lemma_rounded_length(n0: int, n1: int, n2: int, d: int, x: int)
    requires
        d > 0,
        x >= 0,
        n0 * n0 + n1 * n1 + n2 * n2 == (x * x) * (d * d),
    ensures
        ({
            let (r0, r1, r2) = (n0 / d, n1 / d, n2 / d);
            let sr = r0 * r0 + r1 * r1 + r2 * r2;
            &&& sr < (x + 3) * (x + 3)
            &&& sr + 6 * x + 9 >= x * x
        }),
{
    lemma_floor_component(n0, d);
    lemma_floor_component(n1, d);
    lemma_floor_component(n2, d);
    let (r0, r1, r2) = (n0 / d, n1 / d, n2 / d);
    let q0 = if r0 >= 0 { r0 } else { -r0 };
    let q1 = if r1 >= 0 { r1 } else { -r1 };
    let q2 = if r2 >= 0 { r2 } else { -r2 };
    let a0 = if n0 >= 0 { n0 } else { -n0 };
    let a1 = if n1 >= 0 { n1 } else { -n1 };
    let a2 = if n2 >= 0 { n2 } else { -n2 };
    let d2 = d * d;
    let xd = x * d;
    assert(d2 > 0) by (nonlinear_arith)
        requires
            d > 0,
            d2 == d * d,
    ;
    assert(r0 * r0 == q0 * q0 && r1 * r1 == q1 * q1 && r2 * r2 == q2 * q2) by (nonlinear_arith)
        requires
            q0 == r0 || q0 == -r0,
            q1 == r1 || q1 == -r1,
            q2 == r2 || q2 == -r2,
    ;
    assert(a0 * a0 == n0 * n0 && a1 * a1 == n1 * n1 && a2 * a2 == n2 * n2) by (nonlinear_arith)
        requires
            a0 == n0 || a0 == -n0,
            a1 == n1 || a1 == -n1,
            a2 == n2 || a2 == -n2,
    ;
    assert(xd * xd == (x * x) * d2 && d * xd == x * d2) by (nonlinear_arith)
        requires
            xd == x * d,
            d2 == d * d,
    ;
    let sa = a0 * a0 + a1 * a1 + a2 * a2;
    assert(sa == xd * xd);
    // each numerator is at most x * d in size
    lemma_sq_le_inverse(a0, xd, sa);
    lemma_sq_le_inverse(a1, xd, sa);
    lemma_sq_le_inverse(a2, xd, sa);
    // upper: (q d)^2 <= (a + d)^2
    lemma_component_upper(q0, a0, d);
    lemma_component_upper(q1, a1, d);
    lemma_component_upper(q2, a2, d);
    let sq = q0 * q0 + q1 * q1 + q2 * q2;
    assert(sq * d2 == (q0 * q0) * d2 + (q1 * q1) * d2 + (q2 * q2) * d2) by (nonlinear_arith)
        requires
            sq == q0 * q0 + q1 * q1 + q2 * q2,
    ;
    assert(sq * d2 <= sa + 2 * (d * a0 + d * a1 + d * a2) + 3 * d2);
    assert(d * a0 + d * a1 + d * a2 <= 3 * (d * xd)) by (nonlinear_arith)
        requires
            a0 <= xd,
            a1 <= xd,
            a2 <= xd,
            d > 0,
    ;
    assert((x + 3) * (x + 3) * d2 == (x * x) * d2 + 6 * (x * d2) + 9 * d2) by (nonlinear_arith);
    assert(sq * d2 < (x + 3) * (x + 3) * d2);
    assert(sq < (x + 3) * (x + 3)) by (nonlinear_arith)
        requires
            sq * d2 < (x + 3) * (x + 3) * d2,
            d2 > 0,
    ;
    // lower: a <= (q + 1) d
    lemma_component_lower(q0, a0, d);
    lemma_component_lower(q1, a1, d);
    lemma_component_lower(q2, a2, d);
    let sp = (q0 + 1) * (q0 + 1) + (q1 + 1) * (q1 + 1) + (q2 + 1) * (q2 + 1);
    assert(sp * d2 == ((q0 + 1) * (q0 + 1)) * d2 + ((q1 + 1) * (q1 + 1)) * d2 + ((q2 + 1) * (q2
        + 1)) * d2) by (nonlinear_arith)
        requires
            sp == (q0 + 1) * (q0 + 1) + (q1 + 1) * (q1 + 1) + (q2 + 1) * (q2 + 1),
    ;
    assert(sp * d2 >= (x * x) * d2);
    assert(sp >= x * x) by (nonlinear_arith)
        requires
            sp * d2 >= (x * x) * d2,
            d2 > 0,
    ;
    // each |r| is at most x + 1
    assert(q0 <= x + 1 && q1 <= x + 1 && q2 <= x + 1) by (nonlinear_arith)
        requires
            q0 * d <= a0 + d,
            q1 * d <= a1 + d,
            q2 * d <= a2 + d,
            a0 <= xd,
            a1 <= xd,
            a2 <= xd,
            xd == x * d,
            d > 0,
    ;
    assert(sp == sq + 2 * (q0 + q1 + q2) + 3) by (nonlinear_arith)
        requires
            sp == (q0 + 1) * (q0 + 1) + (q1 + 1) * (q1 + 1) + (q2 + 1) * (q2 + 1),
            sq == q0 * q0 + q1 * q1 + q2 * q2,
    ;
}

proof fn lemma_sq_le_inverse(a: int, b: int, total: int)
    requires
        a >= 0,
        b >= 0,
        a * a <= total,
        total == b * b,
    ensures
        a <= b,
{
    if a > b {
        assert(a * a > b * b) by (nonlinear_arith)
            requires
                a > b,
                b >= 0,
        ;
    }
}

proof fn lemma_component_upper(q: int, a: int, d: int)
    requires
        q >= 0,
        a >= 0,
        d > 0,
        q * d <= a + d,
    ensures
        (q * q) * (d * d) <= a * a + 2 * (d * a) + d * d,
{
    lemma_sq_le(q * d, a + d);
    assert((q * d) * (q * d) == (q * q) * (d * d)) by (nonlinear_arith);
    assert((a + d) * (a + d) == a * a + 2 * (d * a) + d * d) by (nonlinear_arith);
}

proof fn lemma_component_lower(q: int, a: int, d: int)
    requires
        q >= 0,
        a >= 0,
        a <= (q + 1) * d,
    ensures
        a * a <= ((q + 1) * (q + 1)) * (d * d),
{
    lemma_sq_le(a, (q + 1) * d);
    assert(((q + 1) * d) * ((q + 1) * d) == ((q + 1) * (q + 1)) * (d * d)) by (nonlinear_arith);
}

/// With zero roll and exact sines and cosines of azimuth and altitude, the
/// rounded world-frame image of a forward vector of length `|x|` has
/// squared length below `(|x| + 3)^2` and above `x^2 - 6|x| - 9`: its
/// length is kept to within three millionths.
pub proof fn lemma_zero_roll_keeps_forward_length_rounded(v: Vec3, p: Angles, t: AnglesTrig)
    requires
        v.y == 0,
        v.z == 0,
        p.roll == 0,
        t.roll == (Trig { sin: 0, cos: SCALE }),
        t.azimouth.sin * t.azimouth.sin + t.azimouth.cos * t.azimouth.cos == scale() * scale(),
        t.altitude.sin * t.altitude.sin + t.altitude.cos * t.altitude.cos == scale() * scale(),
    ensures
        ({
            let x = if v.x >= 0 {
                v.x as int
            } else {
                -v.x
            };
            let n = transform_numerators(v, p, t);
            let d = scale() * scale();
            let sr = (n.0 / d) * (n.0 / d) + (n.1 / d) * (n.1 / d) + (n.2 / d) * (n.2 / d);
            &&& sr < (x + 3) * (x + 3)
            &&& sr + 6 * x + 9 >= x * x
        }),
{
    lemma_zero_roll_keeps_forward_length(v, p, t);
    lemma_scale_values();
    let x = if v.x >= 0 {
        v.x as int
    } else {
        -v.x
    };
    let d = scale() * scale();
    let n = transform_numerators(v, p, t);
    assert(v.norm_sq() == x * x) by (nonlinear_arith)
        requires
            v.y == 0,
            v.z == 0,
            x == v.x || x == -v.x,
    ;
    lemma_rounded_length(n.0, n.1, n.2, d, x);
}

pub open spec fn neg(v: Vec3) -> Vec3 {
    Vec3 { x: (-v.x) as i64, y: (-v.y) as i64, z: (-v.z) as i64 }
}

/// A vector makes a zero angle with itself: the cosine is exactly one.
pub proof fn lemma_cos_angle_self(v: Vec3)
    requires
        v.bounded(LIMIT as int),
        v.norm_sq() != 0,
    ensures
        spec_cos_angle(v, v) == Some(SCALE),
{
    let m = v.length();
    let n = v.norm_sq();
    lemma_norm_sq_nonneg(v);
    lemma_floor_sqrt(n);
    lemma_length_zero(v);
    assert(v.dot(v) == n);
    assert(m * m > 0) by (nonlinear_arith)
        requires
            m > 0,
    ;
    assert((n * scale()) / (m * m) >= scale()) by {
        assert(n * scale() >= (m * m) * scale()) by (nonlinear_arith)
            requires
                n >= m * m,
                scale() > 0,
        ;
        vstd::arithmetic::div_mod::lemma_div_is_ordered((m * m) * scale(), n * scale(), m * m);
        vstd::arithmetic::div_mod::lemma_div_multiples_vanish(scale(), m * m);
    }
}

/// A vector and its opposite make a straight angle: the cosine is exactly
/// minus one.
pub proof fn lemma_cos_angle_opposite(v: Vec3)
    requires
        v.bounded(LIMIT as int),
        v.norm_sq() != 0,
    ensures
        spec_cos_angle(v, neg(v)) == Some(-SCALE as i64),
{
    let w = neg(v);
    let m = v.length();
    let n = v.norm_sq();
    assert(w.x == -v.x && w.y == -v.y && w.z == -v.z);
    assert(w.norm_sq() == n) by (nonlinear_arith)
        requires
            w.x == -v.x,
            w.y == -v.y,
            w.z == -v.z,
            n == v.norm_sq(),
    ;
    assert(w.length() == m);
    lemma_norm_sq_nonneg(v);
    lemma_floor_sqrt(n);
    lemma_length_zero(v);
    assert(v.dot(w) == -n) by (nonlinear_arith)
        requires
            w.x == -v.x,
            w.y == -v.y,
            w.z == -v.z,
            n == v.norm_sq(),
    ;
    assert(m * m > 0) by (nonlinear_arith)
        requires
            m > 0,
    ;
    assert((-n * scale()) / (m * m) <= -scale()) by {
        assert(-n * scale() <= (m * m) * (-scale())) by (nonlinear_arith)
            requires
                n >= m * m,
                scale() > 0,
        ;
        vstd::arithmetic::div_mod::lemma_div_is_ordered(-n * scale(), (m * m) * (-scale()), m * m);
        vstd::arithmetic::div_mod::lemma_div_multiples_vanish(-scale(), m * m);
    }
}

/// A vector with no direction makes no defined angle with any vector: the
/// cosine is absent, so `angle_with` gives exactly `HALF_PI`.
pub proof fn lemma_cos_angle_zero(v: Vec3, w: Vec3)
    requires
        w.norm_sq() == 0,
    ensures
        spec_cos_angle(v, w) is None,
        spec_cos_angle(w, v) is None,
{
    lemma_length_zero(w);
}

} // verus!
