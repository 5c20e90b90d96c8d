use vstd::prelude::*;
use crate::aircraft::{
    dynamic_pressure_area, lift_coefficient_deg, spec_dynamic_pressure_area,
    spec_lift_coefficient_deg, AREA_LIMIT, CLIMB_LIMIT, VELOCITY_LIMIT,
};
use crate::common_math::{
    floor_div, fmul, lemma_fmul_bound, mul_fixed, rad_to_deg,
    scale, spec_rad_to_deg, spec_transform, within, Angles, AnglesTrig, Vec3, ANGLE_LIMIT, LIMIT,
    PI, SCALE,
};

verus! {

/// Bound on a wing's parasitic drag coefficient.
pub const CDO_LIMIT: i64 = 10_000_000;

/// One aerodynamic surface: where it is mounted and at what orientation, its
/// area (m^2), aspect ratio and parasitic drag coefficient.
#[derive(Clone, Copy, Debug, PartialEq, Eq)]
pub struct Wing {
    pub position: Vec3,
    pub area: i64,
    pub aspect_ratio: i64,
    pub cdo: i64,
    pub pointing: Angles,
}

/// Angle of attack of the wing, degrees: the climb angle `climb` (radians)
/// of the freestream plus the mounting pitch.
pub open spec fn spec_wing_alpha_deg(w: Wing, climb: int) -> int {
    spec_rad_to_deg(climb) + w.pointing.altitude
}

/// Drag coefficient from the lift coefficient: `CL^2 / (pi * AR) + CDo`.
pub open spec fn spec_wing_drag_coefficient(w: Wing, cl: int) -> int {
    (cl * cl * scale()) / (PI * w.aspect_ratio) + w.cdo
}

/// `0.5 * rho * |u|^2 * area` for the freestream `u`.
pub open spec fn spec_wing_pressure_area(w: Wing, u: Vec3) -> int {
    spec_dynamic_pressure_area(u, w.area as int)
}

/// Lift along body z and drag along body -x, turned by the mounting
/// orientation (whose sines and cosines are `trig`).
pub open spec fn spec_aero_forces(w: Wing, u: Vec3, climb: int, trig: AnglesTrig) -> Vec3 {
    let cl = spec_lift_coefficient_deg(spec_wing_alpha_deg(w, climb));
    let cd = spec_wing_drag_coefficient(w, cl);
    let qa = spec_wing_pressure_area(w, u);
    let body = Vec3 { x: (-fmul(qa, cd)) as i64, y: 0, z: fmul(qa, cl) as i64 };
    spec_transform(body, w.pointing, trig)
}

impl Wing {
    pub open spec fn wf(&self) -> bool {
        &&& 0 <= self.area <= AREA_LIMIT
        &&& SCALE <= self.aspect_ratio <= LIMIT
        &&& 0 <= self.cdo <= CDO_LIMIT
        &&& self.pointing.bounded(ANGLE_LIMIT as int)
    }

    pub fn new(position: Vec3, area: i64, aspect_ratio: i64, cdo: i64, pointing: Angles) -> (r:
        Wing)
        ensures
            r == (Wing { position, area, aspect_ratio, cdo, pointing }),
    {
        Wing { position, area, aspect_ratio, cdo, pointing }
    }

    /// Force on the wing in the freestream `freestream`, whose climb angle
    /// (radians) is `climb`, for the sines and cosines `trig` of the wing's
    /// mounting orientation.
    pub fn aero_forces(&self, freestream: &Vec3, climb: i64, trig: &AnglesTrig) -> (r: Vec3)
        requires
            self.wf(),
            freestream.bounded(VELOCITY_LIMIT as int),
            within(climb as int, CLIMB_LIMIT as int),
            trig.wf(),
        ensures
            r == spec_aero_forces(*self, *freestream, climb as int, *trig),
    {
        let alpha_deg = rad_to_deg(climb) as i128 + self.pointing.altitude as i128;
        proof {
            assert(scale() == 1_000_000);
            assert(within((climb * 180 * scale()) / (PI as int), 300_000_000)) by (
            nonlinear_arith)
                requires
                    within(climb as int, CLIMB_LIMIT as int),
            ;
        }
        let cl = lift_coefficient_deg(alpha_deg as i64);
        proof {
            assert(0 <= cl * cl * scale() <= 1_440_000_000_000_000_000) by (nonlinear_arith)
                requires
                    -800_000 <= cl <= 1_200_000,
                    scale() == 1_000_000,
            ;
            assert(PI * self.aspect_ratio >= 3_000_000_000_000) by (nonlinear_arith)
                requires
                    self.aspect_ratio >= 1_000_000,
            ;
            assert((cl * cl * scale()) / (PI * self.aspect_ratio) <= 1_000_000) by (
            nonlinear_arith)
                requires
                    0 <= cl * cl * scale() <= 1_440_000_000_000_000_000,
                    PI * self.aspect_ratio >= 3_000_000_000_000,
            ;
            assert((cl * cl * scale()) / (PI * self.aspect_ratio) >= 0) by (nonlinear_arith)
                requires
                    0 <= cl * cl * scale(),
                    PI * self.aspect_ratio >= 3_000_000_000_000,
            ;
        }
        let c = cl as i128;
        let cdi = floor_div(c * c * SCALE as i128, PI as i128 * self.aspect_ratio as i128);
        let cd = cdi as i64 + self.cdo;
        let qa = dynamic_pressure_area(freestream, self.area);
        proof {
            lemma_fmul_bound(qa as int, cl as int, 20_000_000_000_000_000, 1_200_000);
            lemma_fmul_bound(qa as int, cd as int, 20_000_000_000_000_000, 11_000_000);
        }
        let lift = mul_fixed(qa, cl);
        let drag = mul_fixed(qa, cd);
        let body = Vec3 { x: -drag, y: 0, z: lift };
        body.transform_coordinates(&self.pointing, trig)
    }
}

} // verus!
