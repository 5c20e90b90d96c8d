// Flight-dynamics core of a light-aircraft simulator, in fixed point: vector
// and orientation math, the aerodynamic force model, and the integrator.
use vstd::prelude::*;

pub mod common_math;
pub mod text;
pub mod state;
pub mod camera;
pub mod aircraft;
pub mod wing;
pub mod displays;

verus! {

} // verus!
