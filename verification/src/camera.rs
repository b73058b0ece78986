//! The camera.

use vstd::prelude::*;
use crate::scalar::Scalar;
use crate::vec3::Vec3;

verus! {

/// A thin-lens camera: where it stands, the frame it looks through, the
/// basis that its lens lies in, the radius of the lens and the span of time
/// during which its shutter is open.
#[derive(Clone, Copy, Debug)]
pub struct Camera {
    pub origin: Vec3,
    pub lower_left: Vec3,
    pub horizontal: Vec3,
    pub vertical: Vec3,
    pub u: Vec3,
    pub v: Vec3,
    pub w: Vec3,
    pub lens_radius: Scalar,
    pub time0: Scalar,
    pub time1: Scalar,
}

} // verus!
