//! The mirror material, with an optional fuzz perturbation.

use vstd::prelude::*;
use crate::math::CMAX;
use crate::vec3::Vec3;

verus! {

pub struct Metal {
    pub albedo: Vec3,
    pub fuzz: i64,
}

impl Metal {
    pub open spec fn wf(self) -> bool {
        0 <= self.albedo.x <= CMAX && 0 <= self.albedo.y <= CMAX && 0 <= self.albedo.z <= CMAX
            && 0 <= self.fuzz <= crate::math::SCALE
    }

    pub fn new(albedo: Vec3, fuzz: i64) -> (m: Metal)
        ensures
            m.albedo == albedo,
            m.fuzz == fuzz,
    {
        Metal { albedo, fuzz }
    }
}

} // verus!
