//! The phase function of a participating medium: uniform scattering.

use vstd::prelude::*;
use crate::texture::Texture;
use crate::texture::solid_color::SolidColor;
use crate::vec3::Vec3;

verus! {

pub struct Isotropic {
    pub albedo: Texture,
}

impl Isotropic {
    pub open spec fn wf(self) -> bool {
        self.albedo.wf()
    }

    pub fn new(albedo: Texture) -> (m: Isotropic)
        ensures
            m.albedo == albedo,
    {
        Isotropic { albedo }
    }

    pub fn new_color(color: Vec3) -> (m: Isotropic)
        ensures
            m.albedo == Texture::Solid(SolidColor { color_value: color }),
    {
        Isotropic { albedo: Texture::Solid(SolidColor { color_value: color }) }
    }
}

} // verus!
