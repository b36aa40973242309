//! A constant-density volume bounded by another surface.

use vstd::prelude::*;
use crate::hittable::Hittable;
use crate::material::Material;
use crate::material::isotropic::Isotropic;
use crate::texture::Texture;
use crate::vec3::Vec3;

verus! {

pub struct ConstantMedium {
    pub boundary: Box<Hittable>,
    pub phase_function: Material,
    pub density: i64,
}

impl ConstantMedium {
    pub fn new(boundary: Box<Hittable>, density: i64, albedo: Texture) -> (s: ConstantMedium)
        requires
            1 <= density,
        ensures
            s.boundary == boundary,
            s.density == density,
            s.phase_function == Material::Isotropic(Isotropic { albedo }),
    {
        ConstantMedium {
            boundary,
            density,
            phase_function: Material::Isotropic(Isotropic::new(albedo)),
        }
    }

    pub fn new_color(boundary: Box<Hittable>, density: i64, color: Vec3) -> (s: ConstantMedium)
        requires
            1 <= density,
        ensures
            s.boundary == boundary,
            s.density == density,
    {
        ConstantMedium {
            boundary,
            density,
            phase_function: Material::Isotropic(Isotropic::new_color(color)),
        }
    }
}

} // verus!
