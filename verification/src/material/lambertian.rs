//! The diffuse material: cosine-weighted scattering tinted by a texture.

use vstd::prelude::*;
use crate::math::{SCALE, PI_FP, clamp64, div_floor};
use crate::pdf::cosine::CosinePdf;
use crate::texture::Texture;
use crate::texture::solid_color::SolidColor;
use crate::vec3::Vec3;

verus! {

pub struct Lambertian {
    pub albedo: Texture,
}

impl Lambertian {
    pub open spec fn wf(self) -> bool {
        self.albedo.wf()
    }

    pub fn new(albedo: Texture) -> (m: Lambertian)
        ensures
            m.albedo == albedo,
    {
        Lambertian { albedo }
    }

    pub fn new_color(albedo: Vec3) -> (m: Lambertian)
        ensures
            m.albedo == Texture::Solid(SolidColor { color_value: albedo }),
    {
        Lambertian { albedo: Texture::Solid(SolidColor { color_value: albedo }) }
    }
}

/// The diffuse density `max(0, cos(theta)) / pi` of the outgoing direction
/// against the surface normal: exactly the cosine-weighted density the
/// material's own sampler carries, so the estimator's numerator and the
/// mixture's denominator speak of the same distribution.
pub fn lambertian_scattering_pdf(normal: &Vec3, scattered_dir: &Vec3) -> (r: i64)
    requires
        normal.bounded(2 * SCALE as int),
        scattered_dir.bounded(0x4000_0000),
    ensures
        0 <= r <= SCALE,
        r == crate::pdf::cosine::cosine_density_spec(*normal, *scattered_dir),
{
    let unit = scattered_dir.normalize();
    proof {
        crate::math::lemma_mul_bound(normal.x as int, unit.x as int, 2048, 1024);
        crate::math::lemma_mul_bound(normal.y as int, unit.y as int, 2048, 1024);
        crate::math::lemma_mul_bound(normal.z as int, unit.z as int, 2048, 1024);
        crate::math::lemma_div_bound(Vec3::dot_spec(unit, *normal), 6144, 1024);
    }
    let cosine = div_floor(unit.dot(normal), SCALE);
    if cosine < 0 {
        0
    } else {
        proof {
            crate::math::lemma_div_bound(cosine * 1024, 2048, 3217);
        }
        clamp64(div_floor(cosine * 1024, PI_FP), 0, SCALE)
    }
}

} // verus!
