//! Surface response: the closed family of materials and the scattering
//! protocol of the integrator.

pub mod dielectric;
pub mod diffuse_light;
pub mod isotropic;
pub mod lambertian;
pub mod metal;

use vstd::prelude::*;
use crate::hittable::HitRecord;
use crate::math::{CMAX, SCALE};
use crate::pdf::cosine::CosinePdf;
use crate::ray::Ray;
use crate::rng::random_vec_in_unit_sphere;
use crate::texture::Texture;
use crate::vec3::Vec3;
use dielectric::Dielectric;
use diffuse_light::DiffuseLight;
use isotropic::Isotropic;
use lambertian::Lambertian;
use metal::Metal;

verus! {

/// How a scattered path continues: a concrete specular ray, or a diffuse
/// density to sample a direction from.
pub enum ScatterType {
    Specular(Ray),
    Diffuse(CosinePdf),
}

/// A material's answer to an incoming ray.
pub struct ScatterRecord {
    pub attenuation: Vec3,
    pub scattered: ScatterType,
}

/// Every material kind a scene can hold.
pub enum Material {
    Lambertian(Lambertian),
    Metal(Metal),
    Dielectric(Dielectric),
    DiffuseLight(DiffuseLight),
    Isotropic(Isotropic),
}

/// Structural sameness of two materials; duplication preserves it.
pub open spec fn material_matches(a: Material, b: Material) -> bool {
    match (a, b) {
        (Material::Lambertian(x), Material::Lambertian(y)) =>
            crate::texture::texture_matches(x.albedo, y.albedo),
        (Material::Metal(x), Material::Metal(y)) => x.albedo == y.albedo && x.fuzz == y.fuzz,
        (Material::Dielectric(x), Material::Dielectric(y)) => x.ref_idx == y.ref_idx,
        (Material::DiffuseLight(x), Material::DiffuseLight(y)) =>
            crate::texture::texture_matches(x.emit, y.emit),
        (Material::Isotropic(x), Material::Isotropic(y)) =>
            crate::texture::texture_matches(x.albedo, y.albedo),
        _ => false,
    }
}

/// Every material matches itself.
pub proof fn lemma_material_matches_reflexive(a: Material)
    ensures
        material_matches(a, a),
{
    match a {
        Material::Lambertian(x) => {
            crate::texture::lemma_texture_matches_reflexive(x.albedo);
        },
        Material::DiffuseLight(x) => {
            crate::texture::lemma_texture_matches_reflexive(x.emit);
        },
        Material::Isotropic(x) => {
            crate::texture::lemma_texture_matches_reflexive(x.albedo);
        },
        _ => {},
    }
}

/// Matching materials are well-formed together.
pub proof fn lemma_material_matches_wf(a: Material, b: Material)
    requires
        material_matches(a, b),
    ensures
        a.wf() == b.wf(),
{
    match (a, b) {
        (Material::Lambertian(x), Material::Lambertian(y)) => {
            crate::texture::lemma_texture_matches_wf(x.albedo, y.albedo);
        },
        (Material::DiffuseLight(x), Material::DiffuseLight(y)) => {
            crate::texture::lemma_texture_matches_wf(x.emit, y.emit);
        },
        (Material::Isotropic(x), Material::Isotropic(y)) => {
            crate::texture::lemma_texture_matches_wf(x.albedo, y.albedo);
        },
        _ => {},
    }
}

impl Material {
    /// A structural duplicate, so many surfaces can share one material
    /// description.
    pub fn dup(&self) -> (r: Material)
        ensures
            material_matches(*self, r),
            self.wf() ==> r.wf(),
    {
        let r = match self {
            Material::Lambertian(m) => Material::Lambertian(Lambertian { albedo: m.albedo.dup() }),
            Material::Metal(m) => Material::Metal(Metal { albedo: m.albedo, fuzz: m.fuzz }),
            Material::Dielectric(m) => Material::Dielectric(Dielectric { ref_idx: m.ref_idx }),
            Material::DiffuseLight(m) => Material::DiffuseLight(DiffuseLight {
                emit: m.emit.dup(),
            }),
            Material::Isotropic(m) => Material::Isotropic(Isotropic { albedo: m.albedo.dup() }),
        };
        proof {
            lemma_material_matches_wf(*self, r);
        }
        r
    }

    pub open spec fn wf(self) -> bool {
        match self {
            Material::Lambertian(m) => m.wf(),
            Material::Metal(m) => m.wf(),
            Material::Dielectric(m) => m.wf(),
            Material::DiffuseLight(m) => m.wf(),
            Material::Isotropic(m) => m.wf(),
        }
    }

    /// Scatter the incoming ray at `rec`.  A light never scatters; a
    /// diffuse or glass or fog surface always answers; a metal absorbs the
    /// path when fuzz pushes the mirror direction under the surface.
    pub fn scatter(&self, r_in: &Ray, rec: &HitRecord) -> (res: Option<ScatterRecord>)
        requires
            self.wf(),
            r_in.wf(),
            rec.wf_geom(),
        ensures
            self matches Material::DiffuseLight(_) ==> res is None,
            self matches Material::Lambertian(_) ==> res is Some,
            self matches Material::Dielectric(_) ==> res is Some,
            self matches Material::Isotropic(_) ==> res is Some,
            res matches Some(sr) ==> {
                &&& 0 <= sr.attenuation.x <= CMAX
                &&& 0 <= sr.attenuation.y <= CMAX
                &&& 0 <= sr.attenuation.z <= CMAX
                &&& (sr.scattered matches ScatterType::Specular(ray)
                    ==> ray.origin == rec.p && ray.wf())
                &&& (sr.scattered matches ScatterType::Diffuse(pdf) ==> pdf.wf())
            },
            self matches Material::Lambertian(m) ==> (res matches Some(sr) ==> {
                &&& sr.scattered is Diffuse
                &&& (sr.scattered matches ScatterType::Diffuse(pdf)
                    ==> pdf.uvw.axis_w == rec.normal.unit_spec())
                &&& (m.albedo matches Texture::Solid(sc) ==> sr.attenuation == sc.color_value)
            }),
            self matches Material::Metal(m) ==> (res matches Some(sr) ==> {
                let rs = Vec3::reflect_spec(r_in.direction.unit_spec(), rec.normal);
                &&& sr.attenuation == m.albedo
                &&& (sr.scattered matches ScatterType::Specular(ray)
                    ==> Vec3::dot_spec(ray.direction, rec.normal) > 0)
                &&& sr.scattered is Specular
                &&& (sr.scattered matches ScatterType::Specular(ray)
                    ==> exists|rv: Vec3| rv.bounded(SCALE as int)
                        && #[trigger] Vec3::dot_spec(rv, rv) < SCALE * SCALE
                        && ray.direction.x == rs.0 + (rv.x * m.fuzz) / 1024
                        && ray.direction.y == rs.1 + (rv.y * m.fuzz) / 1024
                        && ray.direction.z == rs.2 + (rv.z * m.fuzz) / 1024)
                &&& (m.fuzz == 0 ==> (sr.scattered matches ScatterType::Specular(ray)
                    ==> (ray.direction.x as int, ray.direction.y as int,
                        ray.direction.z as int) == rs))
            }),
            self matches Material::Metal(m) ==> (m.fuzz == 0 ==> ({
                let rs = Vec3::reflect_spec(r_in.direction.unit_spec(), rec.normal);
                (res is Some) <==> rs.0 * rec.normal.x + rs.1 * rec.normal.y
                    + rs.2 * rec.normal.z > 0
            })),
            self matches Material::Dielectric(m) ==> (res matches Some(sr)
                ==> (sr.scattered matches ScatterType::Specular(ray) ==> {
                let unit = r_in.direction.unit_spec();
                let ratio = dielectric::ratio_spec(*m, rec.front_face);
                let cos = dielectric::incidence_cos_spec(unit, rec.normal);
                let sin = dielectric::incidence_sin_spec(cos);
                let dir = (ray.direction.x as int, ray.direction.y as int,
                    ray.direction.z as int);
                &&& sr.attenuation == (Vec3 { x: SCALE, y: SCALE, z: SCALE })
                &&& ray.time == r_in.time
                &&& (dir == Vec3::reflect_spec(unit, rec.normal)
                    || dir == Vec3::refract_spec(unit, rec.normal, ratio))
                &&& (dielectric::total_internal_reflection_spec(ratio, sin)
                    ==> dir == Vec3::reflect_spec(unit, rec.normal))
                &&& (!dielectric::total_internal_reflection_spec(ratio, sin)
                    && dielectric::reflectance_spec(cos, ratio) <= 0
                    ==> dir == Vec3::refract_spec(unit, rec.normal, ratio))
                &&& (!dielectric::total_internal_reflection_spec(ratio, sin)
                    && dielectric::reflectance_spec(cos, ratio) >= SCALE
                    ==> dir == Vec3::reflect_spec(unit, rec.normal))
            })),
            self matches Material::Isotropic(m) ==> (res matches Some(sr) ==> {
                &&& sr.scattered is Specular
                &&& (sr.scattered matches ScatterType::Specular(ray) ==> {
                    &&& ray.time == r_in.time
                    &&& Vec3::dot_spec(ray.direction, ray.direction) < SCALE * SCALE
                })
                &&& (m.albedo matches Texture::Solid(sc) ==> sr.attenuation == sc.color_value)
            }),
    {
        match self {
            Material::Lambertian(m) => {
                let attenuation = m.albedo.value(rec.u, rec.v, &rec.p);
                Some(ScatterRecord {
                    attenuation,
                    scattered: ScatterType::Diffuse(CosinePdf::new(&rec.normal)),
                })
            },
            Material::Metal(m) => {
                let reflected = r_in.direction.normalize().reflect(&rec.normal);
                let rv = random_vec_in_unit_sphere();
                let offset = rv.scale(m.fuzz);
                proof {
                    crate::math::lemma_mul_bound(rv.x as int, m.fuzz as int, 1024, 1024);
                    crate::math::lemma_mul_bound(rv.y as int, m.fuzz as int, 1024, 1024);
                    crate::math::lemma_mul_bound(rv.z as int, m.fuzz as int, 1024, 1024);
                    crate::math::lemma_div_bound(rv.x * m.fuzz, 1024, 1024);
                    crate::math::lemma_div_bound(rv.y * m.fuzz, 1024, 1024);
                    crate::math::lemma_div_bound(rv.z * m.fuzz, 1024, 1024);
                }
                let direction = Vec3 {
                    x: reflected.x + offset.x,
                    y: reflected.y + offset.y,
                    z: reflected.z + offset.z,
                };
                proof {
                    crate::math::lemma_mul_bound(direction.x as int, rec.normal.x as int,
                        0x10_0000, 2048);
                    crate::math::lemma_mul_bound(direction.y as int, rec.normal.y as int,
                        0x10_0000, 2048);
                    crate::math::lemma_mul_bound(direction.z as int, rec.normal.z as int,
                        0x10_0000, 2048);
                }
                proof {
                    assert(Vec3::dot_spec(rv, rv) < SCALE * SCALE);
                    if m.fuzz == 0 {
                        assert(rv.x * 0 == 0 && rv.y * 0 == 0 && rv.z * 0 == 0)
                            by (nonlinear_arith);
                        assert(0int / 1024 == 0);
                    }
                }
                if direction.dot(&rec.normal) > 0 {
                    Some(ScatterRecord {
                        attenuation: m.albedo,
                        scattered: ScatterType::Specular(Ray {
                            origin: rec.p,
                            direction,
                            time: 0,
                        }),
                    })
                } else {
                    None
                }
            },
            Material::Dielectric(m) => Some(dielectric::dielectric_scatter(m, r_in, rec)),
            Material::DiffuseLight(_) => None,
            Material::Isotropic(m) => {
                let attenuation = m.albedo.value(rec.u, rec.v, &rec.p);
                Some(ScatterRecord {
                    attenuation,
                    scattered: ScatterType::Specular(Ray {
                        origin: rec.p,
                        direction: random_vec_in_unit_sphere(),
                        time: r_in.time,
                    }),
                })
            },
        }
    }

    /// The density a diffuse surface assigns to the chosen outgoing ray;
    /// zero for every non-diffuse material.
    pub fn scattering_pdf(&self, _r_in: &Ray, rec: &HitRecord, scattered: &Ray) -> (r: i64)
        requires
            self.wf(),
            rec.wf_geom(),
            scattered.wf(),
        ensures
            0 <= r <= SCALE,
            !(self matches Material::Lambertian(_)) ==> r == 0,
            self matches Material::Lambertian(_) ==> r
                == crate::pdf::cosine::cosine_density_spec(rec.normal, scattered.direction),
    {
        match self {
            Material::Lambertian(_) => lambertian::lambertian_scattering_pdf(
                &rec.normal, &scattered.direction),
            _ => 0,
        }
    }

    /// Emitted radiance: only a light emits, and only on its front face.
    pub fn emitted(&self, _r_in: &Ray, rec: &HitRecord, u: i64, v: i64, p: Vec3) -> (c: Vec3)
        requires
            self.wf(),
            p.in_range(),
        ensures
            0 <= c.x <= CMAX,
            0 <= c.y <= CMAX,
            0 <= c.z <= CMAX,
            !(self matches Material::DiffuseLight(_)) ==> c == (Vec3 { x: 0i64, y: 0i64, z: 0i64 }),
            self matches Material::DiffuseLight(_) ==> (!rec.front_face
                ==> c == (Vec3 { x: 0i64, y: 0i64, z: 0i64 })),
            self matches Material::DiffuseLight(m) ==> (rec.front_face
                ==> (m.emit matches Texture::Solid(sc) ==> c == sc.color_value)),
    {
        match self {
            Material::DiffuseLight(m) => {
                if rec.front_face {
                    m.emit.value(u, v, &p)
                } else {
                    Vec3 { x: 0, y: 0, z: 0 }
                }
            },
            _ => Vec3 { x: 0, y: 0, z: 0 },
        }
    }
}

} // verus!
