//! The sphere primitive: quadratic intersection, spherical texture
//! coordinates, and solid-angle importance sampling.

use vstd::prelude::*;
use crate::aabb::Aabb;
use crate::hittable::{HitData, HitRecord, oriented_normal};
use crate::material::Material;
use crate::math::{PI_FP, SCALE, TAU_FP, VMAX, acos_spec, acos_fp, atan2_spec, atan2_fp, div_floor, div_floor_wide, isqrt, mod_floor, sqrt_floor};
use crate::onb::Onb;
use crate::ray::Ray;
use crate::rng::random_in_range;
use crate::vec3::Vec3;

verus! {

pub struct Sphere {
    pub center: Vec3,
    pub radius: i64,
    pub mat: Material,
}

/// Texture coordinates of a unit-scale outward normal, from its spherical
/// angles.
pub open spec fn sphere_uv_spec(p: Vec3) -> (int, int) {
    let theta = acos_spec(-p.y);
    let phi = (atan2_spec(-p.z, p.x as int) + PI_FP) % (TAU_FP as int);
    ((phi * 1024) / (TAU_FP as int), (theta * 1024) / (PI_FP as int))
}

impl Sphere {
    pub open spec fn wf(self) -> bool {
        self.center.in_range()
            && 1 <= self.radius <= VMAX
            && -VMAX <= self.center.x - self.radius
            && self.center.x + self.radius <= VMAX
            && -VMAX <= self.center.y - self.radius
            && self.center.y + self.radius <= VMAX
            && -VMAX <= self.center.z - self.radius
            && self.center.z + self.radius <= VMAX
            && self.mat.wf()
    }

    /// The tight box around the sphere.
    pub open spec fn bbox(self) -> Aabb {
        Aabb {
            min: Vec3 {
                x: (self.center.x - self.radius) as i64,
                y: (self.center.y - self.radius) as i64,
                z: (self.center.z - self.radius) as i64,
            },
            max: Vec3 {
                x: (self.center.x + self.radius) as i64,
                y: (self.center.y + self.radius) as i64,
                z: (self.center.z + self.radius) as i64,
            },
        }
    }

    pub fn new(center: Vec3, radius: i64, mat: Material) -> (s: Sphere)
        ensures
            s.center == center,
            s.radius == radius,
            s.mat == mat,
    {
        Sphere { center, radius, mat }
    }

    /// Texture coordinates of the unit-scale outward normal `p`.
    pub fn get_uv(p: Vec3) -> (uv: (i64, i64))
        requires
            p.bounded(SCALE as int),
        ensures
            (uv.0 as int, uv.1 as int) == sphere_uv_spec(p),
            0 <= uv.0 <= SCALE,
            0 <= uv.1 <= SCALE,
    {
        let theta = acos_fp(-p.y);
        let phi0 = atan2_fp(-p.z, p.x);
        let phi = mod_floor(phi0 + PI_FP, TAU_FP);
        proof {
            crate::math::lemma_div_bound(phi * 1024, 1024, 6434);
            crate::math::lemma_div_bound(theta * 1024, 1024, 3217);
        }
        let u = div_floor(phi * 1024, TAU_FP);
        let v = div_floor(theta * 1024, PI_FP);
        (u, v)
    }
}

/// What the quadratic sphere intersection returns: the nearest root of
/// `a t^2 + 2 half_b t + c = 0` inside the open window whose point lies in
/// the sphere's box, with its oriented unit normal and texture coordinates.
pub open spec fn sphere_hit_spec(s: Sphere, r: Ray, t_min: int, t_max: int) -> Option<HitData> {
    let a = Vec3::dot_spec(r.direction, r.direction);
    if a <= 0 {
        None
    } else {
        let ocx = r.origin.x - s.center.x;
        let ocy = r.origin.y - s.center.y;
        let ocz = r.origin.z - s.center.z;
        let half_b = ocx * r.direction.x + ocy * r.direction.y + ocz * r.direction.z;
        let c = ocx * ocx + ocy * ocy + ocz * ocz - s.radius * s.radius;
        let disc = half_b * half_b - a * c;
        if disc < 0 {
            None
        } else {
            let sq = sqrt_floor(disc);
            let root1 = ((-half_b - sq) * 1024) / a;
            let root = if t_min < root1 < t_max {
                root1
            } else {
                ((-half_b + sq) * 1024) / a
            };
            if !(t_min < root < t_max) {
                None
            } else {
                sphere_hit_at(s, r, root)
            }
        }
    }
}

/// The record a sphere hit at parameter `root` produces, if the reached
/// point lies in the sphere's box.
pub open spec fn sphere_hit_at(s: Sphere, r: Ray, root: int) -> Option<HitData> {
    let px = r.at_axis(root, 0);
    let py = r.at_axis(root, 1);
    let pz = r.at_axis(root, 2);
    if !(s.center.x - s.radius <= px <= s.center.x + s.radius
        && s.center.y - s.radius <= py <= s.center.y + s.radius
        && s.center.z - s.radius <= pz <= s.center.z + s.radius) {
        None
    } else {
        let outward = Vec3 {
            x: (((px - s.center.x) * 1024) / (s.radius as int)) as i64,
            y: (((py - s.center.y) * 1024) / (s.radius as int)) as i64,
            z: (((pz - s.center.z) * 1024) / (s.radius as int)) as i64,
        };
        let uv = sphere_uv_spec(outward);
        Some(HitData {
            p: Vec3 { x: px as i64, y: py as i64, z: pz as i64 },
            normal: oriented_normal(r.direction, outward),
            t: root as i64,
            u: uv.0 as i64,
            v: uv.1 as i64,
            front_face: Vec3::dot_spec(r.direction, outward) < 0,
            mat: s.mat,
        })
    }
}

impl Sphere {
    /// The nearest quadratic intersection inside the open window, exactly
    /// as `sphere_hit_spec` states it.
    pub fn hit(&self, ray: &Ray, t_min: i64, t_max: i64) -> (res: Option<HitRecord<'_>>)
        requires
            self.wf(),
            ray.wf(),
            -crate::math::TMAX < t_min,
            t_max < crate::math::TMAX,
        ensures
            match (res, sphere_hit_spec(*self, *ray, t_min as int, t_max as int)) {
                (Option::None, Option::None) => true,
                (Option::Some(rec), Option::Some(hd)) => rec.agrees(hd),
                _ => false,
            },
    {
        let a = ray.direction.dot(&ray.direction);
        if a <= 0 {
            return None;
        }
        let oc = ray.origin.sub(&self.center);
        proof {
            crate::math::lemma_mul_bound(oc.x as int, ray.direction.x as int,
                0x4000_0000, 0x200_0000);
            crate::math::lemma_mul_bound(oc.y as int, ray.direction.y as int,
                0x4000_0000, 0x200_0000);
            crate::math::lemma_mul_bound(oc.z as int, ray.direction.z as int,
                0x4000_0000, 0x200_0000);
            crate::math::lemma_mul_bound(oc.x as int, oc.x as int, 0x4000_0000, 0x4000_0000);
            crate::math::lemma_mul_bound(oc.y as int, oc.y as int, 0x4000_0000, 0x4000_0000);
            crate::math::lemma_mul_bound(oc.z as int, oc.z as int, 0x4000_0000, 0x4000_0000);
            crate::math::lemma_mul_bound(ray.direction.x as int, ray.direction.x as int,
                0x200_0000, 0x200_0000);
            crate::math::lemma_mul_bound(ray.direction.y as int, ray.direction.y as int,
                0x200_0000, 0x200_0000);
            crate::math::lemma_mul_bound(ray.direction.z as int, ray.direction.z as int,
                0x200_0000, 0x200_0000);
            crate::math::lemma_mul_bound(self.radius as int, self.radius as int,
                0x100_0000, 0x100_0000);
            assert(self.radius * self.radius >= 0) by (nonlinear_arith);
            crate::vec3::lemma_dot_self_nonneg(oc);
        }
        let half_b = oc.dot(&ray.direction);
        let c = oc.dot(&oc) - self.radius * self.radius;
        proof {
            crate::math::lemma_mul_bound(half_b as int, half_b as int,
                0x180_0000_0000_0000, 0x180_0000_0000_0000);
            crate::math::lemma_mul_bound(a as int, c as int,
                0xC_0000_0000_0000, 0x3000_0000_0000_0000);
        }
        let disc: i128 = (half_b as i128) * (half_b as i128) - (a as i128) * (c as i128);
        if disc < 0 {
            return None;
        }
        let sq = isqrt(disc as u128) as i128;
        proof {
            assert(sq * sq <= disc) by (nonlinear_arith)
                requires
                    sq >= 0,
                    (sq as int) * (sq as int) <= disc,
            ;
            assert(sq <= 0x2_0000_0000_0000_0000i128) by (nonlinear_arith)
                requires
                    sq * sq <= disc,
                    disc <= 0x4000_0000_0000_0000_0000_0000_0000_0000 - 1,
                    sq >= 0,
            ;
        }
        let nb: i128 = -(half_b as i128);
        let root1w = div_floor_wide((nb - sq) * 1024, a as i128);
        let root: i64;
        if (t_min as i128) < root1w && root1w < (t_max as i128) {
            root = root1w as i64;
        } else {
            let root2w = div_floor_wide((nb + sq) * 1024, a as i128);
            if (t_min as i128) < root2w && root2w < (t_max as i128) {
                root = root2w as i64;
            } else {
                return None;
            }
        }
        self.hit_at(ray, root)
    }

    /// Finish a hit at a known root: reject points outside the box, then
    /// build the record.
    fn hit_at(&self, ray: &Ray, root: i64) -> (res: Option<HitRecord<'_>>)
        requires
            self.wf(),
            ray.wf(),
            -crate::math::TMAX < root < crate::math::TMAX,
        ensures
            match (res, sphere_hit_at(*self, *ray, root as int)) {
                (Option::None, Option::None) => true,
                (Option::Some(rec), Option::Some(hd)) => rec.agrees(hd),
                _ => false,
            },
    {
        let p = ray.at(root);
        if !(self.center.x - self.radius <= p.x && p.x <= self.center.x + self.radius
            && self.center.y - self.radius <= p.y && p.y <= self.center.y + self.radius
            && self.center.z - self.radius <= p.z && p.z <= self.center.z + self.radius) {
            return None;
        }
        proof {
            lemma_scaled_radius(p.x as int, self.center.x as int, self.radius as int);
            lemma_scaled_radius(p.y as int, self.center.y as int, self.radius as int);
            lemma_scaled_radius(p.z as int, self.center.z as int, self.radius as int);
        }
        let outward = Vec3 {
            x: div_floor((p.x - self.center.x) * 1024, self.radius),
            y: div_floor((p.y - self.center.y) * 1024, self.radius),
            z: div_floor((p.z - self.center.z) * 1024, self.radius),
        };
        let uv = Sphere::get_uv(outward);
        Some(HitRecord::new(p, outward, root, uv.0, uv.1, ray, &self.mat))
    }
}

/// A displacement within `radius`, rescaled by `SCALE / radius`, stays
/// within one unit.
pub proof fn lemma_scaled_radius(p: int, c: int, radius: int)
    requires
        1 <= radius,
        c - radius <= p <= c + radius,
    ensures
        -1024 <= ((p - c) * 1024) / radius <= 1024,
        -(radius * 1024) <= (p - c) * 1024 <= radius * 1024,
{
    assert(-(radius * 1024) <= (p - c) * 1024 <= radius * 1024) by (nonlinear_arith)
        requires
            -radius <= p - c <= radius,
    ;
    crate::math::lemma_div_bound((p - c) * 1024, 1024, radius);
    assert(radius * 1024 == 1024 * radius);
}


/// A direction inside the cone subtended by a sphere of radius `radius`
/// seen from squared distance `dd`, in the local frame whose third axis
/// points at the sphere.
fn random_to_sphere(radius: i64, dd: i64) -> (v: Vec3)
    requires
        1 <= radius <= crate::math::VMAX,
        1 <= dd,
    ensures
        v.bounded(2 * SCALE as int),
        v.z >= 0,
{
    let r1 = random_in_range(0, SCALE);
    let r2 = random_in_range(0, SCALE);
    proof {
        crate::math::lemma_mul_bound(radius as int, radius as int, 0x100_0000, 0x100_0000);
    }
    let rr: i128 = (radius as i128) * (radius as i128);
    let q128 = div_floor_wide(rr * 1048576, dd as i128);
    let q = if q128 > 1048576 {
        1048576i64
    } else if q128 < 0 {
        0i64
    } else {
        q128 as i64
    };
    let zm = isqrt((1048576 - q) as u128);
    proof {
        assert(zm <= 1024) by (nonlinear_arith)
            requires
                (zm as int) * (zm as int) <= 1048576,
                zm >= 0,
        ;
    }
    let zmax = zm as i64;
    proof {
        crate::math::lemma_mul_bound(r2 as int, (SCALE - zmax) as int, 1024, 1024);
        crate::math::lemma_div_bound(r2 * (SCALE - zmax), 1024, 1024);
    }
    proof {
        assert(r2 * (SCALE - zmax) <= 1024 * (SCALE - zmax)) by (nonlinear_arith)
            requires
                0 <= r2 < 1024,
                0 <= SCALE - zmax,
                SCALE == 1024,
        ;
        vstd::arithmetic::div_mod::lemma_div_is_ordered(r2 * (SCALE - zmax),
            1024 * (SCALE - zmax), 1024);
        vstd::arithmetic::div_mod::lemma_div_multiples_vanish((SCALE - zmax) as int, 1024);
    }
    let z = SCALE - div_floor(r2 * (SCALE - zmax), SCALE);
    proof {
        crate::math::lemma_mul_bound(r1 as int, crate::math::TAU_FP as int, 1024, 6434);
        crate::math::lemma_div_bound(r1 * crate::math::TAU_FP, 6434, 1024);
        crate::math::lemma_mul_bound(z as int, z as int, 2048, 2048);
        assert(z * z >= 0) by (nonlinear_arith);
    }
    let phi = div_floor(r1 * crate::math::TAU_FP, SCALE);
    let s2 = 1048576 - z * z;
    let s2c = if s2 >= 0 { s2 } else { 0 };
    let sq = isqrt(s2c as u128);
    proof {
        assert(sq <= 1024) by (nonlinear_arith)
            requires
                (sq as int) * (sq as int) <= 1048576,
                sq >= 0,
        ;
    }
    let sz = sq as i64;
    let cph = crate::math::cos_fp(phi);
    let sph = crate::math::sin_fp(phi);
    proof {
        crate::math::lemma_mul_bound(cph as int, sz as int, 1024, 1024);
        crate::math::lemma_mul_bound(sph as int, sz as int, 1024, 1024);
        crate::math::lemma_div_bound(cph * sz, 1024, 1024);
        crate::math::lemma_div_bound(sph * sz, 1024, 1024);
    }
    Vec3 {
        x: div_floor(cph * sz, SCALE),
        y: div_floor(sph * sz, SCALE),
        z,
    }
}

/// The value `pdf_value` computes: zero when a probe ray from `o` along
/// `v` misses the sphere or starts inside it, else the reciprocal of the
/// solid angle of the visible cone, `1 / (2 pi (1 - cos_theta_max))` with
/// `cos_theta_max = sqrt(1 - r^2 / |C - o|^2)`, in fixed point.
pub open spec fn sphere_pdf_value_spec(s: Sphere, o: Vec3, v: Vec3) -> int {
    let probe = Ray { origin: o, direction: v, time: 0i64 };
    if sphere_hit_spec(s, probe, 1, crate::math::TMAX - 1) is None {
        0
    } else {
        let ocx = s.center.x - o.x;
        let ocy = s.center.y - o.y;
        let ocz = s.center.z - o.z;
        let dd = ocx * ocx + ocy * ocy + ocz * ocz;
        if dd <= s.radius * s.radius {
            0
        } else {
            let q0 = (s.radius * s.radius * 1048576) / dd;
            let q = if q0 > 1048576 { 1048576int } else if q0 < 0 { 0int } else { q0 };
            let cos_max = sqrt_floor(1048576 - q);
            let solid = (crate::math::TAU_FP * (1024 - cos_max)) / 1024;
            if solid <= 0 {
                0
            } else {
                1048576int / solid
            }
        }
    }
}

impl Sphere {
    /// The density of sampling `v` from `o` toward this sphere: exactly
    /// the reciprocal solid angle `sphere_pdf_value_spec` states.
    pub fn pdf_value(&self, o: Vec3, v: Vec3) -> (r: i64)
        requires
            self.wf(),
            o.in_range(),
            v.bounded(0x200_0000),
        ensures
            0 <= r <= crate::math::CMAX,
            r == sphere_pdf_value_spec(*self, o, v),
    {
        let probe = Ray { origin: o, direction: v, time: 0 };
        match self.hit(&probe, 1, crate::math::TMAX - 1) {
            Option::Some(_) => {},
            Option::None => {
                return 0;
            },
        }
        let oc = self.center.sub(&o);
        proof {
            crate::math::lemma_mul_bound(oc.x as int, oc.x as int, 0x200_0000, 0x200_0000);
            crate::math::lemma_mul_bound(oc.y as int, oc.y as int, 0x200_0000, 0x200_0000);
            crate::math::lemma_mul_bound(oc.z as int, oc.z as int, 0x200_0000, 0x200_0000);
            crate::math::lemma_mul_bound(self.radius as int, self.radius as int,
                0x100_0000, 0x100_0000);
        }
        let dd = oc.dot(&oc);
        if dd <= self.radius * self.radius {
            return 0;
        }
        let rr: i128 = (self.radius as i128) * (self.radius as i128);
        let q128 = div_floor_wide(rr * 1048576, dd as i128);
        let q = if q128 > 1048576 {
            1048576i64
        } else if q128 < 0 {
            0i64
        } else {
            q128 as i64
        };
        let cm = isqrt((1048576 - q) as u128);
        proof {
            assert(cm <= 1024) by (nonlinear_arith)
                requires
                    (cm as int) * (cm as int) <= 1048576,
                    cm >= 0,
            ;
        }
        let cos_max = cm as i64;
        proof {
            crate::math::lemma_mul_bound(crate::math::TAU_FP as int, (SCALE - cos_max) as int,
                6434, 1024);
            crate::math::lemma_div_bound(crate::math::TAU_FP * (SCALE - cos_max), 6434, 1024);
        }
        let solid_angle = div_floor(crate::math::TAU_FP * (SCALE - cos_max), SCALE);
        if solid_angle <= 0 {
            return 0;
        }
        proof {
            crate::math::lemma_div_bound(1048576, 1048576, solid_angle as int);
            assert(1048576 * (solid_angle as int) >= 1048576) by (nonlinear_arith)
                requires
                    solid_angle >= 1,
            ;
        }
        div_floor(1048576, solid_angle)
    }

    /// A direction from `o` toward a point uniformly chosen on the visible
    /// cone of the sphere: every outcome is the image, in a frame whose
    /// third axis points at the sphere's center, of local coordinates in
    /// the forward half-space.
    pub fn random(&self, o: Vec3) -> (r: Vec3)
        requires
            self.wf(),
            o.in_range(),
        ensures
            r.bounded(0x200_0000),
            ({
                let oc = Vec3 {
                    x: (self.center.x - o.x) as i64,
                    y: (self.center.y - o.y) as i64,
                    z: (self.center.z - o.z) as i64,
                };
                Vec3::dot_spec(oc, oc) > 0 ==> exists|frame: Onb, d: Vec3|
                    frame.wf() && frame.axis_w == oc.unit_spec()
                        && d.bounded(2 * SCALE as int) && d.z >= 0
                        && #[trigger] frame.is_local_image(d, r)
            }),
    {
        let direction = self.center.sub(&o);
        proof {
            crate::math::lemma_mul_bound(direction.x as int, direction.x as int,
                0x200_0000, 0x200_0000);
            crate::math::lemma_mul_bound(direction.y as int, direction.y as int,
                0x200_0000, 0x200_0000);
            crate::math::lemma_mul_bound(direction.z as int, direction.z as int,
                0x200_0000, 0x200_0000);
        }
        let dd = direction.dot(&direction);
        if dd <= 0 {
            return Vec3 { x: SCALE, y: 0, z: 0 };
        }
        let uvw = Onb::from_w(&direction);
        let d = random_to_sphere(self.radius, dd);
        let r = uvw.local(d);
        proof {
            assert(uvw.is_local_image(d, r));
        }
        r
    }
}

} // verus!
