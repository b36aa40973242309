//! A sphere whose center moves linearly between two keyframes.

use vstd::prelude::*;
use crate::aabb::Aabb;
use crate::hittable::{HitData, HitRecord, oriented_normal};
use crate::material::Material;
use crate::math::{SCALE, TMAX, VMAX, clamp64, div_floor, div_floor_wide, isqrt, sqrt_floor};
use crate::ray::Ray;
use crate::vec3::Vec3;

verus! {

pub struct MovingSphere {
    pub center0: Vec3,
    pub center1: Vec3,
    pub time0: i64,
    pub time1: i64,
    pub radius: i64,
    pub mat: Material,
}

/// The interpolation weight the sphere uses at `time`, clamped into one
/// unit so rays outside the keyframe span read an endpoint.
pub open spec fn center_weight_spec(s: MovingSphere, time: int) -> int {
    let k = ((time - s.time0) * 1024) / (s.time1 - s.time0);
    if k < 0 {
        0
    } else if k > 1024 {
        1024
    } else {
        k
    }
}

/// The interpolated center at `time`.
pub open spec fn center_spec(s: MovingSphere, time: int) -> (int, int, int) {
    let k = center_weight_spec(s, time);
    (
        s.center0.x + ((s.center1.x - s.center0.x) * k) / 1024,
        s.center0.y + ((s.center1.y - s.center0.y) * k) / 1024,
        s.center0.z + ((s.center1.z - s.center0.z) * k) / 1024,
    )
}

pub open spec fn moving_sphere_hit_spec(s: MovingSphere, r: Ray, t_min: int, t_max: int)
    -> Option<HitData> {
    let a = Vec3::dot_spec(r.direction, r.direction);
    if a <= 0 {
        None
    } else {
        let ctr = center_spec(s, r.time as int);
        let ocx = r.origin.x - ctr.0;
        let ocy = r.origin.y - ctr.1;
        let ocz = r.origin.z - ctr.2;
        let half_b = ocx * r.direction.x + ocy * r.direction.y + ocz * r.direction.z;
        let c = ocx * ocx + ocy * ocy + ocz * ocz - s.radius * s.radius;
        let disc = half_b * half_b - a * c;
        if disc < 0 {
            None
        } else {
            let sq = sqrt_floor(disc);
            let root1 = ((-half_b - sq) * 1024) / a;
            let root = if t_min < root1 < t_max {
                root1
            } else {
                ((-half_b + sq) * 1024) / a
            };
            if !(t_min < root < t_max) {
                None
            } else {
                moving_sphere_hit_at(s, r, ctr, root)
            }
        }
    }
}

/// The record a moving-sphere hit at parameter `root` produces, if the
/// point lies inside the sphere's keyframe-span box.
pub open spec fn moving_sphere_hit_at(s: MovingSphere, r: Ray, ctr: (int, int, int), root: int)
    -> Option<HitData> {
    let px = r.at_axis(root, 0);
    let py = r.at_axis(root, 1);
    let pz = r.at_axis(root, 2);
    if !(ctr.0 - s.radius <= px <= ctr.0 + s.radius
        && ctr.1 - s.radius <= py <= ctr.1 + s.radius
        && ctr.2 - s.radius <= pz <= ctr.2 + s.radius) {
        None
    } else {
        let outward = Vec3 {
            x: (((px - ctr.0) * 1024) / (s.radius as int)) as i64,
            y: (((py - ctr.1) * 1024) / (s.radius as int)) as i64,
            z: (((pz - ctr.2) * 1024) / (s.radius as int)) as i64,
        };
        Some(HitData {
            p: Vec3 { x: px as i64, y: py as i64, z: pz as i64 },
            normal: oriented_normal(r.direction, outward),
            t: root as i64,
            u: 0i64,
            v: 0i64,
            front_face: Vec3::dot_spec(r.direction, outward) < 0,
            mat: s.mat,
        })
    }
}

/// The box around the whole keyframe span: the union of the two keyframe
/// boxes.  The interpolated center never leaves the segment between the
/// keyframe centers (`lemma_center_spec_within`), so no padding is needed.
pub open spec fn moving_sphere_bbox_spec(s: MovingSphere) -> Aabb {
    Aabb {
        min: Vec3 {
            x: (vstd::math::min(s.center0.x as int, s.center1.x as int) - s.radius) as i64,
            y: (vstd::math::min(s.center0.y as int, s.center1.y as int) - s.radius) as i64,
            z: (vstd::math::min(s.center0.z as int, s.center1.z as int) - s.radius) as i64,
        },
        max: Vec3 {
            x: (vstd::math::max(s.center0.x as int, s.center1.x as int) + s.radius) as i64,
            y: (vstd::math::max(s.center0.y as int, s.center1.y as int) + s.radius) as i64,
            z: (vstd::math::max(s.center0.z as int, s.center1.z as int) + s.radius) as i64,
        },
    }
}

/// The interpolated center stays on the segment between the keyframe
/// centers, componentwise.
pub proof fn lemma_center_spec_within(s: MovingSphere, time: int)
    ensures
        ({
            let c = center_spec(s, time);
            &&& vstd::math::min(s.center0.x as int, s.center1.x as int) <= c.0
                <= vstd::math::max(s.center0.x as int, s.center1.x as int)
            &&& vstd::math::min(s.center0.y as int, s.center1.y as int) <= c.1
                <= vstd::math::max(s.center0.y as int, s.center1.y as int)
            &&& vstd::math::min(s.center0.z as int, s.center1.z as int) <= c.2
                <= vstd::math::max(s.center0.z as int, s.center1.z as int)
        }),
{
    let k = center_weight_spec(s, time);
    lemma_lerp_within(s.center0.x as int, s.center1.x as int, k);
    lemma_lerp_within(s.center0.y as int, s.center1.y as int, k);
    lemma_lerp_within(s.center0.z as int, s.center1.z as int, k);
}

/// A floored linear interpolation with weight in `[0, 1024]` stays between
/// its endpoints.
proof fn lemma_lerp_within(c0: int, c1: int, k: int)
    requires
        0 <= k <= 1024,
    ensures
        vstd::math::min(c0, c1) <= c0 + ((c1 - c0) * k) / 1024 <= vstd::math::max(c0, c1),
{
    let d = c1 - c0;
    if d >= 0 {
        assert(0 <= d * k <= d * 1024) by (nonlinear_arith)
            requires
                d >= 0,
                0 <= k <= 1024,
        ;
        vstd::arithmetic::div_mod::lemma_div_is_ordered(0, d * k, 1024);
        vstd::arithmetic::div_mod::lemma_div_is_ordered(d * k, d * 1024, 1024);
        vstd::arithmetic::div_mod::lemma_div_multiples_vanish(d, 1024);
        assert(d * 1024 == 1024 * d);
        assert(0int / 1024 == 0);
    } else {
        assert(d * 1024 <= d * k <= 0) by (nonlinear_arith)
            requires
                d < 0,
                0 <= k <= 1024,
        ;
        vstd::arithmetic::div_mod::lemma_div_is_ordered(d * 1024, d * k, 1024);
        vstd::arithmetic::div_mod::lemma_div_is_ordered(d * k, 0, 1024);
        vstd::arithmetic::div_mod::lemma_div_multiples_vanish(d, 1024);
        assert(d * 1024 == 1024 * d);
        assert(0int / 1024 == 0);
    }
}

impl MovingSphere {
    pub open spec fn wf(self) -> bool {
        self.center0.in_range()
            && self.center1.in_range()
            && 1 <= self.radius <= VMAX
            && self.time0 < self.time1
            && -TMAX < self.time0
            && self.time1 < TMAX
            && moving_sphere_bbox_spec(self).wf()
            && self.mat.wf()
    }

    pub fn new(center0: Vec3, center1: Vec3, time0: i64, time1: i64, radius: i64, mat: Material)
        -> (s: MovingSphere)
        ensures
            s == (MovingSphere { center0, center1, time0, time1, radius, mat }),
    {
        MovingSphere { center0, center1, time0, time1, radius, mat }
    }

    /// The interpolated center, exactly as `center_spec` states it.
    pub fn center(&self, time: i64) -> (c: Vec3)
        requires
            self.wf(),
            -TMAX <= time <= TMAX,
        ensures
            (c.x as int, c.y as int, c.z as int) == center_spec(*self, time as int),
            c.bounded(0x400_0000),
    {
        let k0 = div_floor((time - self.time0) * 1024, self.time1 - self.time0);
        let k = clamp64(k0, 0, SCALE);
        proof {
            crate::math::lemma_mul_bound((self.center1.x - self.center0.x) as int, k as int,
                0x200_0000, 1024);
            crate::math::lemma_mul_bound((self.center1.y - self.center0.y) as int, k as int,
                0x200_0000, 1024);
            crate::math::lemma_mul_bound((self.center1.z - self.center0.z) as int, k as int,
                0x200_0000, 1024);
            crate::math::lemma_div_bound((self.center1.x - self.center0.x) * k, 0x200_0000, 1024);
            crate::math::lemma_div_bound((self.center1.y - self.center0.y) * k, 0x200_0000, 1024);
            crate::math::lemma_div_bound((self.center1.z - self.center0.z) * k, 0x200_0000, 1024);
        }
        Vec3 {
            x: self.center0.x + div_floor((self.center1.x - self.center0.x) * k, SCALE),
            y: self.center0.y + div_floor((self.center1.y - self.center0.y) * k, SCALE),
            z: self.center0.z + div_floor((self.center1.z - self.center0.z) * k, SCALE),
        }
    }

    /// The nearest quadratic intersection against the interpolated center,
    /// exactly as `moving_sphere_hit_spec` states it.
    pub fn hit(&self, ray: &Ray, t_min: i64, t_max: i64) -> (res: Option<HitRecord<'_>>)
        requires
            self.wf(),
            ray.wf(),
            -TMAX < t_min,
            t_max < TMAX,
            -TMAX <= ray.time <= TMAX,
        ensures
            match (res, moving_sphere_hit_spec(*self, *ray, t_min as int, t_max as int)) {
                (Option::None, Option::None) => true,
                (Option::Some(rec), Option::Some(hd)) => rec.agrees(hd),
                _ => false,
            },
    {
        let a = ray.direction.dot(&ray.direction);
        if a <= 0 {
            return None;
        }
        let ctr = self.center(ray.time);
        let oc = ray.origin.sub(&ctr);
        proof {
            crate::math::lemma_mul_bound(oc.x as int, ray.direction.x as int,
                0x4000_0000, 0x200_0000);
            crate::math::lemma_mul_bound(oc.y as int, ray.direction.y as int,
                0x4000_0000, 0x200_0000);
            crate::math::lemma_mul_bound(oc.z as int, ray.direction.z as int,
                0x4000_0000, 0x200_0000);
            crate::math::lemma_mul_bound(oc.x as int, oc.x as int, 0x4000_0000, 0x4000_0000);
            crate::math::lemma_mul_bound(oc.y as int, oc.y as int, 0x4000_0000, 0x4000_0000);
            crate::math::lemma_mul_bound(oc.z as int, oc.z as int, 0x4000_0000, 0x4000_0000);
            crate::math::lemma_mul_bound(ray.direction.x as int, ray.direction.x as int,
                0x200_0000, 0x200_0000);
            crate::math::lemma_mul_bound(ray.direction.y as int, ray.direction.y as int,
                0x200_0000, 0x200_0000);
            crate::math::lemma_mul_bound(ray.direction.z as int, ray.direction.z as int,
                0x200_0000, 0x200_0000);
            crate::math::lemma_mul_bound(self.radius as int, self.radius as int,
                0x100_0000, 0x100_0000);
            assert(self.radius * self.radius >= 0) by (nonlinear_arith);
            crate::vec3::lemma_dot_self_nonneg(oc);
        }
        let half_b = oc.dot(&ray.direction);
        let c = oc.dot(&oc) - self.radius * self.radius;
        proof {
            crate::math::lemma_mul_bound(half_b as int, half_b as int,
                0x180_0000_0000_0000, 0x180_0000_0000_0000);
            crate::math::lemma_mul_bound(a as int, c as int,
                0xC_0000_0000_0000, 0x3000_0000_0000_0000);
        }
        let disc: i128 = (half_b as i128) * (half_b as i128) - (a as i128) * (c as i128);
        if disc < 0 {
            return None;
        }
        let sq = isqrt(disc as u128) as i128;
        proof {
            assert(sq * sq <= disc) by (nonlinear_arith)
                requires
                    sq >= 0,
                    (sq as int) * (sq as int) <= disc,
            ;
            assert(sq <= 0x2_0000_0000_0000_0000i128) by (nonlinear_arith)
                requires
                    sq * sq <= disc,
                    disc <= 0x4000_0000_0000_0000_0000_0000_0000_0000 - 1,
                    sq >= 0,
            ;
        }
        let nb: i128 = -(half_b as i128);
        let root1w = div_floor_wide((nb - sq) * 1024, a as i128);
        let root: i64;
        if (t_min as i128) < root1w && root1w < (t_max as i128) {
            root = root1w as i64;
        } else {
            let root2w = div_floor_wide((nb + sq) * 1024, a as i128);
            if (t_min as i128) < root2w && root2w < (t_max as i128) {
                root = root2w as i64;
            } else {
                return None;
            }
        }
        let p = ray.at(root);
        if !(ctr.x - self.radius <= p.x && p.x <= ctr.x + self.radius
            && ctr.y - self.radius <= p.y && p.y <= ctr.y + self.radius
            && ctr.z - self.radius <= p.z && p.z <= ctr.z + self.radius) {
            return None;
        }
        proof {
            crate::hittable::sphere::lemma_scaled_radius(p.x as int, ctr.x as int,
                self.radius as int);
            crate::hittable::sphere::lemma_scaled_radius(p.y as int, ctr.y as int,
                self.radius as int);
            crate::hittable::sphere::lemma_scaled_radius(p.z as int, ctr.z as int,
                self.radius as int);
        }
        let outward = Vec3 {
            x: div_floor((p.x - ctr.x) * 1024, self.radius),
            y: div_floor((p.y - ctr.y) * 1024, self.radius),
            z: div_floor((p.z - ctr.z) * 1024, self.radius),
        };
        Some(HitRecord::new(p, outward, root, 0, 0, ray, &self.mat))
    }

    /// The stored-span box, exactly as `moving_sphere_bbox_spec` states it.
    pub fn bbox_exec(&self) -> (b: Aabb)
        requires
            self.wf(),
        ensures
            b == moving_sphere_bbox_spec(*self),
            b.wf(),
    {
        Aabb {
            min: Vec3 {
                x: crate::math::min64(self.center0.x, self.center1.x) - self.radius,
                y: crate::math::min64(self.center0.y, self.center1.y) - self.radius,
                z: crate::math::min64(self.center0.z, self.center1.z) - self.radius,
            },
            max: Vec3 {
                x: crate::math::max64(self.center0.x, self.center1.x) + self.radius,
                y: crate::math::max64(self.center0.y, self.center1.y) + self.radius,
                z: crate::math::max64(self.center0.z, self.center1.z) + self.radius,
            },
        }
    }
}

} // verus!
