//! Axis-aligned rectangles, one per dropped axis; the XZ variant also
//! supports light-importance sampling.

use vstd::prelude::*;
use crate::aabb::Aabb;
use crate::hittable::{HitData, HitRecord, oriented_normal};
use crate::material::Material;
use crate::math::{CMAX, SCALE, TMAX, VMAX, div_floor, div_floor_wide, isqrt};
use crate::ray::Ray;
use crate::rng::random_in_range;
use crate::vec3::Vec3;

verus! {

/// Thickness given to a rectangle's bounding slab on its dropped axis.
pub const RECT_PAD: i64 = 4;

/// The ray parameter at which a ray crosses the plane at `k` on the axis
/// where its origin is `o` and its direction component is `d`; meaningless
/// when `d` is zero.
pub open spec fn plane_cross_spec(o: int, d: int, k: int) -> int {
    if d > 0 {
        ((k - o) * 1024) / d
    } else {
        (-((k - o) * 1024)) / (-d)
    }
}

/// Solve for the plane crossing exactly as the spec states it.
fn plane_cross(o: i64, d: i64, k: i64) -> (t: i64)
    requires
        d != 0,
        -0x3000_0000 <= o <= 0x3000_0000,
        -0x200_0000 <= d <= 0x200_0000,
        -VMAX <= k <= VMAX,
    ensures
        t == plane_cross_spec(o as int, d as int, k as int),
        -0x1_0000_0000_0000 <= t <= 0x1_0000_0000_0000,
{
    if d > 0 {
        let t = div_floor((k - o) * 1024, d);
        proof {
            crate::math::lemma_div_bound((k - o) * 1024, 0x1_0000_0000_0000, d as int);
            assert(0x1_0000_0000_0000 * d >= 0x1_0000_0000_0000) by (nonlinear_arith)
                requires
                    d >= 1,
            ;
        }
        t
    } else {
        let t = div_floor(-((k - o) * 1024), -d);
        proof {
            crate::math::lemma_div_bound(-((k - o) * 1024), 0x1_0000_0000_0000, -d as int);
            assert(0x1_0000_0000_0000 * (-d) >= 0x1_0000_0000_0000) by (nonlinear_arith)
                requires
                    -d >= 1,
            ;
        }
        t
    }
}

/// An in-plane coordinate rescaled to a texture coordinate in `[0, SCALE)`.
fn plane_uv(x: i64, x0: i64, x1: i64) -> (u: i64)
    requires
        x0 < x1,
        x0 <= x < x1,
        -VMAX <= x0,
        x1 <= VMAX,
    ensures
        u == ((x - x0) * 1024) / (x1 - x0),
        0 <= u <= SCALE,
{
    proof {
        assert((x - x0) * 1024 <= (x1 - x0) * 1024) by (nonlinear_arith)
            requires
                x < x1,
        ;
        assert((x - x0) * 1024 >= 0) by (nonlinear_arith)
            requires
                x >= x0,
        ;
        crate::math::lemma_div_bound((x - x0) * 1024, 1024, (x1 - x0) as int);
        assert((x1 - x0) * 1024 == 1024 * (x1 - x0));
    }
    div_floor((x - x0) * 1024, x1 - x0)
}

pub struct XyRect {
    pub mat: Material,
    pub x0: i64,
    pub x1: i64,
    pub y0: i64,
    pub y1: i64,
    pub k: i64,
}

pub open spec fn xy_rect_hit_spec(s: XyRect, r: Ray, t_min: int, t_max: int) -> Option<HitData> {
    if r.direction.z == 0 {
        None
    } else {
        let t = plane_cross_spec(r.origin.z as int, r.direction.z as int, s.k as int);
        if !(t_min < t < t_max) {
            None
        } else {
            let x = r.at_axis(t, 0);
            let y = r.at_axis(t, 1);
            let z = r.at_axis(t, 2);
            if !(s.x0 <= x < s.x1 && s.y0 <= y < s.y1 && s.k - RECT_PAD <= z <= s.k + RECT_PAD) {
                None
            } else {
                let outward = Vec3 { x: 0i64, y: 0i64, z: 1024i64 };
                Some(HitData {
                    p: Vec3 { x: x as i64, y: y as i64, z: z as i64 },
                    normal: oriented_normal(r.direction, outward),
                    t: t as i64,
                    u: (((x - s.x0) * 1024) / (s.x1 - s.x0)) as i64,
                    v: (((y - s.y0) * 1024) / (s.y1 - s.y0)) as i64,
                    front_face: Vec3::dot_spec(r.direction, outward) < 0,
                    mat: s.mat,
                })
            }
        }
    }
}

impl XyRect {
    pub open spec fn wf(self) -> bool {
        -VMAX <= self.x0 < self.x1 <= VMAX
            && -VMAX <= self.y0 < self.y1 <= VMAX
            && -VMAX <= self.k - RECT_PAD
            && self.k + RECT_PAD <= VMAX
            && self.mat.wf()
    }

    pub open spec fn bbox(self) -> Aabb {
        Aabb {
            min: Vec3 { x: self.x0, y: self.y0, z: (self.k - RECT_PAD) as i64 },
            max: Vec3 { x: self.x1, y: self.y1, z: (self.k + RECT_PAD) as i64 },
        }
    }

    pub fn new(x0: i64, x1: i64, y0: i64, y1: i64, k: i64, mat: Material) -> (s: XyRect)
        ensures
            s == (XyRect { mat, x0, x1, y0, y1, k }),
    {
        XyRect { mat, x0, x1, y0, y1, k }
    }

    /// The plane crossing inside the window and the rectangle's bounds,
    /// exactly as `xy_rect_hit_spec` states it.
    pub fn hit(&self, ray: &Ray, t_min: i64, t_max: i64) -> (res: Option<HitRecord<'_>>)
        requires
            self.wf(),
            ray.wf(),
            -TMAX < t_min,
            t_max < TMAX,
        ensures
            match (res, xy_rect_hit_spec(*self, *ray, t_min as int, t_max as int)) {
                (Option::None, Option::None) => true,
                (Option::Some(rec), Option::Some(hd)) => rec.agrees(hd),
                _ => false,
            },
    {
        if ray.direction.z == 0 {
            return None;
        }
        let t = plane_cross(ray.origin.z, ray.direction.z, self.k);
        if !(t_min < t && t < t_max) {
            return None;
        }
        let p = ray.at(t);
        if !(self.x0 <= p.x && p.x < self.x1 && self.y0 <= p.y && p.y < self.y1
            && self.k - RECT_PAD <= p.z && p.z <= self.k + RECT_PAD) {
            return None;
        }
        let u = plane_uv(p.x, self.x0, self.x1);
        let v = plane_uv(p.y, self.y0, self.y1);
        let outward = Vec3 { x: 0, y: 0, z: SCALE };
        Some(HitRecord::new(p, outward, t, u, v, ray, &self.mat))
    }
}

pub struct XzRect {
    pub mat: Material,
    pub x0: i64,
    pub x1: i64,
    pub z0: i64,
    pub z1: i64,
    pub k: i64,
}

pub open spec fn xz_rect_hit_spec(s: XzRect, r: Ray, t_min: int, t_max: int) -> Option<HitData> {
    if r.direction.y == 0 {
        None
    } else {
        let t = plane_cross_spec(r.origin.y as int, r.direction.y as int, s.k as int);
        if !(t_min < t < t_max) {
            None
        } else {
            let x = r.at_axis(t, 0);
            let y = r.at_axis(t, 1);
            let z = r.at_axis(t, 2);
            if !(s.x0 <= x < s.x1 && s.z0 <= z < s.z1 && s.k - RECT_PAD <= y <= s.k + RECT_PAD) {
                None
            } else {
                let outward = Vec3 { x: 0i64, y: 1024i64, z: 0i64 };
                Some(HitData {
                    p: Vec3 { x: x as i64, y: y as i64, z: z as i64 },
                    normal: oriented_normal(r.direction, outward),
                    t: t as i64,
                    u: (((x - s.x0) * 1024) / (s.x1 - s.x0)) as i64,
                    v: (((z - s.z0) * 1024) / (s.z1 - s.z0)) as i64,
                    front_face: Vec3::dot_spec(r.direction, outward) < 0,
                    mat: s.mat,
                })
            }
        }
    }
}

impl XzRect {
    pub open spec fn wf(self) -> bool {
        -VMAX <= self.x0 < self.x1 <= VMAX
            && -VMAX <= self.z0 < self.z1 <= VMAX
            && -VMAX <= self.k - RECT_PAD
            && self.k + RECT_PAD <= VMAX
            && self.mat.wf()
    }

    pub open spec fn bbox(self) -> Aabb {
        Aabb {
            min: Vec3 { x: self.x0, y: (self.k - RECT_PAD) as i64, z: self.z0 },
            max: Vec3 { x: self.x1, y: (self.k + RECT_PAD) as i64, z: self.z1 },
        }
    }

    pub fn new(x0: i64, x1: i64, z0: i64, z1: i64, k: i64, mat: Material) -> (s: XzRect)
        ensures
            s == (XzRect { mat, x0, x1, z0, z1, k }),
    {
        XzRect { mat, x0, x1, z0, z1, k }
    }

    /// The plane crossing inside the window and the rectangle's bounds,
    /// exactly as `xz_rect_hit_spec` states it.
    pub fn hit(&self, ray: &Ray, t_min: i64, t_max: i64) -> (res: Option<HitRecord<'_>>)
        requires
            self.wf(),
            ray.wf(),
            -TMAX < t_min,
            t_max < TMAX,
        ensures
            match (res, xz_rect_hit_spec(*self, *ray, t_min as int, t_max as int)) {
                (Option::None, Option::None) => true,
                (Option::Some(rec), Option::Some(hd)) => rec.agrees(hd),
                _ => false,
            },
    {
        if ray.direction.y == 0 {
            return None;
        }
        let t = plane_cross(ray.origin.y, ray.direction.y, self.k);
        if !(t_min < t && t < t_max) {
            return None;
        }
        let p = ray.at(t);
        if !(self.x0 <= p.x && p.x < self.x1 && self.z0 <= p.z && p.z < self.z1
            && self.k - RECT_PAD <= p.y && p.y <= self.k + RECT_PAD) {
            return None;
        }
        let u = plane_uv(p.x, self.x0, self.x1);
        let v = plane_uv(p.z, self.z0, self.z1);
        let outward = Vec3 { x: 0, y: SCALE, z: 0 };
        Some(HitRecord::new(p, outward, t, u, v, ray, &self.mat))
    }

    /// The density of sampling `v` from `o` toward this rectangle:
    /// exactly the `distance^2 / (cos(theta) * area)` value
    /// `xz_rect_pdf_value_spec` states, zero on a miss.
    pub fn pdf_value(&self, o: Vec3, v: Vec3) -> (r: i64)
        requires
            self.wf(),
            o.in_range(),
            v.bounded(0x200_0000),
        ensures
            0 <= r <= CMAX,
            r == xz_rect_pdf_value_spec(*self, o, v),
    {
        let probe = Ray { origin: o, direction: v, time: 0 };
        let rec = match self.hit(&probe, 1, TMAX - 1) {
            Option::Some(rec) => rec,
            Option::None => {
                return 0;
            },
        };
        let dd = v.dot(&v);
        if dd <= 0 {
            return 0;
        }
        let len = isqrt(dd as u128) as i128;
        if len == 0 {
            return 0;
        }
        proof {
            crate::math::lemma_mul_bound(v.x as int, rec.normal.x as int, 0x200_0000, 2048);
            crate::math::lemma_mul_bound(v.y as int, rec.normal.y as int, 0x200_0000, 2048);
            crate::math::lemma_mul_bound(v.z as int, rec.normal.z as int, 0x200_0000, 2048);
        }
        let dvn = v.dot(&rec.normal);
        let dvn_abs: i128 = if dvn >= 0 { dvn as i128 } else { -(dvn as i128) };
        let cosn = div_floor_wide(dvn_abs, len);
        if cosn <= 0 {
            return 0;
        }
        proof {
            crate::math::lemma_mul_bound((self.x1 - self.x0) as int, (self.z1 - self.z0) as int,
                0x2000_0000, 0x2000_0000);
        }
        let area = div_floor_wide((self.x1 - self.x0) as i128 * ((self.z1 - self.z0) as i128),
            1024);
        if area <= 0 {
            return 0;
        }
        let t128 = rec.t as i128;
        proof {
            crate::math::lemma_mul_bound(v.x as int, v.x as int, 0x200_0000, 0x200_0000);
            crate::math::lemma_mul_bound(v.y as int, v.y as int, 0x200_0000, 0x200_0000);
            crate::math::lemma_mul_bound(v.z as int, v.z as int, 0x200_0000, 0x200_0000);
            crate::math::lemma_mul_bound(t128 as int, t128 as int, 0x4000_0000, 0x4000_0000);
            crate::math::lemma_div_bound((t128 as int) * (t128 as int), 0x4_0000_0000_0000, 1024);
        }
        let t2 = div_floor_wide(t128 * t128, 1024);
        proof {
            crate::math::lemma_mul_bound(t2 as int, dd as int, 0x4_0000_0000_0000,
                0xC_0000_0000_0000);
            crate::math::lemma_div_bound((t2 as int) * (dd as int),
                0xC0_0000_0000_0000_0000, 0x4000_0000);
        }
        let dist2 = div_floor_wide(t2 * (dd as i128), 0x4000_0000);
        proof {
            crate::math::lemma_mul_bound(dist2 as int, 1048576,
                0xC0_0000_0000_0000_0000, 1048576);
            crate::math::lemma_mul_bound(cosn as int, area as int, 0x30_0000_0000,
                0x4000_0000_0000_0000);
            assert(cosn * area >= 1) by (nonlinear_arith)
                requires
                    cosn >= 1,
                    area >= 1,
            ;
        }
        let val = div_floor_wide(dist2 * 1048576, cosn * area);
        clamp_wide(val)
    }

    /// A direction from `o` toward a uniformly drawn point of the
    /// rectangle: adding it to `o` always lands on the rectangle.
    pub fn random(&self, o: Vec3) -> (r: Vec3)
        requires
            self.wf(),
            o.in_range(),
        ensures
            r.bounded(0x200_0000),
            self.x0 <= o.x + r.x < self.x1,
            o.y + r.y == self.k,
            self.z0 <= o.z + r.z < self.z1,
    {
        let rx = random_in_range(self.x0, self.x1);
        let rz = random_in_range(self.z0, self.z1);
        Vec3 { x: rx - o.x, y: self.k - o.y, z: rz - o.z }
    }
}

/// The value `XzRect::pdf_value` computes: zero when a probe ray from `o`
/// along `v` misses the rectangle, else the area-based light-sampling
/// density `distance^2 / (|cos| * area)`, saturated into the color range.
pub open spec fn xz_rect_pdf_value_spec(s: XzRect, o: Vec3, v: Vec3) -> int {
    let probe = Ray { origin: o, direction: v, time: 0i64 };
    match xz_rect_hit_spec(s, probe, 1, crate::math::TMAX - 1) {
        Option::None => 0,
        Option::Some(rec) => {
            let dd = Vec3::dot_spec(v, v);
            if dd <= 0 {
                0
            } else {
                let len = crate::math::sqrt_floor(dd);
                if len == 0 {
                    0
                } else {
                    let dvn = Vec3::dot_spec(v, rec.normal);
                    let dvn_abs = if dvn >= 0 { dvn } else { -dvn };
                    let cosn = dvn_abs / len;
                    if cosn <= 0 {
                        0
                    } else {
                        let area = ((s.x1 - s.x0) * (s.z1 - s.z0)) / 1024;
                        if area <= 0 {
                            0
                        } else {
                            let t2 = (rec.t * rec.t) / 1024;
                            let dist2 = (t2 * dd) / 0x4000_0000;
                            let val = (dist2 * 1048576) / (cosn * area);
                            if val > CMAX as int {
                                CMAX as int
                            } else {
                                val
                            }
                        }
                    }
                }
            }
        },
    }
}

/// Saturate a wide nonnegative density into the color range.
fn clamp_wide(v: i128) -> (r: i64)
    requires
        v >= 0,
    ensures
        0 <= r <= CMAX,
        r == (if v > CMAX as int { CMAX as int } else { v as int }),
{
    if v > CMAX as i128 {
        CMAX
    } else {
        v as i64
    }
}

pub struct YzRect {
    pub mat: Material,
    pub y0: i64,
    pub y1: i64,
    pub z0: i64,
    pub z1: i64,
    pub k: i64,
}

pub open spec fn yz_rect_hit_spec(s: YzRect, r: Ray, t_min: int, t_max: int) -> Option<HitData> {
    if r.direction.x == 0 {
        None
    } else {
        let t = plane_cross_spec(r.origin.x as int, r.direction.x as int, s.k as int);
        if !(t_min < t < t_max) {
            None
        } else {
            let x = r.at_axis(t, 0);
            let y = r.at_axis(t, 1);
            let z = r.at_axis(t, 2);
            if !(s.y0 <= y < s.y1 && s.z0 <= z < s.z1 && s.k - RECT_PAD <= x <= s.k + RECT_PAD) {
                None
            } else {
                let outward = Vec3 { x: 1024i64, y: 0i64, z: 0i64 };
                Some(HitData {
                    p: Vec3 { x: x as i64, y: y as i64, z: z as i64 },
                    normal: oriented_normal(r.direction, outward),
                    t: t as i64,
                    u: (((y - s.y0) * 1024) / (s.y1 - s.y0)) as i64,
                    v: (((z - s.z0) * 1024) / (s.z1 - s.z0)) as i64,
                    front_face: Vec3::dot_spec(r.direction, outward) < 0,
                    mat: s.mat,
                })
            }
        }
    }
}

impl YzRect {
    pub open spec fn wf(self) -> bool {
        -VMAX <= self.y0 < self.y1 <= VMAX
            && -VMAX <= self.z0 < self.z1 <= VMAX
            && -VMAX <= self.k - RECT_PAD
            && self.k + RECT_PAD <= VMAX
            && self.mat.wf()
    }

    pub open spec fn bbox(self) -> Aabb {
        Aabb {
            min: Vec3 { x: (self.k - RECT_PAD) as i64, y: self.y0, z: self.z0 },
            max: Vec3 { x: (self.k + RECT_PAD) as i64, y: self.y1, z: self.z1 },
        }
    }

    pub fn new(y0: i64, y1: i64, z0: i64, z1: i64, k: i64, mat: Material) -> (s: YzRect)
        ensures
            s == (YzRect { mat, y0, y1, z0, z1, k }),
    {
        YzRect { mat, y0, y1, z0, z1, k }
    }

    /// The plane crossing inside the window and the rectangle's bounds,
    /// exactly as `yz_rect_hit_spec` states it.
    pub fn hit(&self, ray: &Ray, t_min: i64, t_max: i64) -> (res: Option<HitRecord<'_>>)
        requires
            self.wf(),
            ray.wf(),
            -TMAX < t_min,
            t_max < TMAX,
        ensures
            match (res, yz_rect_hit_spec(*self, *ray, t_min as int, t_max as int)) {
                (Option::None, Option::None) => true,
                (Option::Some(rec), Option::Some(hd)) => rec.agrees(hd),
                _ => false,
            },
    {
        if ray.direction.x == 0 {
            return None;
        }
        let t = plane_cross(ray.origin.x, ray.direction.x, self.k);
        if !(t_min < t && t < t_max) {
            return None;
        }
        let p = ray.at(t);
        if !(self.y0 <= p.y && p.y < self.y1 && self.z0 <= p.z && p.z < self.z1
            && self.k - RECT_PAD <= p.x && p.x <= self.k + RECT_PAD) {
            return None;
        }
        let u = plane_uv(p.y, self.y0, self.y1);
        let v = plane_uv(p.z, self.z0, self.z1);
        let outward = Vec3 { x: SCALE, y: 0, z: 0 };
        Some(HitRecord::new(p, outward, t, u, v, ray, &self.mat))
    }
}

} // verus!
