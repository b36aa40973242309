//! A local orthonormal-style basis built around a given direction.

use vstd::prelude::*;
use crate::math::SCALE;
use crate::vec3::Vec3;

verus! {

/// Three basis vectors; `w` points along the direction the frame was built
/// from.
#[derive(Clone, Copy, Debug)]
pub struct Onb {
    pub axis_u: Vec3,
    pub axis_v: Vec3,
    pub axis_w: Vec3,
}

impl Onb {
    /// Every stored axis is a unit-scale vector.
    pub open spec fn wf(self) -> bool {
        self.axis_u.bounded(2 * SCALE as int)
            && self.axis_v.bounded(2 * SCALE as int)
            && self.axis_w.bounded(2 * SCALE as int)
    }

    /// The three stated components of carrying local coordinates `a` into
    /// the world frame.
    pub open spec fn is_local_image(self, a: Vec3, r: Vec3) -> bool {
        &&& r.x == (self.axis_u.x * a.x) / 1024 + (self.axis_v.x * a.y) / 1024
            + (self.axis_w.x * a.z) / 1024
        &&& r.y == (self.axis_u.y * a.x) / 1024 + (self.axis_v.y * a.y) / 1024
            + (self.axis_w.y * a.z) / 1024
        &&& r.z == (self.axis_u.z * a.x) / 1024 + (self.axis_v.z * a.y) / 1024
            + (self.axis_w.z * a.z) / 1024
    }

    /// Build a frame whose third axis follows `n`: `axis_w` is exactly the
    /// unit rescaling of `n`.
    pub fn from_w(n: &Vec3) -> (s: Onb)
        requires
            n.bounded(0x4000_0000),
        ensures
            s.wf(),
            s.axis_w == n.unit_spec(),
    {
        let w = n.normalize();
        let a = if w.x > 921 || w.x < -921 {
            Vec3 { x: 0, y: SCALE, z: 0 }
        } else {
            Vec3 { x: SCALE, y: 0, z: 0 }
        };
        let c = w.cross(&a);
        proof {
            crate::math::lemma_mul_bound(w.y as int, a.z as int, 1024, 1024);
            crate::math::lemma_mul_bound(w.z as int, a.y as int, 1024, 1024);
            crate::math::lemma_mul_bound(w.z as int, a.x as int, 1024, 1024);
            crate::math::lemma_mul_bound(w.x as int, a.z as int, 1024, 1024);
            crate::math::lemma_mul_bound(w.x as int, a.y as int, 1024, 1024);
            crate::math::lemma_mul_bound(w.y as int, a.x as int, 1024, 1024);
            crate::math::lemma_div_bound(w.y * a.z - w.z * a.y, 2048, 1024);
            crate::math::lemma_div_bound(w.z * a.x - w.x * a.z, 2048, 1024);
            crate::math::lemma_div_bound(w.x * a.y - w.y * a.x, 2048, 1024);
        }
        let v = c.normalize();
        let u = w.cross(&v);
        proof {
            crate::math::lemma_mul_bound(w.y as int, v.z as int, 1024, 1024);
            crate::math::lemma_mul_bound(w.z as int, v.y as int, 1024, 1024);
            crate::math::lemma_mul_bound(w.z as int, v.x as int, 1024, 1024);
            crate::math::lemma_mul_bound(w.x as int, v.z as int, 1024, 1024);
            crate::math::lemma_mul_bound(w.x as int, v.y as int, 1024, 1024);
            crate::math::lemma_mul_bound(w.y as int, v.x as int, 1024, 1024);
            crate::math::lemma_div_bound(w.y * v.z - w.z * v.y, 2048, 1024);
            crate::math::lemma_div_bound(w.z * v.x - w.x * v.z, 2048, 1024);
            crate::math::lemma_div_bound(w.x * v.y - w.y * v.x, 2048, 1024);
        }
        Onb { axis_u: u, axis_v: v, axis_w: w }
    }

    pub fn u(&self) -> (r: Vec3)
        ensures
            r == self.axis_u,
    {
        self.axis_u
    }

    pub fn v(&self) -> (r: Vec3)
        ensures
            r == self.axis_v,
    {
        self.axis_v
    }

    pub fn w(&self) -> (r: Vec3)
        ensures
            r == self.axis_w,
    {
        self.axis_w
    }

    /// Carry local coordinates `a` into the world frame.
    pub fn local(&self, a: Vec3) -> (r: Vec3)
        requires
            self.wf(),
            a.bounded(2 * SCALE as int),
        ensures
            r.x == (self.axis_u.x * a.x) / (SCALE as int) + (self.axis_v.x * a.y) / (SCALE as int)
                + (self.axis_w.x * a.z) / (SCALE as int),
            r.y == (self.axis_u.y * a.x) / (SCALE as int) + (self.axis_v.y * a.y) / (SCALE as int)
                + (self.axis_w.y * a.z) / (SCALE as int),
            r.z == (self.axis_u.z * a.x) / (SCALE as int) + (self.axis_v.z * a.y) / (SCALE as int)
                + (self.axis_w.z * a.z) / (SCALE as int),
            self.is_local_image(a, r),
            r.bounded(12 * SCALE as int),
    {
        let tu = self.axis_u.scale(a.x);
        let tv = self.axis_v.scale(a.y);
        let tw = self.axis_w.scale(a.z);
        proof {
            crate::math::lemma_mul_bound(self.axis_u.x as int, a.x as int, 2048, 2048);
            crate::math::lemma_mul_bound(self.axis_u.y as int, a.x as int, 2048, 2048);
            crate::math::lemma_mul_bound(self.axis_u.z as int, a.x as int, 2048, 2048);
            crate::math::lemma_mul_bound(self.axis_v.x as int, a.y as int, 2048, 2048);
            crate::math::lemma_mul_bound(self.axis_v.y as int, a.y as int, 2048, 2048);
            crate::math::lemma_mul_bound(self.axis_v.z as int, a.y as int, 2048, 2048);
            crate::math::lemma_mul_bound(self.axis_w.x as int, a.z as int, 2048, 2048);
            crate::math::lemma_mul_bound(self.axis_w.y as int, a.z as int, 2048, 2048);
            crate::math::lemma_mul_bound(self.axis_w.z as int, a.z as int, 2048, 2048);
            crate::math::lemma_div_bound(self.axis_u.x * a.x, 4096, 1024);
            crate::math::lemma_div_bound(self.axis_u.y * a.x, 4096, 1024);
            crate::math::lemma_div_bound(self.axis_u.z * a.x, 4096, 1024);
            crate::math::lemma_div_bound(self.axis_v.x * a.y, 4096, 1024);
            crate::math::lemma_div_bound(self.axis_v.y * a.y, 4096, 1024);
            crate::math::lemma_div_bound(self.axis_v.z * a.y, 4096, 1024);
            crate::math::lemma_div_bound(self.axis_w.x * a.z, 4096, 1024);
            crate::math::lemma_div_bound(self.axis_w.y * a.z, 4096, 1024);
            crate::math::lemma_div_bound(self.axis_w.z * a.z, 4096, 1024);
        }
        Vec3 {
            x: tu.x + tv.x + tw.x,
            y: tu.y + tv.y + tw.y,
            z: tu.z + tv.z + tw.z,
        }
    }
}

} // verus!
