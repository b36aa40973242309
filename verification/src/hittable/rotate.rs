//! A wrapper that spins its child about the Y axis.

use vstd::prelude::*;
use crate::aabb::Aabb;
use crate::hittable::Hittable;
use crate::math::{PI_FP, SCALE, VMAX, clamp64, cos_fp, div_floor, max64, min64, sin_fp,
    sin_spec};
use crate::vec3::Vec3;

verus! {

pub struct RotateY {
    pub ptr: Box<Hittable>,
    pub sin_theta: i64,
    pub cos_theta: i64,
    pub bbox: Aabb,
}

/// The fixed-point radians of an angle given in fixed-point degrees.
pub open spec fn radians_spec(angle: int) -> int {
    (angle * 3217) / 184320
}

/// One rotated corner coordinate, clamped just inside the stored range.
pub open spec fn rot_corner_spec(a: int, b: int) -> int {
    let q = (a + b) / 1024;
    let v = VMAX as int;
    if q < -v + 1 {
        -v + 1
    } else if q > v - 1 {
        v - 1
    } else {
        q
    }
}

/// The world-space box covering the child spun by the stored rotation:
/// the componentwise extrema, padded by one rounding unit, of the four
/// corners of the child's box rotated in the XZ plane, with the child's
/// own vertical range.
pub open spec fn rotate_bbox_spec(b: Aabb, sn: int, cs: int) -> Aabb {
    let nx0 = rot_corner_spec(cs * b.max.x, sn * b.max.z);
    let nz0 = rot_corner_spec(cs * b.max.z, -(sn * b.max.x));
    let nx1 = rot_corner_spec(cs * b.max.x, sn * b.min.z);
    let nz1 = rot_corner_spec(cs * b.min.z, -(sn * b.max.x));
    let nx2 = rot_corner_spec(cs * b.min.x, sn * b.max.z);
    let nz2 = rot_corner_spec(cs * b.max.z, -(sn * b.min.x));
    let nx3 = rot_corner_spec(cs * b.min.x, sn * b.min.z);
    let nz3 = rot_corner_spec(cs * b.min.z, -(sn * b.min.x));
    let lo_x = vstd::math::min(vstd::math::min(nx0 - 1, nx1 - 1),
        vstd::math::min(nx2 - 1, nx3 - 1));
    let hi_x = vstd::math::max(vstd::math::max(nx0 + 1, nx1 + 1),
        vstd::math::max(nx2 + 1, nx3 + 1));
    let lo_z = vstd::math::min(vstd::math::min(nz0 - 1, nz1 - 1),
        vstd::math::min(nz2 - 1, nz3 - 1));
    let hi_z = vstd::math::max(vstd::math::max(nz0 + 1, nz1 + 1),
        vstd::math::max(nz2 + 1, nz3 + 1));
    Aabb {
        min: Vec3 { x: lo_x as i64, y: b.min.y, z: lo_z as i64 },
        max: Vec3 { x: hi_x as i64, y: b.max.y, z: hi_z as i64 },
    }
}

/// One rotated corner coordinate, exactly as `rot_corner_spec` states it.
fn rot_corner(a: i64, b: i64) -> (r: i64)
    requires
        -0x800_0000_0000 <= a <= 0x800_0000_0000,
        -0x800_0000_0000 <= b <= 0x800_0000_0000,
    ensures
        r == rot_corner_spec(a as int, b as int),
        -VMAX < r < VMAX,
{
    proof {
        crate::math::lemma_div_bound(a + b, 0x10_0000_0000, 1024);
    }
    clamp64(div_floor(a + b, SCALE), -VMAX + 1, VMAX - 1)
}

impl RotateY {
    /// Precompute the rotation from an angle in fixed-point degrees, and
    /// the world-space box covering the rotated child: the extrema of its
    /// box's four rotated corners, with the child's own vertical range.
    #[verifier::rlimit(100)]
    pub fn new(ptr: Box<Hittable>, angle: i64) -> (s: RotateY)
        requires
            ptr.wf(),
            ptr.bbox_spec() is Some,
            -0x6_0000_0000 <= angle <= 0x6_0000_0000,
        ensures
            s.ptr == ptr,
            s.sin_theta == sin_spec(radians_spec(angle as int)),
            s.cos_theta == sin_spec(radians_spec(angle as int) + 1608),
            -SCALE <= s.sin_theta <= SCALE,
            -SCALE <= s.cos_theta <= SCALE,
            s.bbox == rotate_bbox_spec(ptr.bbox_spec()->Some_0, s.sin_theta as int,
                s.cos_theta as int),
            s.bbox.wf(),
    {
        proof {
            crate::math::lemma_mul_bound(angle as int, 3217, 0x6_0000_0000, 3217);
        }
        let radians = div_floor(angle * PI_FP, 184320);
        let sin_theta = sin_fp(radians);
        let cos_theta = cos_fp(radians);
        let b = match ptr.bounding_box(0, SCALE) {
            Option::Some(b) => b,
            Option::None => {
                proof {
                    assert(false);
                }
                Aabb {
                    min: Vec3 { x: 0, y: 0, z: 0 },
                    max: Vec3 { x: 0, y: 0, z: 0 },
                }
            },
        };
        proof {
            crate::math::lemma_mul_bound(cos_theta as int, b.max.x as int, 1024, 0x100_0000);
            crate::math::lemma_mul_bound(cos_theta as int, b.min.x as int, 1024, 0x100_0000);
            crate::math::lemma_mul_bound(cos_theta as int, b.max.z as int, 1024, 0x100_0000);
            crate::math::lemma_mul_bound(cos_theta as int, b.min.z as int, 1024, 0x100_0000);
            crate::math::lemma_mul_bound(sin_theta as int, b.max.x as int, 1024, 0x100_0000);
            crate::math::lemma_mul_bound(sin_theta as int, b.min.x as int, 1024, 0x100_0000);
            crate::math::lemma_mul_bound(sin_theta as int, b.max.z as int, 1024, 0x100_0000);
            crate::math::lemma_mul_bound(sin_theta as int, b.min.z as int, 1024, 0x100_0000);
        }
        let nx0 = rot_corner(cos_theta * b.max.x, sin_theta * b.max.z);
        let nz0 = rot_corner(cos_theta * b.max.z, -(sin_theta * b.max.x));
        let nx1 = rot_corner(cos_theta * b.max.x, sin_theta * b.min.z);
        let nz1 = rot_corner(cos_theta * b.min.z, -(sin_theta * b.max.x));
        let nx2 = rot_corner(cos_theta * b.min.x, sin_theta * b.max.z);
        let nz2 = rot_corner(cos_theta * b.max.z, -(sin_theta * b.min.x));
        let nx3 = rot_corner(cos_theta * b.min.x, sin_theta * b.min.z);
        let nz3 = rot_corner(cos_theta * b.min.z, -(sin_theta * b.min.x));
        let lo_x = min64(min64(nx0 - 1, nx1 - 1), min64(nx2 - 1, nx3 - 1));
        let hi_x = max64(max64(nx0 + 1, nx1 + 1), max64(nx2 + 1, nx3 + 1));
        let lo_z = min64(min64(nz0 - 1, nz1 - 1), min64(nz2 - 1, nz3 - 1));
        let hi_z = max64(max64(nz0 + 1, nz1 + 1), max64(nz2 + 1, nz3 + 1));
        let bbox = Aabb {
            min: Vec3 { x: lo_x, y: b.min.y, z: lo_z },
            max: Vec3 { x: hi_x, y: b.max.y, z: hi_z },
        };
        RotateY { ptr, sin_theta, cos_theta, bbox }
    }
}

} // verus!
