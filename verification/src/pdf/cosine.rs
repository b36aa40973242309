//! A cosine-weighted hemisphere sampler around a reference normal.

use vstd::prelude::*;
use crate::math::{SCALE, PI_FP, clamp64, div_floor, isqrt};
use crate::onb::Onb;
use crate::rng::random_in_range;
use crate::vec3::Vec3;

verus! {

/// A cosine-weighted draw from the upper hemisphere, by sampling the unit
/// disk and lifting to the sphere.
fn random_cosine_direction() -> (v: Vec3)
    ensures
        v.bounded(2 * SCALE as int),
        v.z >= 0,
{
    let mut tries: u32 = 0;
    while tries < 64
        invariant
            tries <= 64,
        decreases 64 - tries,
    {
        let x = random_in_range(-(SCALE - 1), SCALE);
        let y = random_in_range(-(SCALE - 1), SCALE);
        proof {
            crate::math::lemma_mul_bound(x as int, x as int, 1024, 1024);
            crate::math::lemma_mul_bound(y as int, y as int, 1024, 1024);
            assert(x * x >= 0 && y * y >= 0) by (nonlinear_arith);
        }
        let d2 = x * x + y * y;
        if d2 < SCALE * SCALE {
            let z = isqrt((SCALE * SCALE - d2) as u128);
            proof {
                assert(z <= 1024) by (nonlinear_arith)
                    requires
                        (z as int) * (z as int) <= 1048576,
                        z >= 0,
                ;
            }
            return Vec3 { x, y, z: z as i64 };
        }
        tries = tries + 1;
    }
    Vec3 { x: 0, y: 0, z: SCALE }
}

/// The cosine-weighted density of direction `d` against the unit axis
/// `w`: `max(0, cos(theta)) / pi`, in fixed point, capped at one unit.
pub open spec fn cosine_density_spec(w: Vec3, d: Vec3) -> int {
    let u = d.unit_spec();
    let cos = Vec3::dot_spec(u, w) / (SCALE as int);
    if cos < 0 {
        0
    } else {
        let raw = (cos * 1024) / (PI_FP as int);
        if raw < 0 {
            0
        } else if raw > SCALE {
            SCALE as int
        } else {
            raw
        }
    }
}

/// Importance sampling of directions around `w`, with density
/// `cos(theta) / pi` on the upper hemisphere.
pub struct CosinePdf {
    pub uvw: Onb,
}

impl CosinePdf {
    pub open spec fn wf(self) -> bool {
        self.uvw.wf()
    }

    pub fn new(w: &Vec3) -> (p: CosinePdf)
        requires
            w.bounded(0x4000_0000),
        ensures
            p.wf(),
            p.uvw.axis_w == w.unit_spec(),
    {
        CosinePdf { uvw: Onb::from_w(w) }
    }

    /// The density of `direction` under this sampler: exactly the
    /// cosine-weighted density against the frame's third axis.
    pub fn value(&self, direction: Vec3) -> (r: i64)
        requires
            self.wf(),
            direction.bounded(0x4000_0000),
        ensures
            0 <= r <= SCALE,
            r == cosine_density_spec(self.uvw.axis_w, direction),
    {
        let unit = direction.normalize();
        let wv = self.uvw.w();
        proof {
            crate::math::lemma_mul_bound(unit.x as int, wv.x as int, 1024, 2048);
            crate::math::lemma_mul_bound(unit.y as int, wv.y as int, 1024, 2048);
            crate::math::lemma_mul_bound(unit.z as int, wv.z as int, 1024, 2048);
            crate::math::lemma_div_bound(Vec3::dot_spec(unit, wv), 6144, 1024);
        }
        let cosine = div_floor(unit.dot(&wv), SCALE);
        if cosine < 0 {
            0
        } else {
            proof {
                crate::math::lemma_div_bound(cosine * 1024, 2048, 3217);
            }
            clamp64(div_floor(cosine * 1024, PI_FP), 0, SCALE)
        }
    }

    /// Draw a direction from the cosine-weighted hemisphere: every outcome
    /// is the frame image of local coordinates in the upper half-space.
    pub fn generate(&self) -> (v: Vec3)
        requires
            self.wf(),
        ensures
            v.bounded(12 * SCALE as int),
            exists|d: Vec3| d.bounded(2 * SCALE as int) && d.z >= 0
                && #[trigger] self.uvw.is_local_image(d, v),
    {
        let d = random_cosine_direction();
        let v = self.uvw.local(d);
        proof {
            assert(self.uvw.is_local_image(d, v));
        }
        v
    }
}

} // verus!
