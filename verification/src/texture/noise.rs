//! A marble-like texture driven by Perlin turbulence.

use vstd::prelude::*;
use crate::math::{SCALE, div_floor, sin_fp};
use crate::perlin::Perlin;
use crate::vec3::Vec3;

verus! {

pub struct NoiseTexture {
    pub noise: Perlin,
    pub scale: i64,
}

impl NoiseTexture {
    pub open spec fn wf(self) -> bool {
        self.noise.wf() && 0 < self.scale <= 0x1000
    }

    pub fn new(scale: i64) -> (t: NoiseTexture)
        requires
            0 < scale <= 0x1000,
        ensures
            t.wf(),
            t.scale == scale,
    {
        NoiseTexture { noise: Perlin::new(), scale }
    }

    /// A gray level that follows `sin(scale * z + 10 * turbulence)`; always
    /// inside one fixed-point unit.
    pub fn value(&self, p: Vec3) -> (c: Vec3)
        requires
            self.wf(),
            p.in_range(),
        ensures
            0 <= c.x <= SCALE,
            c.y == c.x,
            c.z == c.x,
    {
        proof {
            crate::math::lemma_mul_bound(self.scale as int, p.z as int, 0x1000, 0x100_0000);
        }
        let t = self.noise.turb(p, 7);
        let arg = self.scale * p.z + 10 * t;
        let s = sin_fp(arg);
        let g = div_floor(SCALE + s, 2);
        Vec3 { x: g, y: g, z: g }
    }
}

} // verus!
