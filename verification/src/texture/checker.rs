//! A three-dimensional checker pattern alternating two sub-textures.

use vstd::prelude::*;
use crate::math::{PI_FP, div_floor};
use crate::texture::Texture;
use crate::texture::solid_color::SolidColor;
use crate::vec3::Vec3;

verus! {

/// The checker cell parity at `p`: the period matches the sign changes of
/// the product of sines the pattern is drawn from.
pub open spec fn checker_odd_spec(p: Vec3) -> bool {
    ((10 * p.x) / (PI_FP as int) + (10 * p.y) / (PI_FP as int) + (10 * p.z) / (PI_FP as int)) % 2
        != 0
}

pub struct CheckerTexture {
    pub odd: Box<Texture>,
    pub even: Box<Texture>,
}

impl CheckerTexture {
    pub open spec fn wf(self) -> bool {
        self.odd.wf() && self.even.wf()
    }

    pub fn new(even: Texture, odd: Texture) -> (t: CheckerTexture)
        ensures
            t.even == even,
            t.odd == odd,
    {
        CheckerTexture { odd: Box::new(odd), even: Box::new(even) }
    }

    pub fn new_color(even: Vec3, odd: Vec3) -> (t: CheckerTexture)
        ensures
            t.even == Texture::Solid(SolidColor { color_value: even }),
            t.odd == Texture::Solid(SolidColor { color_value: odd }),
    {
        CheckerTexture {
            odd: Box::new(Texture::Solid(SolidColor { color_value: odd })),
            even: Box::new(Texture::Solid(SolidColor { color_value: even })),
        }
    }

    /// Decide which cell of the pattern contains `p`.
    pub fn select_odd(p: &Vec3) -> (r: bool)
        requires
            p.in_range(),
        ensures
            r == checker_odd_spec(*p),
    {
        let qx = div_floor(10 * p.x, PI_FP);
        let qy = div_floor(10 * p.y, PI_FP);
        let qz = div_floor(10 * p.z, PI_FP);
        let m = crate::math::mod_floor(qx + qy + qz, 2);
        m != 0
    }
}

} // verus!
