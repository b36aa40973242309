//! Surface textures: a closed family dispatched by one `value` query.

pub mod checker;
pub mod image;
pub mod noise;
pub mod solid_color;

use vstd::prelude::*;
use crate::math::{CMAX, SCALE};
use crate::vec3::Vec3;
use checker::CheckerTexture;
use image::ImageTexture;
use noise::NoiseTexture;
use solid_color::SolidColor;

verus! {

/// Every texture kind the scene description can hold.
pub enum Texture {
    Solid(SolidColor),
    Checker(Box<CheckerTexture>),
    Image(ImageTexture),
    Noise(NoiseTexture),
}

impl Texture {
    pub open spec fn wf(self) -> bool
        decreases self,
    {
        match self {
            Texture::Solid(t) => t.wf(),
            Texture::Checker(t) => t.odd.wf() && t.even.wf(),
            Texture::Image(t) => t.wf(),
            Texture::Noise(t) => t.wf(),
        }
    }

    /// The color at surface coordinates `(u, v)` and hit point `p`: always a
    /// nonnegative color below the saturation cap, and for a solid texture
    /// exactly its stored color.
    pub fn value(&self, u: i64, v: i64, p: &Vec3) -> (c: Vec3)
        requires
            self.wf(),
            p.in_range(),
        ensures
            0 <= c.x <= CMAX,
            0 <= c.y <= CMAX,
            0 <= c.z <= CMAX,
            self matches Texture::Solid(t) ==> c == t.color_value,
            self matches Texture::Checker(ck) ==> (checker::checker_odd_spec(*p)
                ==> (*ck.odd matches Texture::Solid(sc) ==> c == sc.color_value)),
            self matches Texture::Checker(ck) ==> (!checker::checker_odd_spec(*p)
                ==> (*ck.even matches Texture::Solid(sc) ==> c == sc.color_value)),
        decreases self,
    {
        match self {
            Texture::Solid(t) => t.value(),
            Texture::Checker(t) => {
                if CheckerTexture::select_odd(p) {
                    t.odd.value(u, v, p)
                } else {
                    t.even.value(u, v, p)
                }
            },
            Texture::Image(t) => t.value(u, v),
            Texture::Noise(t) => t.value(*p),
        }
    }
}

/// Structural sameness of two textures, comparing collections by view;
/// duplication preserves it.
pub open spec fn texture_matches(a: Texture, b: Texture) -> bool
    decreases a,
{
    match (a, b) {
        (Texture::Solid(x), Texture::Solid(y)) => x.color_value == y.color_value,
        (Texture::Checker(x), Texture::Checker(y)) =>
            texture_matches(*x.odd, *y.odd) && texture_matches(*x.even, *y.even),
        (Texture::Image(x), Texture::Image(y)) =>
            x.width == y.width && x.height == y.height && x.data@ == y.data@,
        (Texture::Noise(x), Texture::Noise(y)) =>
            x.scale == y.scale && x.noise.ranvec@ == y.noise.ranvec@
                && x.noise.perm_x@ == y.noise.perm_x@
                && x.noise.perm_y@ == y.noise.perm_y@
                && x.noise.perm_z@ == y.noise.perm_z@,
        _ => false,
    }
}

/// Every texture matches itself.
pub proof fn lemma_texture_matches_reflexive(t: Texture)
    ensures
        texture_matches(t, t),
    decreases t,
{
    match t {
        Texture::Checker(c) => {
            lemma_texture_matches_reflexive(*c.odd);
            lemma_texture_matches_reflexive(*c.even);
        },
        _ => {},
    }
}

/// Matching textures are well-formed together.
pub proof fn lemma_texture_matches_wf(a: Texture, b: Texture)
    requires
        texture_matches(a, b),
    ensures
        a.wf() == b.wf(),
    decreases a,
{
    match (a, b) {
        (Texture::Checker(x), Texture::Checker(y)) => {
            lemma_texture_matches_wf(*x.odd, *y.odd);
            lemma_texture_matches_wf(*x.even, *y.even);
        },
        _ => {},
    }
}

impl Texture {
    /// A structural duplicate, so many surfaces can carry one texture.
    pub fn dup(&self) -> (r: Texture)
        ensures
            texture_matches(*self, r),
        decreases *self,
    {
        match self {
            Texture::Solid(t) => Texture::Solid(SolidColor { color_value: t.color_value }),
            Texture::Checker(t) => Texture::Checker(Box::new(CheckerTexture {
                odd: Box::new(t.odd.dup()),
                even: Box::new(t.even.dup()),
            })),
            Texture::Image(t) => {
                let data = clone_bytes(&t.data);
                Texture::Image(ImageTexture { data, width: t.width, height: t.height })
            },
            Texture::Noise(t) => {
                Texture::Noise(NoiseTexture {
                    noise: crate::perlin::Perlin {
                        ranvec: clone_units(&t.noise.ranvec),
                        perm_x: clone_bytes(&t.noise.perm_x),
                        perm_y: clone_bytes(&t.noise.perm_y),
                        perm_z: clone_bytes(&t.noise.perm_z),
                    },
                    scale: t.scale,
                })
            },
        }
    }
}

/// Copy a byte table.
fn clone_bytes(v: &Vec<u8>) -> (r: Vec<u8>)
    ensures
        r@ == v@,
{
    let mut r: Vec<u8> = Vec::new();
    let mut i: usize = 0;
    while i < v.len()
        invariant
            i <= v@.len(),
            r@ == v@.take(i as int),
        decreases v@.len() - i,
    {
        r.push(v[i]);
        i = i + 1;
    }
    proof {
        assert(r@ =~= v@);
    }
    r
}

/// Copy a gradient table.
fn clone_units(v: &Vec<Vec3>) -> (r: Vec<Vec3>)
    ensures
        r@ == v@,
{
    let mut r: Vec<Vec3> = Vec::new();
    let mut i: usize = 0;
    while i < v.len()
        invariant
            i <= v@.len(),
            r@ == v@.take(i as int),
        decreases v@.len() - i,
    {
        r.push(v[i]);
        i = i + 1;
    }
    proof {
        assert(r@ =~= v@);
    }
    r
}

} // verus!
