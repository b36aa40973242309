//! The recursive radiance estimator that drives the whole renderer.

use vstd::prelude::*;
use crate::hittable::{Hittable, hit_spec};
use crate::material::{Material, ScatterType};
use crate::texture::Texture;
use crate::math::{CMAX, SCALE, TMAX, clamp64, div_floor_wide};
use crate::pdf::Pdf;
use crate::pdf::hittable::HittablePdf;
use crate::pdf::mixture::MixturePdf;
use crate::ray::Ray;
use crate::vec3::Vec3;

verus! {

/// Every channel is a displayable nonnegative energy below the cap.
pub open spec fn color_ok(c: Vec3) -> bool {
    0 <= c.x <= CMAX && 0 <= c.y <= CMAX && 0 <= c.z <= CMAX
}

/// One channel of `a * b / SCALE`, saturated into the color range.
pub open spec fn mul_channel_spec(a: int, b: int) -> int {
    let q = (a * b) / 1024;
    if q > CMAX as int {
        CMAX as int
    } else {
        q
    }
}

fn mul_channel(a: i64, b: i64) -> (r: i64)
    requires
        0 <= a <= CMAX,
        0 <= b <= CMAX,
    ensures
        0 <= r <= CMAX,
        r == mul_channel_spec(a as int, b as int),
{
    proof {
        crate::math::lemma_mul_bound(a as int, b as int, CMAX as int, CMAX as int);
        assert((a as int) * (b as int) >= 0) by (nonlinear_arith)
            requires
                a >= 0,
                b >= 0,
        ;
    }
    let wide = (a as i128) * (b as i128);
    let q = div_floor_wide(wide, 1024);
    if q > CMAX as i128 {
        CMAX
    } else {
        q as i64
    }
}

/// Componentwise color attenuation, saturated into the color range.
fn attenuate(a: Vec3, c: Vec3) -> (r: Vec3)
    requires
        color_ok(a),
        color_ok(c),
    ensures
        color_ok(r),
        r.x == mul_channel_spec(a.x as int, c.x as int),
        r.y == mul_channel_spec(a.y as int, c.y as int),
        r.z == mul_channel_spec(a.z as int, c.z as int),
{
    Vec3 {
        x: mul_channel(a.x, c.x),
        y: mul_channel(a.y, c.y),
        z: mul_channel(a.z, c.z),
    }
}

/// One channel of the diffuse estimator:
/// `attenuation * scattering_pdf * radiance / (SCALE * pdf)`, saturated.
pub open spec fn weigh_channel_spec(a: int, spdf: int, rad: int, pdf_val: int) -> int {
    let w1 = (a * spdf) / 1024;
    let w2 = (w1 * rad) / 1024;
    let w3 = (w2 * 1024) / pdf_val;
    if w3 > CMAX as int {
        CMAX as int
    } else {
        w3
    }
}

fn weigh_channel(a: i64, spdf: i64, rad: i64, pdf_val: i64) -> (r: i64)
    requires
        0 <= a <= CMAX,
        0 <= spdf <= SCALE,
        0 <= rad <= CMAX,
        1 <= pdf_val <= CMAX,
    ensures
        0 <= r <= CMAX,
        r == weigh_channel_spec(a as int, spdf as int, rad as int, pdf_val as int),
{
    proof {
        crate::math::lemma_mul_bound(a as int, spdf as int, CMAX as int, SCALE as int);
        assert((a as int) * (spdf as int) >= 0 && (rad as int) >= 0) by (nonlinear_arith)
            requires
                a >= 0,
                spdf >= 0,
                rad >= 0,
        ;
    }
    let num1 = (a as i128) * (spdf as i128);
    let w1 = div_floor_wide(num1, 1024);
    proof {
        crate::math::lemma_mul_bound(w1 as int, rad as int,
            0x100_0000_0000_0000_0000int, CMAX as int);
        assert(w1 * (rad as i128) >= 0) by (nonlinear_arith)
            requires
                w1 >= 0,
                rad >= 0,
        ;
    }
    let num2 = w1 * (rad as i128);
    let w2 = div_floor_wide(num2, 1024);
    proof {
        crate::math::lemma_mul_bound(w2 as int, 1024,
            0x10_0000_0000_0000_0000_0000_0000_0000int, 1024int);
        assert(w2 * 1024 >= 0) by (nonlinear_arith)
            requires
                w2 >= 0,
        ;
    }
    let w3 = div_floor_wide(w2 * 1024, pdf_val as i128);
    if w3 > CMAX as i128 {
        CMAX
    } else {
        w3 as i64
    }
}

/// The radiance carried back along a camera or bounce ray.
///
/// The bounce budget makes the recursion terminate on every scene,
/// mirrored boxes included, and every returned channel is a finite
/// nonnegative energy below the cap.  A ray that the scene's intersection
/// semantics misses entirely returns exactly the background color.
pub fn ray_color(r: &Ray, background: Vec3, world: &Hittable, lights: &Hittable, depth: u32)
    -> (c: Vec3)
    requires
        world.wf(),
        lights.wf(),
        r.wf(),
        color_ok(background),
    ensures
        color_ok(c),
        depth == 0 ==> c == (Vec3 { x: 0i64, y: 0i64, z: 0i64 }),
        depth > 0 && world.deterministic() && hit_spec(*world, *r, 1, TMAX - 1) is None
            ==> c == background,
        depth > 0 && world.deterministic() ==> (match hit_spec(*world, *r, 1, TMAX - 1) {
            Option::Some(hd) => hd.mat matches Material::DiffuseLight(dl) ==> {
                &&& (!hd.front_face ==> c == (Vec3 { x: 0i64, y: 0i64, z: 0i64 }))
                &&& (hd.front_face ==> (dl.emit matches Texture::Solid(sc)
                    ==> c == sc.color_value))
            },
            Option::None => true,
        }),
    decreases depth,
{
    if depth == 0 {
        return Vec3 { x: 0, y: 0, z: 0 };
    }
    let rec = match world.hit(r, 1, TMAX - 1) {
        Option::Some(rec) => rec,
        Option::None => {
            return background;
        },
    };
    let emitted = rec.mat.emitted(r, &rec, rec.u, rec.v, rec.p);
    let sr = match rec.mat.scatter(r, &rec) {
        Option::Some(sr) => sr,
        Option::None => {
            return emitted;
        },
    };
    if emitted.near_zero() && sr.attenuation.near_zero() {
        return Vec3 { x: 0, y: 0, z: 0 };
    }
    match sr.scattered {
        ScatterType::Specular(specular_ray) => {
            let rc = ray_color(&specular_ray, background, world, lights, depth - 1);
            let filtered = attenuate(sr.attenuation, rc);
            Vec3 {
                x: clamp64(emitted.x + filtered.x, 0, CMAX),
                y: clamp64(emitted.y + filtered.y, 0, CMAX),
                z: clamp64(emitted.z + filtered.z, 0, CMAX),
            }
        },
        ScatterType::Diffuse(pdf) => {
            let light_pdf = HittablePdf::new(lights, rec.p);
            let p = MixturePdf::new(Pdf::Shape(light_pdf), Pdf::Cosine(pdf));
            let direction = p.generate();
            let scattered = Ray { origin: rec.p, direction, time: r.time };
            let pdf_val = p.value(direction);
            if pdf_val <= 0 {
                return emitted;
            }
            let spdf = rec.mat.scattering_pdf(r, &rec, &scattered);
            let rc = ray_color(&scattered, background, world, lights, depth - 1);
            Vec3 {
                x: clamp64(emitted.x + weigh_channel(sr.attenuation.x, spdf, rc.x, pdf_val),
                    0, CMAX),
                y: clamp64(emitted.y + weigh_channel(sr.attenuation.y, spdf, rc.y, pdf_val),
                    0, CMAX),
                z: clamp64(emitted.z + weigh_channel(sr.attenuation.z, spdf, rc.z, pdf_val),
                    0, CMAX),
            }
        },
    }
}

} // verus!
