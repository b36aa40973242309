//! The glass material: reflection or refraction chosen by Schlick's
//! approximate Fresnel reflectance.

use vstd::prelude::*;
use crate::math::{SCALE, clamp64, div_floor, isqrt};
use crate::vec3::Vec3;

verus! {

pub struct Dielectric {
    pub ref_idx: i64,
}

impl Dielectric {
    pub open spec fn wf(self) -> bool {
        SCALE / 8 <= self.ref_idx <= 8 * SCALE
    }

    pub fn new(ref_idx: i64) -> (m: Dielectric)
        ensures
            m.ref_idx == ref_idx,
    {
        Dielectric { ref_idx }
    }
}

/// Schlick's approximation of the Fresnel reflectance, in fixed point:
/// `r0 + (1 - r0) * (1 - cos)^5` with `r0 = ((1 - eta) / (1 + eta))^2`.
pub open spec fn reflectance_spec(cosine: int, ref_idx: int) -> int {
    let r0a = ((1024 - ref_idx) * 1024) / (1024 + ref_idx);
    let r0b0 = if r0a >= 0 { r0a } else { -r0a };
    let r0b = if r0b0 > 1024 { 1024int } else { r0b0 };
    let r0 = (r0b * r0b) / 1024;
    let q0 = 1024 - cosine;
    let q = if q0 < 0 { 0int } else if q0 > 2048 { 2048int } else { q0 };
    let q2 = (q * q) / 1024;
    let q4 = (q2 * q2) / 1024;
    let q5 = (q4 * q) / 1024;
    let tail = ((1024 - r0) * q5) / 1024;
    let out = r0 + tail;
    if out < 0 { 0int } else if out > 1024 { 1024int } else { out }
}

pub fn reflectance(cosine: i64, ref_idx: i64) -> (r: i64)
    requires
        -12 * SCALE <= cosine <= SCALE,
        SCALE / 64 <= ref_idx <= 64 * SCALE,
    ensures
        0 <= r <= SCALE,
        r == reflectance_spec(cosine as int, ref_idx as int),
{
    proof {
        crate::math::lemma_mul_bound((SCALE - ref_idx) as int, 1024, 66560, 1024);
        crate::math::lemma_div_bound((SCALE - ref_idx) * 1024, 65536, 1040);
    }
    let r0a = div_floor((SCALE - ref_idx) * 1024, SCALE + ref_idx);
    let r0b = clamp64(if r0a >= 0 { r0a } else { -r0a }, 0, SCALE);
    proof {
        crate::math::lemma_mul_bound(r0b as int, r0b as int, 1024, 1024);
        crate::math::lemma_div_bound(r0b * r0b, 1024, 1024);
    }
    let r0 = div_floor(r0b * r0b, SCALE);
    let q = clamp64(SCALE - cosine, 0, 2 * SCALE);
    proof {
        crate::math::lemma_mul_bound(q as int, q as int, 2048, 2048);
        crate::math::lemma_div_bound(q * q, 4096, 1024);
    }
    let q2 = div_floor(q * q, SCALE);
    proof {
        crate::math::lemma_mul_bound(q2 as int, q2 as int, 4096, 4096);
        crate::math::lemma_div_bound(q2 * q2, 16384, 1024);
    }
    let q4 = div_floor(q2 * q2, SCALE);
    proof {
        crate::math::lemma_mul_bound(q4 as int, q as int, 16384, 2048);
        crate::math::lemma_div_bound(q4 * q, 32768, 1024);
    }
    let q5 = div_floor(q4 * q, SCALE);
    proof {
        crate::math::lemma_mul_bound((SCALE - r0) as int, q5 as int, 1024, 32768);
        crate::math::lemma_div_bound((SCALE - r0) * q5, 32768, 1024);
    }
    let tail = div_floor((SCALE - r0) * q5, SCALE);
    clamp64(r0 + tail, 0, SCALE)
}

} // verus!

verus! {

/// The refraction ratio the glass uses: inverted when the ray comes from
/// outside.
pub open spec fn ratio_spec(m: Dielectric, front: bool) -> int {
    if front {
        1048576int / (m.ref_idx as int)
    } else {
        m.ref_idx as int
    }
}

/// The incidence cosine the glass computes from the unit direction and the
/// stored normal, capped at one unit.
pub open spec fn incidence_cos_spec(unit: Vec3, normal: Vec3) -> int {
    let c0 = (-Vec3::dot_spec(unit, normal)) / 1024;
    if c0 > 1024 {
        1024int
    } else {
        c0
    }
}

/// The matching sine, from the complement under one squared unit.
pub open spec fn incidence_sin_spec(cos: int) -> int {
    let s2 = 1048576 - cos * cos;
    crate::math::sqrt_floor(if s2 >= 0 { s2 } else { 0 })
}

/// Snell's law has no solution: the ratio times the sine exceeds one.
pub open spec fn total_internal_reflection_spec(ratio: int, sin: int) -> bool {
    ratio * sin > 1048576
}

/// Refract through or reflect off the surface, weighting reflection by
/// Schlick's approximation against a uniform draw.
pub fn dielectric_scatter(m: &Dielectric, r_in: &crate::ray::Ray, rec: &crate::hittable::HitRecord)
    -> (sr: crate::material::ScatterRecord)
    requires
        m.wf(),
        r_in.wf(),
        rec.wf_geom(),
    ensures
        sr.attenuation == (Vec3 { x: SCALE, y: SCALE, z: SCALE }),
        sr.scattered matches crate::material::ScatterType::Specular(ray) && {
            let unit = r_in.direction.unit_spec();
            let ratio = ratio_spec(*m, rec.front_face);
            let cos = incidence_cos_spec(unit, rec.normal);
            let sin = incidence_sin_spec(cos);
            let dir = (ray.direction.x as int, ray.direction.y as int, ray.direction.z as int);
            &&& ray.origin == rec.p
            &&& ray.time == r_in.time
            &&& ray.wf()
            &&& (dir == Vec3::reflect_spec(unit, rec.normal)
                || dir == Vec3::refract_spec(unit, rec.normal, ratio))
            &&& (total_internal_reflection_spec(ratio, sin)
                ==> dir == Vec3::reflect_spec(unit, rec.normal))
            &&& (!total_internal_reflection_spec(ratio, sin)
                && reflectance_spec(cos, ratio) <= 0
                ==> dir == Vec3::refract_spec(unit, rec.normal, ratio))
            &&& (!total_internal_reflection_spec(ratio, sin)
                && reflectance_spec(cos, ratio) >= SCALE
                ==> dir == Vec3::reflect_spec(unit, rec.normal))
        },
{
    let ratio = if rec.front_face {
        div_floor(1048576, m.ref_idx)
    } else {
        m.ref_idx
    };
    proof {
        if rec.front_face {
            crate::math::lemma_div_bound(1048576, 8192, m.ref_idx as int);
            vstd::arithmetic::div_mod::lemma_fundamental_div_mod(1048576, m.ref_idx as int);
            assert(1048576int / (m.ref_idx as int) >= 128) by (nonlinear_arith)
                requires
                    128 <= m.ref_idx <= 8192,
                    1048576int == (m.ref_idx as int) * (1048576int / (m.ref_idx as int))
                        + 1048576int % (m.ref_idx as int),
                    0 <= 1048576int % (m.ref_idx as int) < m.ref_idx as int,
            ;
        }
    }
    let unit = r_in.direction.normalize();
    proof {
        crate::math::lemma_mul_bound(unit.x as int, rec.normal.x as int, 1024, 2048);
        crate::math::lemma_mul_bound(unit.y as int, rec.normal.y as int, 1024, 2048);
        crate::math::lemma_mul_bound(unit.z as int, rec.normal.z as int, 1024, 2048);
        crate::math::lemma_div_bound(Vec3::dot_spec(unit, rec.normal), 6144, 1024);
    }
    let d0 = unit.dot(&rec.normal);
    proof {
        crate::math::lemma_div_bound(-d0 as int, 6144, 1024);
    }
    let cos0 = div_floor(-d0, SCALE);
    let cos = if cos0 > SCALE { SCALE } else { cos0 };
    proof {
        crate::math::lemma_mul_bound(cos as int, cos as int, 6144, 6144);
        assert(cos * cos >= 0) by (nonlinear_arith);
    }
    let s2 = 1048576 - cos * cos;
    let s2c = if s2 >= 0 { s2 } else { 0 };
    let sin = isqrt(s2c as u128);
    proof {
        assert(sin <= 1024) by (nonlinear_arith)
            requires
                (sin as int) * (sin as int) <= 1048576,
                sin >= 0,
        ;
    }
    let sin64 = sin as i64;
    proof {
        crate::math::lemma_mul_bound(ratio as int, sin64 as int, 8192, 1024);
    }
    let cannot_refract = ratio * sin64 > 1048576;
    let draw = crate::rng::random_in_range(0, SCALE);
    let direction = if cannot_refract || reflectance(cos, ratio) > draw {
        unit.reflect(&rec.normal)
    } else {
        unit.refract(&rec.normal, ratio)
    };
    proof {
        assert(ratio as int == ratio_spec(*m, rec.front_face));
        assert(unit == r_in.direction.unit_spec());
        assert(direction.bounded(1024 * SCALE as int) || direction.bounded(400 * SCALE as int));
        assert(1024 * SCALE as int == 1048576);
        assert(400 * SCALE as int == 409600);
        assert(-0x100_0000 <= direction.x <= 0x100_0000);
        assert(direction.in_range());
        assert((direction.x as int, direction.y as int, direction.z as int)
            == Vec3::reflect_spec(r_in.direction.unit_spec(), rec.normal)
            || (direction.x as int, direction.y as int, direction.z as int)
            == Vec3::refract_spec(r_in.direction.unit_spec(), rec.normal,
                ratio_spec(*m, rec.front_face)));
    }
    crate::material::ScatterRecord {
        attenuation: Vec3 { x: SCALE, y: SCALE, z: SCALE },
        scattered: crate::material::ScatterType::Specular(crate::ray::Ray {
            origin: rec.p,
            direction,
            time: r_in.time,
        }),
    }
}


/// At normal incidence through matched indices (a refraction ratio of
/// one), the glass deterministically refracts and the refraction is the
/// identity: the ray does not bend.  Stated for an exactly unit-length
/// direction and normal, where the fixed-point arithmetic is exact; with
/// `dielectric_scatter`'s branch clauses this pins the scattered
/// direction to the incoming one.
pub proof fn lemma_matched_normal_incidence_no_bend(d: Vec3, n: Vec3, m: Dielectric)
    requires
        d.x == -n.x && d.y == -n.y && d.z == -n.z,
        Vec3::dot_spec(n, n) == SCALE * SCALE,
        n.bounded(2 * SCALE as int),
        m.ref_idx == SCALE,
    ensures
        ratio_spec(m, true) == 1024,
        ratio_spec(m, false) == 1024,
        d.unit_spec() == d,
        ({
            let cos = incidence_cos_spec(d, n);
            &&& cos == 1024
            &&& incidence_sin_spec(cos) == 0
            &&& !total_internal_reflection_spec(1024, incidence_sin_spec(cos))
            &&& reflectance_spec(cos, 1024) == 0
        }),
        Vec3::refract_spec(d, n, 1024) == (d.x as int, d.y as int, d.z as int),
{
    assert(1048576int / 1024 == 1024);
    assert(Vec3::dot_spec(d, d) == Vec3::dot_spec(n, n)
        && Vec3::dot_spec(d, n) == -Vec3::dot_spec(n, n)) by (nonlinear_arith)
        requires
            d.x == -n.x && d.y == -n.y && d.z == -n.z,
    ;
    crate::math::lemma_sqrt_floor_unique(1048576, 1024);
    vstd::arithmetic::div_mod::lemma_div_multiples_vanish(d.x as int, 1024);
    vstd::arithmetic::div_mod::lemma_div_multiples_vanish(d.y as int, 1024);
    vstd::arithmetic::div_mod::lemma_div_multiples_vanish(d.z as int, 1024);
    assert((d.x as int) * 1024 == 1024 * (d.x as int)) by (nonlinear_arith);
    assert((d.y as int) * 1024 == 1024 * (d.y as int)) by (nonlinear_arith);
    assert((d.z as int) * 1024 == 1024 * (d.z as int)) by (nonlinear_arith);
    let cos = incidence_cos_spec(d, n);
    assert(cos == 1024);
    assert(1048576 - 1024int * 1024 == 0);
    crate::math::lemma_sqrt_floor_unique(0, 0);
    assert(incidence_sin_spec(1024) == 0);
    assert(1024int * 0 == 0) by (nonlinear_arith);
    assert(reflectance_spec(1024, 1024) == 0) by {
        assert((1024int - 1024) * 1024 == 0) by (nonlinear_arith);
        assert(0int / 2048 == 0);
        assert(0int * 0 == 0) by (nonlinear_arith);
        assert(0int / 1024 == 0);
        assert((1024int - 0) * 0 == 0) by (nonlinear_arith);
    }
    crate::vec3::lemma_refract_matched_normal_incidence(d, n);
}

} // verus!
