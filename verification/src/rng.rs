//! Random draws for the sampling layer.
//!
//! Only the two wrappers at the top touch the random-number generator; every
//! function built on them states what holds of any outcome.

use vstd::prelude::*;
use crate::math::SCALE;
use crate::vec3::Vec3;

verus! {

/// Relies on `rand::Rng::gen_range` over `lo..hi`: the draw lies in the
/// half-open range, and only an empty range would panic.
#[verifier::external_body]
pub(crate) fn random_in_range(lo: i64, hi: i64) -> (r: i64)
    requires
        lo < hi,
    ensures
        lo <= r < hi,
{
    rand::Rng::gen_range(&mut rand::thread_rng(), lo..hi)
}

/// Relies on `rand::Rng::gen_range` over `0..n`: the draw is a valid index,
/// and only an empty range would panic.
#[verifier::external_body]
pub(crate) fn random_index(n: usize) -> (r: usize)
    requires
        0 < n,
    ensures
        r < n,
{
    rand::Rng::gen_range(&mut rand::thread_rng(), 0..n)
}

/// A vector whose components are uniform draws from `[min, max)`.
pub fn random_vec_range(min: i64, max: i64) -> (v: Vec3)
    requires
        min < max,
    ensures
        min <= v.x < max,
        min <= v.y < max,
        min <= v.z < max,
{
    Vec3 {
        x: random_in_range(min, max),
        y: random_in_range(min, max),
        z: random_in_range(min, max),
    }
}

/// A vector whose components are uniform draws from one fixed-point unit.
pub fn random_vec() -> (v: Vec3)
    ensures
        0 <= v.x < SCALE,
        0 <= v.y < SCALE,
        0 <= v.z < SCALE,
{
    random_vec_range(0, SCALE)
}

/// A draw from the open unit ball, by bounded rejection sampling; after too
/// many rejections an axis vector just inside the ball is used instead.
pub fn random_vec_in_unit_sphere() -> (v: Vec3)
    ensures
        Vec3::dot_spec(v, v) < SCALE * SCALE,
        v.bounded(SCALE as int),
{
    let mut tries: u32 = 0;
    while tries < 64
        invariant
            tries <= 64,
        decreases 64 - tries,
    {
        let p = random_vec_range(-(SCALE - 1), SCALE);
        if p.dot(&p) < SCALE * SCALE {
            return p;
        }
        tries = tries + 1;
    }
    proof {
        assert((SCALE - 1) * (SCALE - 1) < SCALE * SCALE) by (nonlinear_arith)
            requires
                SCALE == 1024,
        ;
    }
    Vec3 { x: SCALE - 1, y: 0, z: 0 }
}

/// A unit-length draw: a ball sample pushed out to the unit sphere.
pub fn random_unit_vector() -> (v: Vec3)
    ensures
        v.bounded(SCALE as int),
{
    let p = random_vec_in_unit_sphere();
    p.normalize()
}

} // verus!
