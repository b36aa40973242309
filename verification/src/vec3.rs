//! Three-component fixed-point vectors, used for points, directions and
//! colors alike.

use vstd::prelude::*;
use crate::math::{SCALE, VMAX, div_floor, isqrt, lemma_mul_bound, sqrt_floor};
use vstd::arithmetic::div_mod::{lemma_div_is_ordered, lemma_div_multiples_vanish};

verus! {

/// A vector of three fixed-point scalars.
#[derive(Clone, Copy, Debug, PartialEq, Eq, Structural)]
pub struct Vec3 {
    pub x: i64,
    pub y: i64,
    pub z: i64,
}

impl Vec3 {
    /// All components lie within the stored-coordinate range.
    pub open spec fn in_range(self) -> bool {
        -VMAX <= self.x <= VMAX && -VMAX <= self.y <= VMAX && -VMAX <= self.z <= VMAX
    }

    /// All components lie within `bound`.
    pub open spec fn bounded(self, bound: int) -> bool {
        -bound <= self.x <= bound && -bound <= self.y <= bound && -bound <= self.z <= bound
    }

    pub fn new(x: i64, y: i64, z: i64) -> (v: Vec3)
        ensures
            v == (Vec3 { x, y, z }),
    {
        Vec3 { x, y, z }
    }

    pub fn zeros() -> (v: Vec3)
        ensures
            v == (Vec3 { x: 0i64, y: 0i64, z: 0i64 }),
    {
        Vec3 { x: 0, y: 0, z: 0 }
    }

    /// The component selected by `axis` (0, 1 or 2).
    pub open spec fn axis_spec(self, axis: int) -> int {
        if axis == 0 {
            self.x as int
        } else if axis == 1 {
            self.y as int
        } else {
            self.z as int
        }
    }

    pub fn axis(&self, axis: usize) -> (c: i64)
        requires
            axis < 3,
        ensures
            c == self.axis_spec(axis as int),
    {
        if axis == 0 {
            self.x
        } else if axis == 1 {
            self.y
        } else {
            self.z
        }
    }

    pub fn add(&self, o: &Vec3) -> (v: Vec3)
        requires
            self.x + o.x <= i64::MAX,
            self.y + o.y <= i64::MAX,
            self.z + o.z <= i64::MAX,
            i64::MIN <= self.x + o.x,
            i64::MIN <= self.y + o.y,
            i64::MIN <= self.z + o.z,
        ensures
            v.x == self.x + o.x,
            v.y == self.y + o.y,
            v.z == self.z + o.z,
    {
        Vec3 { x: self.x + o.x, y: self.y + o.y, z: self.z + o.z }
    }

    pub fn sub(&self, o: &Vec3) -> (v: Vec3)
        requires
            self.x - o.x <= i64::MAX,
            self.y - o.y <= i64::MAX,
            self.z - o.z <= i64::MAX,
            i64::MIN <= self.x - o.x,
            i64::MIN <= self.y - o.y,
            i64::MIN <= self.z - o.z,
        ensures
            v.x == self.x - o.x,
            v.y == self.y - o.y,
            v.z == self.z - o.z,
    {
        Vec3 { x: self.x - o.x, y: self.y - o.y, z: self.z - o.z }
    }

    pub fn neg(&self) -> (v: Vec3)
        requires
            self.x > i64::MIN,
            self.y > i64::MIN,
            self.z > i64::MIN,
        ensures
            v.x == -self.x,
            v.y == -self.y,
            v.z == -self.z,
    {
        Vec3 { x: -self.x, y: -self.y, z: -self.z }
    }

    /// Scale by a fixed-point factor: each component becomes
    /// `c * k / SCALE`, rounded toward negative infinity.
    pub fn scale(&self, k: i64) -> (v: Vec3)
        requires
            self.bounded(0x4000_0000),
            -0x4000_0000 <= k <= 0x4000_0000,
        ensures
            v.x == (self.x * k) / (SCALE as int),
            v.y == (self.y * k) / (SCALE as int),
            v.z == (self.z * k) / (SCALE as int),
            v.bounded(0x1_0000_0000_0000_0000),
    {
        proof {
            lemma_mul_bound(self.x as int, k as int, 0x4000_0000, 0x4000_0000);
            lemma_mul_bound(self.y as int, k as int, 0x4000_0000, 0x4000_0000);
            lemma_mul_bound(self.z as int, k as int, 0x4000_0000, 0x4000_0000);
        }
        Vec3 {
            x: div_floor(self.x * k, SCALE),
            y: div_floor(self.y * k, SCALE),
            z: div_floor(self.z * k, SCALE),
        }
    }

    /// The exact dot product, carrying two factors of `SCALE`.
    pub open spec fn dot_spec(a: Vec3, b: Vec3) -> int {
        a.x * b.x + a.y * b.y + a.z * b.z
    }

    pub fn dot(&self, o: &Vec3) -> (d: i64)
        requires
            self.bounded(0x4000_0000),
            o.bounded(0x4000_0000),
        ensures
            d == Vec3::dot_spec(*self, *o),
            -3 * 0x4000_0000 * 0x4000_0000 <= d <= 3 * 0x4000_0000 * 0x4000_0000,
    {
        proof {
            lemma_mul_bound(self.x as int, o.x as int, 0x4000_0000, 0x4000_0000);
            lemma_mul_bound(self.y as int, o.y as int, 0x4000_0000, 0x4000_0000);
            lemma_mul_bound(self.z as int, o.z as int, 0x4000_0000, 0x4000_0000);
        }
        self.x * o.x + self.y * o.y + self.z * o.z
    }

    /// The exact cross product divided by `SCALE`, so the result carries a
    /// single factor of `SCALE` like its arguments.
    pub fn cross(&self, o: &Vec3) -> (v: Vec3)
        requires
            self.bounded(0x4000_0000),
            o.bounded(0x4000_0000),
        ensures
            v.x == (self.y * o.z - self.z * o.y) / (SCALE as int),
            v.y == (self.z * o.x - self.x * o.z) / (SCALE as int),
            v.z == (self.x * o.y - self.y * o.x) / (SCALE as int),
    {
        proof {
            lemma_mul_bound(self.y as int, o.z as int, 0x4000_0000, 0x4000_0000);
            lemma_mul_bound(self.z as int, o.y as int, 0x4000_0000, 0x4000_0000);
            lemma_mul_bound(self.z as int, o.x as int, 0x4000_0000, 0x4000_0000);
            lemma_mul_bound(self.x as int, o.z as int, 0x4000_0000, 0x4000_0000);
            lemma_mul_bound(self.x as int, o.y as int, 0x4000_0000, 0x4000_0000);
            lemma_mul_bound(self.y as int, o.x as int, 0x4000_0000, 0x4000_0000);
        }
        Vec3 {
            x: div_floor(self.y * o.z - self.z * o.y, SCALE),
            y: div_floor(self.z * o.x - self.x * o.z, SCALE),
            z: div_floor(self.x * o.y - self.y * o.x, SCALE),
        }
    }

    /// What `normalize` computes: components rescaled by
    /// `SCALE / sqrt_floor(|v|^2)`, or the vector itself when it is zero.
    pub open spec fn normalize_spec(self) -> (int, int, int) {
        let len = sqrt_floor(Vec3::dot_spec(self, self));
        if len >= 1 {
            (
                (self.x * SCALE) / len,
                (self.y * SCALE) / len,
                (self.z * SCALE) / len,
            )
        } else {
            (self.x as int, self.y as int, self.z as int)
        }
    }

    /// `normalize_spec` packed back into a vector.
    pub open spec fn unit_spec(self) -> Vec3 {
        let (x, y, z) = self.normalize_spec();
        Vec3 { x: x as i64, y: y as i64, z: z as i64 }
    }

    /// Rescale so the length is close to one fixed-point unit.
    pub fn normalize(&self) -> (r: Vec3)
        requires
            self.bounded(0x4000_0000),
        ensures
            (r.x as int, r.y as int, r.z as int) == self.normalize_spec(),
            r == self.unit_spec(),
            r.bounded(SCALE as int),
    {
        proof {
            lemma_dot_self_nonneg(*self);
        }
        let d = self.dot(self);
        let len = isqrt(d as u128);
        if len == 0 {
            proof {
                lemma_dot_self_component_bound(*self);
                assert((len as int + 1) * (len as int + 1) == 1) by (nonlinear_arith)
                    requires
                        len == 0,
                ;
                assert(d < 1);
                assert(self.x == 0 && self.y == 0 && self.z == 0) by (nonlinear_arith)
                    requires
                        self.x * self.x <= d,
                        self.y * self.y <= d,
                        self.z * self.z <= d,
                        d < 1,
                ;
            }
            *self
        } else {
            proof {
                lemma_dot_self_component_bound(*self);
                assert(-(len as int) <= self.x <= len as int
                    && -(len as int) <= self.y <= len as int
                    && -(len as int) <= self.z <= len as int) by (nonlinear_arith)
                    requires
                        self.x * self.x <= d,
                        self.y * self.y <= d,
                        self.z * self.z <= d,
                        d < (len as int + 1) * (len as int + 1),
                        len >= 1,
                ;
                lemma_scaled_component_bounded(self.x as int, len as int);
                lemma_scaled_component_bounded(self.y as int, len as int);
                lemma_scaled_component_bounded(self.z as int, len as int);
                assert(len < 0x1_0000_0000u64) by (nonlinear_arith)
                    requires
                        (len as int) * (len as int) <= d,
                        d <= 0x3000_0000_0000_0000,
                        len >= 0,
                ;
            }
            let l = len as i64;
            Vec3 {
                x: div_floor(self.x * SCALE, l),
                y: div_floor(self.y * SCALE, l),
                z: div_floor(self.z * SCALE, l),
            }
        }
    }

    /// What `reflect` computes: the mirror image about the plane whose
    /// fixed-point unit normal is `n`.
    pub open spec fn reflect_spec(v: Vec3, n: Vec3) -> (int, int, int) {
        let k = (2 * Vec3::dot_spec(v, n)) / (SCALE as int);
        (
            v.x - (n.x * k) / (SCALE as int),
            v.y - (n.y * k) / (SCALE as int),
            v.z - (n.z * k) / (SCALE as int),
        )
    }

    /// Mirror the vector about the plane with unit normal `n`.
    pub fn reflect(&self, normal: &Vec3) -> (r: Vec3)
        requires
            self.bounded(4 * SCALE as int),
            normal.bounded(4 * SCALE as int),
        ensures
            (r.x as int, r.y as int, r.z as int) == Vec3::reflect_spec(*self, *normal),
            r.bounded(400 * SCALE as int),
    {
        let d = self.dot(normal);
        proof {
            lemma_mul_bound(self.x as int, normal.x as int, 4096, 4096);
            lemma_mul_bound(self.y as int, normal.y as int, 4096, 4096);
            lemma_mul_bound(self.z as int, normal.z as int, 4096, 4096);
        }
        let k = div_floor(2 * d, SCALE);
        proof {
            crate::math::lemma_div_bound(2 * d as int, 98304, 1024);
            lemma_mul_bound(normal.x as int, k as int, 4096, 98304);
            lemma_mul_bound(normal.y as int, k as int, 4096, 98304);
            lemma_mul_bound(normal.z as int, k as int, 4096, 98304);
            crate::math::lemma_div_bound(normal.x * k, 393216, 1024);
            crate::math::lemma_div_bound(normal.y * k, 393216, 1024);
            crate::math::lemma_div_bound(normal.z * k, 393216, 1024);
        }
        Vec3 {
            x: self.x - div_floor(normal.x * k, SCALE),
            y: self.y - div_floor(normal.y * k, SCALE),
            z: self.z - div_floor(normal.z * k, SCALE),
        }
    }

    /// What `refract` computes under Snell's law with fixed-point ratio
    /// `etai_over_etat`; the parallel part uses the magnitude of the
    /// remaining length like the mirror-image fallback of total internal
    /// reflection.
    pub open spec fn refract_spec(v: Vec3, n: Vec3, ratio: int) -> (int, int, int) {
        let cos = vstd::math::min((-Vec3::dot_spec(v, n)) / (SCALE as int), SCALE as int);
        let px = ((v.x + (n.x * cos) / (SCALE as int)) * ratio) / (SCALE as int);
        let py = ((v.y + (n.y * cos) / (SCALE as int)) * ratio) / (SCALE as int);
        let pz = ((v.z + (n.z * cos) / (SCALE as int)) * ratio) / (SCALE as int);
        let rem = SCALE * SCALE - (px * px + py * py + pz * pz);
        let len_par = sqrt_floor(if rem >= 0 { rem } else { -rem });
        (
            px + (n.x * -len_par) / (SCALE as int),
            py + (n.y * -len_par) / (SCALE as int),
            pz + (n.z * -len_par) / (SCALE as int),
        )
    }

    /// Bend the unit direction through a surface with unit normal `n`.
    pub fn refract(&self, normal: &Vec3, etai_over_etat: i64) -> (r: Vec3)
        requires
            self.bounded(2 * SCALE as int),
            normal.bounded(2 * SCALE as int),
            0 <= etai_over_etat <= 8 * SCALE,
        ensures
            (r.x as int, r.y as int, r.z as int) == Vec3::refract_spec(
                *self, *normal, etai_over_etat as int),
            r.bounded(1024 * SCALE as int),
    {
        let d = self.dot(normal);
        proof {
            lemma_mul_bound(self.x as int, normal.x as int, 2048, 2048);
            lemma_mul_bound(self.y as int, normal.y as int, 2048, 2048);
            lemma_mul_bound(self.z as int, normal.z as int, 2048, 2048);
        }
        let cos = min_cos(div_floor(-d, SCALE));
        proof {
            crate::math::lemma_div_bound(-d as int, 12288, 1024);
            lemma_mul_bound(normal.x as int, cos as int, 2048, 12288);
            lemma_mul_bound(normal.y as int, cos as int, 2048, 12288);
            lemma_mul_bound(normal.z as int, cos as int, 2048, 12288);
            crate::math::lemma_div_bound(normal.x * cos, 24576, 1024);
            crate::math::lemma_div_bound(normal.y * cos, 24576, 1024);
            crate::math::lemma_div_bound(normal.z * cos, 24576, 1024);
        }
        let bx = self.x + div_floor(normal.x * cos, SCALE);
        let by = self.y + div_floor(normal.y * cos, SCALE);
        let bz = self.z + div_floor(normal.z * cos, SCALE);
        proof {
            lemma_mul_bound(bx as int, etai_over_etat as int, 26624, 8192);
            lemma_mul_bound(by as int, etai_over_etat as int, 26624, 8192);
            lemma_mul_bound(bz as int, etai_over_etat as int, 26624, 8192);
        }
        let px = div_floor(bx * etai_over_etat, SCALE);
        let py = div_floor(by * etai_over_etat, SCALE);
        let pz = div_floor(bz * etai_over_etat, SCALE);
        proof {
            crate::math::lemma_div_bound(bx * etai_over_etat, 212992, 1024);
            crate::math::lemma_div_bound(by * etai_over_etat, 212992, 1024);
            crate::math::lemma_div_bound(bz * etai_over_etat, 212992, 1024);
            lemma_mul_bound(px as int, px as int, 212992, 212992);
            lemma_mul_bound(py as int, py as int, 212992, 212992);
            lemma_mul_bound(pz as int, pz as int, 212992, 212992);
        }
        let rem: i64 = SCALE * SCALE - (px * px + py * py + pz * pz);
        let rem_abs: i64 = if rem >= 0 { rem } else { -rem };
        let lp = isqrt(rem_abs as u128);
        proof {
            assert(lp <= 400000) by (nonlinear_arith)
                requires
                    (lp as int) * (lp as int) <= rem_abs,
                    rem_abs <= 140000000000i64,
                    lp >= 0,
            ;
        }
        let len_par = lp as i64;
        proof {
            lemma_mul_bound(normal.x as int, -(len_par as int), 2048, 400000);
            lemma_mul_bound(normal.y as int, -(len_par as int), 2048, 400000);
            lemma_mul_bound(normal.z as int, -(len_par as int), 2048, 400000);
            crate::math::lemma_div_bound(normal.x * -len_par, 800000, 1024);
            crate::math::lemma_div_bound(normal.y * -len_par, 800000, 1024);
            crate::math::lemma_div_bound(normal.z * -len_par, 800000, 1024);
        }
        Vec3 {
            x: px + div_floor(normal.x * -len_par, SCALE),
            y: py + div_floor(normal.y * -len_par, SCALE),
            z: pz + div_floor(normal.z * -len_par, SCALE),
        }
    }

    /// Whether every component is smaller than one fixed-point step.
    pub open spec fn near_zero_spec(self) -> bool {
        -1 < self.x < 1 && -1 < self.y < 1 && -1 < self.z < 1
    }

    pub fn near_zero(&self) -> (r: bool)
        ensures
            r == self.near_zero_spec(),
    {
        self.x == 0 && self.y == 0 && self.z == 0
    }
}

/// The smaller of a cosine value and one fixed-point unit.
fn min_cos(c: i64) -> (r: i64)
    ensures
        r == vstd::math::min(c as int, SCALE as int),
{
    if c <= SCALE { c } else { SCALE }
}

/// A dot product of a vector with itself is never negative.
pub proof fn lemma_dot_self_nonneg(v: Vec3)
    ensures
        Vec3::dot_spec(v, v) >= 0,
{
    assert(v.x * v.x + v.y * v.y + v.z * v.z >= 0) by (nonlinear_arith);
}

/// Each squared component is at most the squared length.
pub proof fn lemma_dot_self_component_bound(v: Vec3)
    ensures
        v.x * v.x <= Vec3::dot_spec(v, v),
        v.y * v.y <= Vec3::dot_spec(v, v),
        v.z * v.z <= Vec3::dot_spec(v, v),
{
    assert(v.x * v.x <= v.x * v.x + v.y * v.y + v.z * v.z
        && v.y * v.y <= v.x * v.x + v.y * v.y + v.z * v.z
        && v.z * v.z <= v.x * v.x + v.y * v.y + v.z * v.z) by (nonlinear_arith);
}

/// A component no longer than the length stays within one unit when
/// rescaled by `SCALE / len`.
proof fn lemma_scaled_component_bounded(x: int, len: int)
    requires
        1 <= len,
        -len <= x <= len,
    ensures
        -SCALE <= (x * SCALE) / len <= SCALE,
{
    assert(x * SCALE <= len * SCALE && -(len * SCALE) <= x * SCALE) by (nonlinear_arith)
        requires
            -len <= x <= len,
    ;
    lemma_div_is_ordered(x * SCALE, len * SCALE, len);
    lemma_div_is_ordered(-(len * SCALE), x * SCALE, len);
    lemma_div_multiples_vanish(SCALE as int, len);
    lemma_div_multiples_vanish(-(SCALE as int), len);
    assert(len * SCALE == SCALE * len);
    assert(-(len * SCALE) == -(SCALE as int) * len) by (nonlinear_arith);
}


/// At normal incidence through a matched interface (ratio one), the
/// refraction kernel hands the incoming direction back unchanged: the ray
/// does not bend.  Stated for an exactly unit-length normal, where the
/// fixed-point arithmetic is exact.
pub proof fn lemma_refract_matched_normal_incidence(v: Vec3, n: Vec3)
    requires
        v.x == -n.x && v.y == -n.y && v.z == -n.z,
        Vec3::dot_spec(n, n) == SCALE * SCALE,
        n.bounded(2 * SCALE as int),
    ensures
        Vec3::refract_spec(v, n, SCALE as int) == (v.x as int, v.y as int, v.z as int),
{
    assert(Vec3::dot_spec(v, n) == -Vec3::dot_spec(n, n)) by (nonlinear_arith)
        requires
            v.x == -n.x && v.y == -n.y && v.z == -n.z,
    ;
    assert(SCALE * SCALE == 1048576);
    assert(1048576int / 1024 == 1024);
    let cos = vstd::math::min((-Vec3::dot_spec(v, n)) / (SCALE as int), SCALE as int);
    assert(cos == 1024);
    lemma_div_multiples_vanish(n.x as int, 1024);
    lemma_div_multiples_vanish(n.y as int, 1024);
    lemma_div_multiples_vanish(n.z as int, 1024);
    assert((n.x as int) * 1024 == 1024 * (n.x as int)) by (nonlinear_arith);
    assert((n.y as int) * 1024 == 1024 * (n.y as int)) by (nonlinear_arith);
    assert((n.z as int) * 1024 == 1024 * (n.z as int)) by (nonlinear_arith);
    assert((n.x * cos) / (SCALE as int) == n.x as int);
    assert((n.y * cos) / (SCALE as int) == n.y as int);
    assert((n.z * cos) / (SCALE as int) == n.z as int);
    assert(v.x + (n.x * cos) / (SCALE as int) == 0);
    assert(0int * 1024 == 0) by (nonlinear_arith);
    assert(0int / 1024 == 0);
    let px = ((v.x + (n.x * cos) / (SCALE as int)) * (SCALE as int)) / (SCALE as int);
    assert(px == 0);
    let rem = SCALE * SCALE - (0int * 0 + 0 * 0 + 0 * 0);
    assert(rem == 1048576);
    crate::math::lemma_sqrt_floor_unique(1048576, 1024);
    assert(sqrt_floor(1048576) == 1024);
    lemma_div_multiples_vanish(-(n.x as int), 1024);
    lemma_div_multiples_vanish(-(n.y as int), 1024);
    lemma_div_multiples_vanish(-(n.z as int), 1024);
    assert((n.x as int) * -1024 == 1024 * (-(n.x as int))) by (nonlinear_arith);
    assert((n.y as int) * -1024 == 1024 * (-(n.y as int))) by (nonlinear_arith);
    assert((n.z as int) * -1024 == 1024 * (-(n.z as int))) by (nonlinear_arith);
    assert((n.x * -1024) / (SCALE as int) == -(n.x as int));
    assert((n.y * -1024) / (SCALE as int) == -(n.y as int));
    assert((n.z * -1024) / (SCALE as int) == -(n.z as int));
}

} // verus!
