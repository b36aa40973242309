//! Axis-aligned bounding boxes: the union operation and an exact slab test.
//!
//! The slab test here is not merely conservative: `hit` decides precisely
//! whether some fixed-point parameter in the open query window puts the ray
//! inside the box.  That exactness is what lets the bounding-volume
//! hierarchy be proved equivalent to a linear scan.

use vstd::prelude::*;
use vstd::arithmetic::div_mod::lemma_fundamental_div_mod;
use crate::math::{SCALE, TMAX, VMAX, div_floor, max64, min64};
use crate::ray::Ray;
use crate::vec3::Vec3;

verus! {

/// Whether the ray component `o + t*d/SCALE` lies between `mn` and `mx`.
pub open spec fn axis_sat(o: int, d: int, mn: int, mx: int, t: int) -> bool {
    mn <= o + (t * d) / (SCALE as int) <= mx
}

/// For a positive divisor, comparing a quotient against a bound is the same
/// as comparing the dividend against the scaled bound.
proof fn lemma_div_ge_iff(x: int, m: int, s: int)
    requires
        s >= 1,
    ensures
        (x / s >= m) <==> (x >= m * s),
{
    lemma_fundamental_div_mod(x, s);
    let q = x / s;
    let r = x % s;
    if x >= m * s {
        assert(q >= m) by (nonlinear_arith)
            requires
                s >= 1,
                x == s * q + r,
                0 <= r < s,
                x >= m * s,
        ;
    }
    if q >= m {
        assert(x >= m * s) by (nonlinear_arith)
            requires
                s >= 1,
                x == s * q + r,
                0 <= r < s,
                q >= m,
        ;
    }
}

/// For a positive divisor, `t <= b / d` exactly when `t * d <= b`.
proof fn lemma_le_div_iff(t: int, d: int, b: int)
    requires
        d >= 1,
    ensures
        (t <= b / d) <==> (t * d <= b),
{
    lemma_fundamental_div_mod(b, d);
    let q = b / d;
    let r = b % d;
    if t <= q {
        assert(t * d <= b) by (nonlinear_arith)
            requires
                d >= 1,
                b == d * q + r,
                0 <= r < d,
                t <= q,
        ;
    }
    if t * d <= b {
        assert(t <= q) by (nonlinear_arith)
            requires
                d >= 1,
                b == d * q + r,
                0 <= r < d,
                t * d <= b,
        ;
    }
}

/// `axis_sat` holds exactly when the scaled product stays between the two
/// scaled slab bounds.
proof fn lemma_axis_sat_linear(o: int, d: int, mn: int, mx: int, t: int)
    ensures
        axis_sat(o, d, mn, mx, t) <==> ((mn - o) * SCALE <= t * d <= (mx - o + 1) * SCALE - 1),
{
    lemma_div_ge_iff(t * d, mn - o, SCALE as int);
    lemma_div_ge_iff(t * d, mx - o + 1, SCALE as int);
    assert((t * d) / (SCALE as int) <= mx - o <==> !((t * d) / (SCALE as int) >= mx - o + 1));
}

/// Ceiling division by a positive divisor.
fn ceil_div(a: i64, b: i64) -> (q: i64)
    requires
        1 <= b,
        -0x4000_0000_0000_0000 <= a <= 0x4000_0000_0000_0000,
    ensures
        q == -((-a) / (b as int)),
{
    -div_floor(-a, b)
}

/// The solution set of one slab constraint, restricted to usable parameters:
/// either empty, or a contiguous interval of `t` values.
fn axis_interval(o: i64, d: i64, mn: i64, mx: i64) -> (res: (bool, i64, i64))
    requires
        -0x3000_0000 <= o <= 0x3000_0000,
        -0x200_0000 <= d <= 0x200_0000,
        -VMAX <= mn <= VMAX,
        -VMAX <= mx <= VMAX,
    ensures
        res.0 ==> forall|t: int|
            -TMAX <= t <= TMAX ==> (axis_sat(o as int, d as int, mn as int, mx as int, t)
                <==> res.1 <= t <= res.2),
        !res.0 ==> forall|t: int|
            -TMAX <= t <= TMAX ==> !axis_sat(o as int, d as int, mn as int, mx as int, t),
{
    let a: i64 = (mn - o) * SCALE;
    let b: i64 = (mx - o + 1) * SCALE - 1;
    if d == 0 {
        if a <= 0 && 0 <= b {
            proof {
                assert forall|t: int| -TMAX <= t <= TMAX implies (axis_sat(
                    o as int, d as int, mn as int, mx as int, t)
                    <==> -TMAX <= t <= TMAX) by {
                    lemma_axis_sat_linear(o as int, d as int, mn as int, mx as int, t);
                }
            }
            (true, -TMAX, TMAX)
        } else {
            proof {
                assert forall|t: int| -TMAX <= t <= TMAX implies !axis_sat(
                    o as int, d as int, mn as int, mx as int, t) by {
                    lemma_axis_sat_linear(o as int, d as int, mn as int, mx as int, t);
                }
            }
            (false, 0, 0)
        }
    } else if d > 0 {
        let lo = ceil_div(a, d);
        let hi = div_floor(b, d);
        proof {
            assert forall|t: int| -TMAX <= t <= TMAX implies (axis_sat(
                o as int, d as int, mn as int, mx as int, t)
                <==> lo <= t <= hi) by {
                lemma_axis_sat_linear(o as int, d as int, mn as int, mx as int, t);
                lemma_le_div_iff(t, d as int, b as int);
                lemma_le_div_iff(-t, d as int, -(a as int));
                assert((-t) * (d as int) == -(t * (d as int))) by (nonlinear_arith);
            }
        }
        (true, lo, hi)
    } else {
        let nd = -d;
        let lo = ceil_div(-b, nd);
        let hi = div_floor(-a, nd);
        proof {
            assert forall|t: int| -TMAX <= t <= TMAX implies (axis_sat(
                o as int, d as int, mn as int, mx as int, t)
                <==> lo <= t <= hi) by {
                lemma_axis_sat_linear(o as int, d as int, mn as int, mx as int, t);
                assert(t * (d as int) == -(t * (nd as int))) by (nonlinear_arith)
                    requires
                        d == -nd,
                ;
                lemma_le_div_iff(t, nd as int, -(a as int));
                lemma_le_div_iff(-t, nd as int, b as int);
                assert((-t) * (nd as int) == -(t * (nd as int))) by (nonlinear_arith);
            }
        }
        (true, lo, hi)
    }
}

/// An axis-aligned box given by two corners, with `min <= max` on every axis.
#[derive(Clone, Copy, Debug)]
pub struct Aabb {
    pub min: Vec3,
    pub max: Vec3,
}

impl Aabb {
    pub open spec fn wf(self) -> bool {
        self.min.in_range() && self.max.in_range()
            && self.min.x <= self.max.x
            && self.min.y <= self.max.y
            && self.min.z <= self.max.z
    }

    pub fn new(min: Vec3, max: Vec3) -> (b: Aabb)
        requires
            min.in_range(),
            max.in_range(),
            min.x <= max.x,
            min.y <= max.y,
            min.z <= max.z,
        ensures
            b == (Aabb { min, max }),
            b.wf(),
    {
        Aabb { min, max }
    }

    /// The smallest box containing both arguments.
    pub open spec fn union_spec(a: Aabb, b: Aabb) -> Aabb {
        Aabb {
            min: Vec3 {
                x: vstd::math::min(a.min.x as int, b.min.x as int) as i64,
                y: vstd::math::min(a.min.y as int, b.min.y as int) as i64,
                z: vstd::math::min(a.min.z as int, b.min.z as int) as i64,
            },
            max: Vec3 {
                x: vstd::math::max(a.max.x as int, b.max.x as int) as i64,
                y: vstd::math::max(a.max.y as int, b.max.y as int) as i64,
                z: vstd::math::max(a.max.z as int, b.max.z as int) as i64,
            },
        }
    }

    pub fn surrounding(a: &Aabb, b: &Aabb) -> (r: Aabb)
        requires
            a.wf(),
            b.wf(),
        ensures
            r == Aabb::union_spec(*a, *b),
            r.wf(),
    {
        Aabb {
            min: Vec3 {
                x: min64(a.min.x, b.min.x),
                y: min64(a.min.y, b.min.y),
                z: min64(a.min.z, b.min.z),
            },
            max: Vec3 {
                x: max64(a.max.x, b.max.x),
                y: max64(a.max.y, b.max.y),
                z: max64(a.max.z, b.max.z),
            },
        }
    }

    /// Whether `self` encloses `o` on every axis.
    pub open spec fn contains_box(self, o: Aabb) -> bool {
        self.min.x <= o.min.x && o.max.x <= self.max.x
            && self.min.y <= o.min.y && o.max.y <= self.max.y
            && self.min.z <= o.min.z && o.max.z <= self.max.z
    }

    /// Whether the point the ray reaches at parameter `t` lies in the box.
    pub open spec fn contains_ray_at(self, r: Ray, t: int) -> bool {
        axis_sat(r.origin.x as int, r.direction.x as int, self.min.x as int, self.max.x as int, t)
            && axis_sat(r.origin.y as int, r.direction.y as int, self.min.y as int, self.max.y as int, t)
            && axis_sat(r.origin.z as int, r.direction.z as int, self.min.z as int, self.max.z as int, t)
    }

    /// Whether some parameter strictly inside the query window lands in the box.
    pub open spec fn ray_hit_spec(self, r: Ray, t_min: int, t_max: int) -> bool {
        exists|t: int| t_min < t < t_max && #[trigger] self.contains_ray_at(r, t)
    }

    /// The slab test: decides `ray_hit_spec` exactly.
    pub fn hit(&self, ray: &Ray, t_min: i64, t_max: i64) -> (res: bool)
        requires
            self.wf(),
            ray.wf(),
            -TMAX < t_min,
            t_max < TMAX,
        ensures
            res == self.ray_hit_spec(*ray, t_min as int, t_max as int),
    {
        if t_min >= t_max {
            proof {
                if self.ray_hit_spec(*ray, t_min as int, t_max as int) {
                    let t = choose|t: int|
                        t_min < t < t_max && #[trigger] self.contains_ray_at(*ray, t);
                    assert(false);
                }
            }
            return false;
        }
        let (okx, lox, hix) = axis_interval(ray.origin.x, ray.direction.x, self.min.x, self.max.x);
        let (oky, loy, hiy) = axis_interval(ray.origin.y, ray.direction.y, self.min.y, self.max.y);
        let (okz, loz, hiz) = axis_interval(ray.origin.z, ray.direction.z, self.min.z, self.max.z);
        if !(okx && oky && okz) {
            proof {
                if self.ray_hit_spec(*ray, t_min as int, t_max as int) {
                    let t = choose|t: int|
                        t_min < t < t_max && #[trigger] self.contains_ray_at(*ray, t);
                    assert(-TMAX <= t <= TMAX);
                    assert(false);
                }
            }
            return false;
        }
        let lo = max64(max64(lox, loy), max64(loz, t_min + 1));
        let hi = min64(min64(hix, hiy), min64(hiz, t_max - 1));
        if lo <= hi {
            proof {
                assert(t_min < lo < t_max);
                assert(self.contains_ray_at(*ray, lo as int));
            }
            true
        } else {
            proof {
                if self.ray_hit_spec(*ray, t_min as int, t_max as int) {
                    let t = choose|t: int|
                        t_min < t < t_max && #[trigger] self.contains_ray_at(*ray, t);
                    assert(-TMAX <= t <= TMAX);
                    assert(lo <= t <= hi);
                    assert(false);
                }
            }
            false
        }
    }
}

/// The union is the same whichever way its arguments are given.
pub proof fn lemma_union_commutes(a: Aabb, b: Aabb)
    ensures
        Aabb::union_spec(a, b) == Aabb::union_spec(b, a),
{
}

/// Joining a box with itself gives the box back.
pub proof fn lemma_union_idempotent(a: Aabb)
    ensures
        Aabb::union_spec(a, a) == a,
{
}

/// The union encloses both of its arguments.
pub proof fn lemma_union_contains(a: Aabb, b: Aabb)
    ensures
        Aabb::union_spec(a, b).contains_box(a),
        Aabb::union_spec(a, b).contains_box(b),
{
}

/// The union operation is associative.
pub proof fn lemma_union_associative(a: Aabb, b: Aabb, c: Aabb)
    ensures
        Aabb::union_spec(Aabb::union_spec(a, b), c) == Aabb::union_spec(a, Aabb::union_spec(b, c)),
{
}

/// A point on a ray inside an inner box is inside every enclosing box.
pub proof fn lemma_contains_ray_monotone(outer: Aabb, inner: Aabb, r: Ray, t: int)
    requires
        outer.contains_box(inner),
        inner.contains_ray_at(r, t),
    ensures
        outer.contains_ray_at(r, t),
{
}

} // verus!
