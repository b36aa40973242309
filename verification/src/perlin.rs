//! Gradient (Perlin) noise and its turbulence sum.

use vstd::prelude::*;
use crate::math::{SCALE, div_floor, min64, mod_floor};
use crate::rng::{random_index, random_vec_range};
use crate::vec3::Vec3;

verus! {

/// The number of lattice gradients, and the size of each permutation table.
pub const POINT_COUNT: usize = 256;

/// Every byte value occurs somewhere in the table.
/// Some position of `s` holds the byte `v`.
pub open spec fn has_byte(s: Seq<u8>, v: u8) -> bool {
    exists|k: int| 0 <= k < s.len() && s[k] == v
}

pub open spec fn covers_all_bytes(s: Seq<u8>) -> bool {
    forall|v: u8| #[trigger] has_byte(s, v)
}

/// Shuffle the table in place; every byte value is still present afterwards.
fn permute(p: &mut Vec<u8>)
    requires
        old(p)@.len() == POINT_COUNT,
        covers_all_bytes(old(p)@),
    ensures
        final(p)@.len() == POINT_COUNT,
        covers_all_bytes(final(p)@),
{
    let mut i: usize = POINT_COUNT - 1;
    while i >= 1
        invariant
            i < POINT_COUNT,
            p@.len() == POINT_COUNT,
            covers_all_bytes(p@),
        decreases i,
    {
        let target = random_index(i);
        let a = p[i];
        let b = p[target];
        let ghost before = p@;
        p.set(i, b);
        p.set(target, a);
        proof {
            assert forall|v: u8| #[trigger] has_byte(p@, v) by {
                assert(has_byte(before, v));
                let k0 = choose|k: int| 0 <= k < before.len() && before[k] == v;
                if k0 == i {
                    assert(p@[target as int] == v);
                } else if k0 == target {
                    assert(p@[i as int] == v);
                } else {
                    assert(p@[k0] == v);
                }
            }
        }
        i = i - 1;
    }
}

/// A shuffled table holding each byte value exactly once.
pub fn perlin_generate_perm() -> (p: Vec<u8>)
    ensures
        p@.len() == POINT_COUNT,
        covers_all_bytes(p@),
{
    let mut p: Vec<u8> = Vec::new();
    let mut i: usize = 0;
    while i < POINT_COUNT
        invariant
            i <= POINT_COUNT,
            p@.len() == i,
            forall|k: int| 0 <= k < i ==> p@[k] == k as u8,
        decreases POINT_COUNT - i,
    {
        p.push(i as u8);
        i = i + 1;
    }
    proof {
        assert forall|v: u8| #[trigger] has_byte(p@, v) by {
            assert(p@[v as int] == v);
        }
    }
    permute(&mut p);
    p
}

/// The clamped smoothstep weight `u * u * (3 - 2u)` in fixed point.
fn smooth(u: i64) -> (r: i64)
    requires
        0 <= u <= SCALE,
    ensures
        0 <= r <= SCALE,
{
    proof {
        crate::math::lemma_mul_bound(u as int, u as int, 1024, 1024);
    }
    let u2 = div_floor(u * u, SCALE);
    proof {
        crate::math::lemma_div_bound(u * u, 1024, 1024);
        crate::math::lemma_mul_bound(u2 as int, 3 * SCALE - 2 * u, 1024, 3072);
        assert(u2 * (3 * SCALE - 2 * u) >= 0) by (nonlinear_arith)
            requires
                u2 >= 0,
                0 <= u <= SCALE,
                SCALE == 1024,
        ;
    }
    let s = div_floor(u2 * (3 * SCALE - 2 * u), SCALE);
    min64(s, SCALE)
}

/// One interpolation factor: `w` when `sel` is 1, else `SCALE - w`.
fn lerp_weight(sel: i64, w: i64) -> (r: i64)
    requires
        0 <= w <= SCALE,
        sel == 0 || sel == 1,
    ensures
        0 <= r <= SCALE,
{
    if sel == 1 { w } else { SCALE - w }
}

/// Procedural gradient noise over a 256-point lattice.
pub struct Perlin {
    pub ranvec: Vec<Vec3>,
    pub perm_x: Vec<u8>,
    pub perm_y: Vec<u8>,
    pub perm_z: Vec<u8>,
}

impl Perlin {
    pub open spec fn wf(self) -> bool {
        self.ranvec@.len() == POINT_COUNT
            && (forall|k: int| 0 <= k < POINT_COUNT ==> (#[trigger] self.ranvec@[k]).bounded(
            SCALE as int))
            && self.perm_x@.len() == POINT_COUNT
            && self.perm_y@.len() == POINT_COUNT
            && self.perm_z@.len() == POINT_COUNT
    }

    pub fn new() -> (s: Perlin)
        ensures
            s.wf(),
    {
        let mut ranvec: Vec<Vec3> = Vec::new();
        let mut i: usize = 0;
        while i < POINT_COUNT
            invariant
                i <= POINT_COUNT,
                ranvec@.len() == i,
                forall|k: int| 0 <= k < i ==> (#[trigger] ranvec@[k]).bounded(SCALE as int),
            decreases POINT_COUNT - i,
        {
            ranvec.push(random_vec_range(-(SCALE - 1), SCALE));
            i = i + 1;
        }
        Perlin {
            ranvec,
            perm_x: perlin_generate_perm(),
            perm_y: perlin_generate_perm(),
            perm_z: perlin_generate_perm(),
        }
    }

    /// Gradient noise at `p`; always within 24 fixed-point units.
    pub fn noise(&self, p: Vec3) -> (r: i64)
        requires
            self.wf(),
            p.bounded(0x4000_0000_0000),
        ensures
            -24 * SCALE <= r <= 24 * SCALE,
    {
        let u = mod_floor(p.x, SCALE);
        let v = mod_floor(p.y, SCALE);
        let w = mod_floor(p.z, SCALE);
        let i = div_floor(p.x, SCALE);
        let j = div_floor(p.y, SCALE);
        let k = div_floor(p.z, SCALE);

        let uu = smooth(u);
        let vv = smooth(v);
        let ww = smooth(w);

        let mut accum: i64 = 0;
        let mut di: i64 = 0;
        while di < 2
            invariant
                0 <= di <= 2,
                -12288 * di <= accum <= 12288 * di,
                self.wf(),
                0 <= uu <= SCALE,
                0 <= vv <= SCALE,
                0 <= ww <= SCALE,
                0 <= u < SCALE,
                0 <= v < SCALE,
                0 <= w < SCALE,
                -0x8000_0000_0000 <= i <= 0x8000_0000_0000,
                -0x8000_0000_0000 <= j <= 0x8000_0000_0000,
                -0x8000_0000_0000 <= k <= 0x8000_0000_0000,
            decreases 2 - di,
        {
            let mut dj: i64 = 0;
            while dj < 2
                invariant
                    0 <= di < 2,
                    0 <= dj <= 2,
                    -12288 * di - 6144 * dj <= accum <= 12288 * di + 6144 * dj,
                    self.wf(),
                    0 <= uu <= SCALE,
                    0 <= vv <= SCALE,
                    0 <= ww <= SCALE,
                    0 <= u < SCALE,
                    0 <= v < SCALE,
                    0 <= w < SCALE,
                    -0x8000_0000_0000 <= i <= 0x8000_0000_0000,
                    -0x8000_0000_0000 <= j <= 0x8000_0000_0000,
                    -0x8000_0000_0000 <= k <= 0x8000_0000_0000,
                decreases 2 - dj,
            {
                let mut dk: i64 = 0;
                while dk < 2
                    invariant
                        0 <= di < 2,
                        0 <= dj < 2,
                        0 <= dk <= 2,
                        -12288 * di - 6144 * dj - 3072 * dk <= accum
                            <= 12288 * di + 6144 * dj + 3072 * dk,
                        self.wf(),
                        0 <= uu <= SCALE,
                        0 <= vv <= SCALE,
                        0 <= ww <= SCALE,
                        0 <= u < SCALE,
                        0 <= v < SCALE,
                        0 <= w < SCALE,
                        -0x8000_0000_0000 <= i <= 0x8000_0000_0000,
                        -0x8000_0000_0000 <= j <= 0x8000_0000_0000,
                        -0x8000_0000_0000 <= k <= 0x8000_0000_0000,
                    decreases 2 - dk,
                {
                    let gx = self.perm_x[mod_floor(i + di, 256) as usize];
                    let gy = self.perm_y[mod_floor(j + dj, 256) as usize];
                    let gz = self.perm_z[mod_floor(k + dk, 256) as usize];
                    let g = self.ranvec[(gx ^ gy ^ gz) as usize];
                    let weight = Vec3 {
                        x: if di == 1 { u - SCALE } else { u },
                        y: if dj == 1 { v - SCALE } else { v },
                        z: if dk == 1 { w - SCALE } else { w },
                    };
                    let dv = div_floor(g.dot(&weight), SCALE);
                    proof {
                        crate::math::lemma_mul_bound(g.x as int, weight.x as int, 1024, 1024);
                        crate::math::lemma_mul_bound(g.y as int, weight.y as int, 1024, 1024);
                        crate::math::lemma_mul_bound(g.z as int, weight.z as int, 1024, 1024);
                        crate::math::lemma_div_bound(Vec3::dot_spec(g, weight), 3072, 1024);
                    }
                    let f1 = lerp_weight(di, uu);
                    let f2 = lerp_weight(dj, vv);
                    let f3 = lerp_weight(dk, ww);
                    proof {
                        crate::math::lemma_mul_bound(f1 as int, f2 as int, 1024, 1024);
                        crate::math::lemma_div_bound(f1 * f2, 1024, 1024);
                    }
                    let f12 = div_floor(f1 * f2, SCALE);
                    proof {
                        crate::math::lemma_mul_bound(f12 as int, f3 as int, 1024, 1024);
                        crate::math::lemma_div_bound(f12 * f3, 1024, 1024);
                    }
                    let f123 = div_floor(f12 * f3, SCALE);
                    proof {
                        crate::math::lemma_mul_bound(f123 as int, dv as int, 1024, 3072);
                        crate::math::lemma_div_bound(f123 * dv, 3072, 1024);
                    }
                    let term = div_floor(f123 * dv, SCALE);
                    accum = accum + term;
                    dk = dk + 1;
                }
                dj = dj + 1;
            }
            di = di + 1;
        }
        accum
    }

    /// Layered noise: each octave doubles the frequency and halves the
    /// amplitude.  Always within 48 fixed-point units, and never negative.
    pub fn turb(&self, p: Vec3, depth: u32) -> (r: i64)
        requires
            self.wf(),
            p.bounded(0x2000_0000),
            depth <= 7,
        ensures
            0 <= r <= 48 * SCALE,
    {
        let mut accum: i64 = 0;
        let mut temp = p;
        let mut weight: i64 = SCALE;
        let mut level: u32 = 0;
        proof {
            vstd::arithmetic::power2::lemma2_to64();
        }
        while level < depth
            invariant
                level <= depth <= 7,
                self.wf(),
                0 < weight <= SCALE,
                temp.bounded(0x2000_0000 * vstd::arithmetic::power2::pow2(level as nat) as int),
                vstd::arithmetic::power2::pow2(level as nat) < 256,
                -48 * SCALE <= accum <= 48 * SCALE,
            decreases depth - level,
        {
            let ghost p2 = vstd::arithmetic::power2::pow2(level as nat) as int;
            proof {
                assert(temp.x <= 0x2000_0000 * 256 && temp.x >= -(0x2000_0000 * 256)
                    && temp.y <= 0x2000_0000 * 256 && temp.y >= -(0x2000_0000 * 256)
                    && temp.z <= 0x2000_0000 * 256 && temp.z >= -(0x2000_0000 * 256))
                    by (nonlinear_arith)
                    requires
                        temp.bounded(0x2000_0000 * p2),
                        0 <= p2 < 256,
                ;
            }
            let n = self.noise(temp);
            proof {
                crate::math::lemma_mul_bound(weight as int, n as int, 1024int, 24576int);
                crate::math::lemma_div_bound(weight * n, 24576int, 1024int);
            }
            let octave = div_floor(weight * n, SCALE);
            if accum + octave > 48 * SCALE {
                accum = 48 * SCALE;
            } else if accum + octave < -48 * SCALE {
                accum = -48 * SCALE;
            } else {
                accum = accum + octave;
            }
            weight = div_floor(weight, 2);
            if weight == 0 {
                weight = 1;
            }
            proof {
                vstd::arithmetic::power2::lemma_pow2_unfold((level + 1) as nat);
                vstd::arithmetic::power2::lemma_pow2_strictly_increases(
                    (level + 1) as nat, 8nat);
                vstd::arithmetic::power2::lemma2_to64();
                assert(2 * temp.x <= 0x2000_0000 * (2 * p2)
                    && -(0x2000_0000 * (2 * p2)) <= 2 * temp.x
                    && 2 * temp.y <= 0x2000_0000 * (2 * p2)
                    && -(0x2000_0000 * (2 * p2)) <= 2 * temp.y
                    && 2 * temp.z <= 0x2000_0000 * (2 * p2)
                    && -(0x2000_0000 * (2 * p2)) <= 2 * temp.z) by (nonlinear_arith)
                    requires
                        temp.bounded(0x2000_0000 * p2),
                        0 <= p2,
                ;
            }
            temp = Vec3 { x: temp.x * 2, y: temp.y * 2, z: temp.z * 2 };
            level = level + 1;
        }
        if accum >= 0 {
            accum
        } else {
            -accum
        }
    }
}

} // verus!
