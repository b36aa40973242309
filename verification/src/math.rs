//! Fixed-point scalar arithmetic: every world-space quantity is an `i64`
//! holding `SCALE` steps per world unit.

use vstd::prelude::*;
use vstd::arithmetic::div_mod::{
    lemma_fundamental_div_mod, lemma_div_is_ordered, lemma_div_multiples_vanish,
};

verus! {

/// Fractional steps per world unit.
pub const SCALE: i64 = 1024;

/// Largest magnitude allowed for a stored coordinate (world range +-16384).
pub const VMAX: i64 = 0x100_0000;

/// Largest ray parameter a query may use.
pub const TMAX: i64 = 0x4000_0000;

/// Largest magnitude a color channel may reach before it saturates.
pub const CMAX: i64 = 0x100_0000_0000;

/// Floor division: rounds the true quotient toward negative infinity,
/// which is what the spec-level `/` computes for a positive divisor.
pub fn div_floor(a: i64, b: i64) -> (q: i64)
    requires
        1 <= b,
    ensures
        q == a as int / b as int,
        b * q <= a < b * q + b,
        a >= 0 ==> 0 <= q <= a,
        a < 0 ==> a <= q <= 0,
{
    proof {
        lemma_fundamental_div_mod(a as int, b as int);
        let q0 = a as int / b as int;
        let r0 = a as int % b as int;
        assert(a == b * q0 + r0);
        assert(0 <= r0 < b);
        if a >= 0 {
            assert(0 <= q0 <= a) by (nonlinear_arith)
                requires
                    b >= 1,
                    a >= 0,
                    a == b * q0 + r0,
                    0 <= r0 < b,
            ;
        } else {
            assert(a <= q0 <= 0) by (nonlinear_arith)
                requires
                    b >= 1,
                    a < 0,
                    a == b * q0 + r0,
                    0 <= r0 < b,
            ;
        }
    }
    let q = a.checked_div_euclid(b).unwrap();
    q
}

/// Floor division on wide intermediates.
pub fn div_floor_wide(a: i128, b: i128) -> (q: i128)
    requires
        1 <= b,
    ensures
        q == a as int / b as int,
        b * q <= a < b * q + b,
        a >= 0 ==> 0 <= q <= a,
        a < 0 ==> a <= q <= 0,
{
    proof {
        lemma_fundamental_div_mod(a as int, b as int);
        let q0 = a as int / b as int;
        let r0 = a as int % b as int;
        if a >= 0 {
            assert(0 <= q0 <= a) by (nonlinear_arith)
                requires
                    b >= 1,
                    a >= 0,
                    a == b * q0 + r0,
                    0 <= r0 < b,
            ;
        } else {
            assert(a <= q0 <= 0) by (nonlinear_arith)
                requires
                    b >= 1,
                    a < 0,
                    a == b * q0 + r0,
                    0 <= r0 < b,
            ;
        }
    }
    a.checked_div_euclid(b).unwrap()
}

/// Euclidean remainder, always in `[0, m)`.
pub fn mod_floor(a: i64, m: i64) -> (r: i64)
    requires
        1 <= m,
        i64::MIN + m < a,
    ensures
        0 <= r < m,
        r == a as int % m as int,
{
    let q = div_floor(a, m);
    proof {
        lemma_fundamental_div_mod(a as int, m as int);
    }
    a - m * q
}

/// The exact integer square root, rounded down; zero for negative input.
pub open spec fn sqrt_floor(n: int) -> int
    decreases n,
{
    if n <= 0 {
        0
    } else {
        let s = sqrt_floor(n - 1);
        if (s + 1) * (s + 1) <= n {
            s + 1
        } else {
            s
        }
    }
}

/// `sqrt_floor(n)` is the unique `r >= 0` with `r * r <= n < (r+1) * (r+1)`.
pub proof fn lemma_sqrt_floor_bounds(n: int)
    requires
        n >= 0,
    ensures
        0 <= sqrt_floor(n),
        sqrt_floor(n) * sqrt_floor(n) <= n,
        n < (sqrt_floor(n) + 1) * (sqrt_floor(n) + 1),
    decreases n,
{
    if n > 0 {
        lemma_sqrt_floor_bounds(n - 1);
        let s = sqrt_floor(n - 1);
        if (s + 1) * (s + 1) <= n {
            assert(n < (s + 2) * (s + 2)) by (nonlinear_arith)
                requires
                    s >= 0,
                    n - 1 < (s + 1) * (s + 1),
            ;
        }
    }
}

/// Any root satisfying the floor-square-root bounds is `sqrt_floor`.
pub proof fn lemma_sqrt_floor_unique(n: int, r: int)
    requires
        n >= 0,
        r >= 0,
        r * r <= n,
        n < (r + 1) * (r + 1),
    ensures
        r == sqrt_floor(n),
{
    lemma_sqrt_floor_bounds(n);
    let s = sqrt_floor(n);
    if r < s {
        assert((r + 1) * (r + 1) <= s * s) by (nonlinear_arith)
            requires
                0 <= r < s,
        ;
    }
    if s < r {
        assert((s + 1) * (s + 1) <= r * r) by (nonlinear_arith)
            requires
                0 <= s < r,
        ;
    }
}

/// Integer square root of a wide nonnegative value.
pub fn isqrt(d: u128) -> (r: u64)
    requires
        d < 0x4000_0000_0000_0000_0000_0000_0000_0000,
    ensures
        r == sqrt_floor(d as int),
        (r as int) * (r as int) <= d < (r as int + 1) * (r as int + 1),
{
    let mut lo: u128 = 0;
    let mut hi: u128 = 1u128 << 63;
    proof {
        assert(1u128 << 63 == 0x8000_0000_0000_0000) by (bit_vector);
    }
    while hi - lo > 1
        invariant
            lo < hi <= 0x8000_0000_0000_0000u128,
            lo * lo <= d,
            d < hi * hi,
        decreases hi - lo,
    {
        let mid = lo + (hi - lo) / 2;
        proof {
            assert(lo < mid < hi);
            assert(mid * mid <= 0x4000_0000_0000_0000_0000_0000_0000_0000) by (nonlinear_arith)
                requires
                    0 <= mid <= 0x8000_0000_0000_0000u128,
            ;
        }
        if mid * mid <= d {
            lo = mid;
        } else {
            hi = mid;
        }
    }
    proof {
        assert(lo <= u64::MAX);
        lemma_sqrt_floor_unique(d as int, lo as int);
    }
    lo as u64
}

/// A fixed-point half turn.
pub const PI_FP: i64 = 3217;

/// A fixed-point full turn.
pub const TAU_FP: i64 = 6434;

/// Clamp a scalar into `[lo, hi]`.
pub fn clamp64(x: i64, lo: i64, hi: i64) -> (r: i64)
    requires
        lo <= hi,
    ensures
        lo <= r <= hi,
        r == if x < lo { lo as int } else if x > hi { hi as int } else { x as int },
{
    if x < lo {
        lo
    } else if x > hi {
        hi
    } else {
        x
    }
}

/// What `atan_unit` computes.
pub open spec fn atan_unit_spec(t: int) -> int {
    let corr = (280 * (SCALE - t)) / (SCALE as int);
    let raw = (t * (804 + corr)) / (SCALE as int);
    if raw < 0 {
        0
    } else if raw > 805 {
        805
    } else {
        raw
    }
}

/// The arctangent of `t / SCALE` for a ratio within one, in fixed-point
/// radians within a quarter turn.
fn atan_unit(t: i64) -> (r: i64)
    requires
        0 <= t <= SCALE,
    ensures
        0 <= r <= 805,
        r == atan_unit_spec(t as int),
{
    proof {
        lemma_div_bound(280 * (SCALE - t), 280, 1024);
    }
    let corr = div_floor(280 * (SCALE - t), SCALE);
    proof {
        lemma_mul_bound(t as int, (804 + corr) as int, 1024, 1084);
        lemma_div_bound(t * (804 + corr), 1084, 1024);
    }
    clamp64(div_floor(t * (804 + corr), SCALE), 0, 805)
}

/// What `atan2_fp` computes.
pub open spec fn atan2_spec(y: int, x: int) -> int {
    let ax = if x >= 0 { x } else { -x };
    let ay = if y >= 0 { y } else { -y };
    if ax == 0 && ay == 0 {
        0
    } else {
        let base = if ay <= ax {
            let q = (ay * 1024) / ax;
            atan_unit_spec(if q < 0 { 0 } else if q > SCALE { SCALE as int } else { q })
        } else {
            let q = (ax * 1024) / ay;
            1608 - atan_unit_spec(if q < 0 { 0 } else if q > SCALE { SCALE as int } else { q })
        };
        let angle = if x >= 0 && y >= 0 {
            base
        } else if x < 0 && y >= 0 {
            PI_FP - base
        } else if x < 0 {
            PI_FP + base
        } else {
            TAU_FP - base
        };
        if angle < 0 {
            0
        } else if angle > TAU_FP {
            TAU_FP as int
        } else {
            angle
        }
    }
}

/// The angle of the point `(x, y)` around the origin, in fixed-point
/// radians within `[0, TAU_FP]`; zero at the origin itself.
pub fn atan2_fp(y: i64, x: i64) -> (r: i64)
    requires
        -0x10_0000 <= y <= 0x10_0000,
        -0x10_0000 <= x <= 0x10_0000,
    ensures
        0 <= r <= TAU_FP,
        r == atan2_spec(y as int, x as int),
{
    let ax = if x >= 0 { x } else { -x };
    let ay = if y >= 0 { y } else { -y };
    if ax == 0 && ay == 0 {
        return 0;
    }
    let base = if ay <= ax {
        proof {
            lemma_mul_bound(ay as int, SCALE as int, 0x10_0000, 1024);
        }
        let ratio = clamp64(div_floor(ay * 1024, ax), 0, SCALE);
        atan_unit(ratio)
    } else {
        proof {
            lemma_mul_bound(ax as int, SCALE as int, 0x10_0000, 1024);
        }
        let ratio = clamp64(div_floor(ax * 1024, ay), 0, SCALE);
        1608 - atan_unit(ratio)
    };
    let angle = if x >= 0 && y >= 0 {
        base
    } else if x < 0 && y >= 0 {
        PI_FP - base
    } else if x < 0 {
        PI_FP + base
    } else {
        TAU_FP - base
    };
    clamp64(angle, 0, TAU_FP)
}

/// What `acos_fp` computes.
pub open spec fn acos_spec(c: int) -> int {
    let s2 = 1048576 - c * c;
    let s = sqrt_floor(if s2 >= 0 { s2 } else { 0 });
    let r = atan2_spec(s, c);
    if r > PI_FP { PI_FP as int } else { r }
}

/// The arccosine of `c / SCALE`, in fixed-point radians within a half turn.
pub fn acos_fp(c: i64) -> (r: i64)
    requires
        -SCALE <= c <= SCALE,
    ensures
        0 <= r <= PI_FP,
        r == acos_spec(c as int),
{
    proof {
        lemma_mul_bound(c as int, c as int, 1024, 1024);
        assert(c * c >= 0) by (nonlinear_arith);
    }
    let s2 = 1048576 - c * c;
    let s2c = if s2 >= 0 { s2 } else { 0 };
    let s = isqrt(s2c as u128);
    proof {
        assert(s <= 1024) by (nonlinear_arith)
            requires
                (s as int) * (s as int) <= 1048576,
                s >= 0,
        ;
    }
    let r = atan2_fp(s as i64, c);
    clamp64(r, 0, PI_FP)
}

/// What `sin_half` computes.
pub open spec fn sin_half_spec(t: int) -> int {
    let a0 = t * (3217 - t);
    let a = if a0 < 0 { 0int } else if a0 > 2600000 { 2600000int } else { a0 };
    let num = (16 * a) * 1024;
    let den = 51745445 - 4 * a;
    let r = num / den;
    if r < 0 { 0int } else if r > 1024 { 1024int } else { r }
}

/// What `sin_fp` computes: the angle reduced to one turn, then the
/// half-turn approximation with its sign.
pub open spec fn sin_spec(x: int) -> int {
    let t = x % 6434;
    if t < 3217 {
        sin_half_spec(t)
    } else {
        -sin_half_spec(t - 3217)
    }
}

/// The sine of a fixed-point angle, within one unit either way.
pub fn sin_fp(x: i64) -> (r: i64)
    requires
        -0x4000_0000_0000 <= x <= 0x4000_0000_0000,
    ensures
        -SCALE <= r <= SCALE,
        r == sin_spec(x as int),
{
    let t = mod_floor(x, TAU_FP);
    if t < PI_FP {
        sin_half(t)
    } else {
        -sin_half(t - PI_FP)
    }
}

/// The sine over a half turn, by a quadratic rational approximation.
fn sin_half(t: i64) -> (r: i64)
    requires
        0 <= t <= TAU_FP,
    ensures
        0 <= r <= SCALE,
        r == sin_half_spec(t as int),
{
    proof {
        lemma_mul_bound(t as int, (PI_FP - t) as int, 6434, 6434);
    }
    let a = clamp64(t * (PI_FP - t), 0, 2600000);
    let num = (16 * a) * 1024;
    let den = 51745445 - 4 * a;
    let r = div_floor(num, den);
    clamp64(r, 0, SCALE)
}

/// The cosine of a fixed-point angle: the sine a quarter turn later.
pub fn cos_fp(x: i64) -> (r: i64)
    requires
        -0x4000_0000_0000 <= x <= 0x4000_0000_0000 - 1608,
    ensures
        -SCALE <= r <= SCALE,
        r == sin_spec(x + 1608),
{
    sin_fp(x + 1608)
}

/// The negated natural logarithm of `u / SCALE` for `u` in `(0, SCALE]`,
/// used to draw exponential free paths; never negative.
pub fn neg_ln_fp(u: i64) -> (r: i64)
    requires
        1 <= u <= SCALE,
    ensures
        0 <= r <= 8 * SCALE,
{
    let mut m: i64 = u;
    let mut k: i64 = 0;
    let mut round: u32 = 0;
    while round < 10
        invariant
            1 <= m <= SCALE,
            0 <= k <= round,
            round <= 10,
        decreases 10 - round,
    {
        if m < 512 {
            m = m * 2;
            k = k + 1;
        }
        round = round + 1;
    }
    let t = clamp64(SCALE - m, 0, 512);
    proof {
        lemma_mul_bound(t as int, t as int, 512, 512);
        lemma_div_bound(t * t, 128, 2048);
        lemma_div_bound(t * t, 256, 1024);
    }
    let t2 = div_floor(t * t, 2048);
    let t2b = div_floor(t * t, 1024);
    proof {
        lemma_mul_bound(t2b as int, t as int, 256, 512);
        lemma_div_bound(t2b * t, 43, 3072);
    }
    let t3 = div_floor(t2b * t, 3072);
    let p = t + t2 + t3;
    clamp64(k * 710 + p, 0, 8 * SCALE)
}

/// The smaller of two scalars.
pub fn min64(a: i64, b: i64) -> (r: i64)
    ensures
        r == if a as int <= b as int { a as int } else { b as int },
{
    if a <= b { a } else { b }
}

/// The larger of two scalars.
pub fn max64(a: i64, b: i64) -> (r: i64)
    ensures
        r == if a as int >= b as int { a as int } else { b as int },
{
    if a >= b { a } else { b }
}

/// A quotient stays within `bound` when the dividend stays within
/// `bound * s`.
pub proof fn lemma_div_bound(a: int, bound: int, s: int)
    requires
        s >= 1,
        0 <= bound,
        -(bound * s) <= a <= bound * s,
    ensures
        -bound <= a / s <= bound,
{
    lemma_div_is_ordered(-(bound * s), a, s);
    lemma_div_is_ordered(a, bound * s, s);
    lemma_div_multiples_vanish(bound, s);
    lemma_div_multiples_vanish(-bound, s);
    assert(s * bound == bound * s && s * (-bound) == -(bound * s)) by (nonlinear_arith);
}

/// `|a * b| <= ba * bb` whenever `|a| <= ba` and `|b| <= bb`.
pub proof fn lemma_mul_bound(a: int, b: int, ba: int, bb: int)
    requires
        -ba <= a <= ba,
        -bb <= b <= bb,
    ensures
        -(ba * bb) <= a * b <= ba * bb,
{
    assert(-(ba * bb) <= a * b <= ba * bb) by (nonlinear_arith)
        requires
            -ba <= a <= ba,
            -bb <= b <= bb,
    ;
}

} // verus!
