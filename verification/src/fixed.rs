//! Fixed-point arithmetic in micro-units.
//!
//! The engine carries every real-valued quantity (rewards, value sums,
//! exploration constants, discount factors) as a signed 64-bit count of
//! micro-units: the integer `1_000_000` stands for the real number one.
//! Sums saturate at the `i64` range instead of overflowing; products are
//! rescaled by truncating division toward zero, matching the sign behaviour
//! of real-number multiplication.

use vstd::prelude::*;

verus! {

/// Number of micro-units in one whole unit.
pub const SCALE: i64 = 1_000_000;

/// Natural logarithm of two, in micro-units.
pub const LN2_MICROS: u64 = 693_147;

/// Clamp a mathematical integer into the `i64` range.
pub open spec fn clamp64(x: int) -> int {
    if x > i64::MAX as int {
        i64::MAX as int
    } else if x < i64::MIN as int {
        i64::MIN as int
    } else {
        x
    }
}

/// Saturating sum of two mathematical integers, as stored in an `i64`.
pub open spec fn sat_add(a: int, b: int) -> int {
    clamp64(a + b)
}

/// Division truncated toward zero, for a positive divisor.
pub open spec fn tdiv(a: int, b: int) -> int
    recommends
        b > 0,
{
    if a >= 0 {
        a / b
    } else {
        -((-a) / b)
    }
}

/// Fixed-point product: `(a * b) / SCALE` truncated toward zero and clamped
/// into the `i64` range.
pub open spec fn fx_mul(a: int, b: int) -> int {
    clamp64(tdiv(a * b, SCALE as int))
}

/// Saturating increment of an unsigned 64-bit counter.
pub open spec fn sat_inc(c: int) -> int {
    if c >= u64::MAX as int {
        u64::MAX as int
    } else {
        c + 1
    }
}

/// Saturating increment on `u64`.
pub fn sat_inc_u64(c: u64) -> (r: u64)
    ensures
        r as int == sat_inc(c as int),
{
    if c == u64::MAX {
        c
    } else {
        c + 1
    }
}

/// Clamp a non-negative mathematical integer into the `u64` range.
pub open spec fn clamp_u64(x: int) -> int {
    if x > u64::MAX as int {
        u64::MAX as int
    } else {
        x
    }
}

/// Saturating addition on `u64`.
pub fn sat_add_u64(a: u64, b: u64) -> (r: u64)
    ensures
        r as int == clamp_u64(a as int + b as int),
{
    if a > u64::MAX - b {
        u64::MAX
    } else {
        a + b
    }
}

/// Magnitude of an `i64`, as a `u64`.
pub fn abs_u64(a: i64) -> (r: u64)
    ensures
        a >= 0 ==> r as int == a as int,
        a < 0 ==> r as int == -(a as int),
{
    if a >= 0 {
        a as u64
    } else {
        ((-(a + 1)) as u64) + 1
    }
}

/// Saturating addition on `i64`.
pub fn sat_add_i64(a: i64, b: i64) -> (r: i64)
    ensures
        r as int == sat_add(a as int, b as int),
{
    if b >= 0 {
        if a > i64::MAX - b {
            i64::MAX
        } else {
            a + b
        }
    } else {
        if a < i64::MIN - b {
            i64::MIN
        } else {
            a + b
        }
    }
}

/// Division of an `i64` by a positive `u64`, truncated toward zero.
pub fn tdiv_i64(a: i64, b: u64) -> (r: i64)
    requires
        b >= 1,
    ensures
        r as int == tdiv(a as int, b as int),
{
    if a >= 0 {
        let q: u64 = (a as u64) / b;
        assert(q <= a as u64) by {
            vstd::arithmetic::div_mod::lemma_div_is_ordered_by_denominator(a as int, 1, b as int);
        };
        q as i64
    } else {
        let m: u64 = abs_u64(a);
        let q: u64 = m / b;
        assert(q <= m) by {
            vstd::arithmetic::div_mod::lemma_div_is_ordered_by_denominator(m as int, 1, b as int);
        };
        // A quotient of 2^63 arises only for `i64::MIN / 1`, whose negation
        // is `i64::MIN` itself.
        if q >= 9_223_372_036_854_775_808u64 {
            assert(q == 9_223_372_036_854_775_808u64);
            i64::MIN
        } else {
            -(q as i64)
        }
    }
}

/// Fixed-point multiplication on `i64` micro-unit values.
pub fn fx_mul_i64(a: i64, b: i64) -> (r: i64)
    ensures
        r as int == fx_mul(a as int, b as int),
{
    let neg: bool = (a < 0) != (b < 0);
    let ma: u64 = abs_u64(a);
    let mb: u64 = abs_u64(b);
    assert((ma as int) * (mb as int) <= 0x8000_0000_0000_0000 * 0x8000_0000_0000_0000) by (nonlinear_arith)
        requires
            0 <= (ma as int) <= 0x8000_0000_0000_0000,
            0 <= (mb as int) <= 0x8000_0000_0000_0000,
    ;
    let p: u128 = (ma as u128) * (mb as u128);
    assert(p as int == if (a as int) * (b as int) >= 0 {
        (a as int) * (b as int)
    } else {
        -((a as int) * (b as int))
    }) by (nonlinear_arith)
        requires
            ma as int == if a as int >= 0 { a as int } else { -(a as int) },
            mb as int == if b as int >= 0 { b as int } else { -(b as int) },
            p as int == (ma as int) * (mb as int),
    ;
    assert(neg == (((a as int) * (b as int)) < 0) || p == 0) by (nonlinear_arith)
        requires
            neg == ((a < 0) != (b < 0)),
            p as int == if (a as int) * (b as int) >= 0 {
                (a as int) * (b as int)
            } else {
                -((a as int) * (b as int))
            },
    ;
    let q: u128 = p / (SCALE as u128);
    // Clamp the signed magnitude into the i64 range; 2^63 itself negates
    // to exactly `i64::MIN`.
    if neg {
        if q >= 9_223_372_036_854_775_808u128 {
            i64::MIN
        } else {
            -(q as i64)
        }
    } else {
        if q > i64::MAX as u128 {
            i64::MAX
        } else {
            q as i64
        }
    }
}

/// Characterisation of the integer square root: `r` is the floor of the
/// square root of `x`.
pub open spec fn is_isqrt(x: int, r: int) -> bool {
    &&& r >= 0
    &&& r * r <= x
    &&& x < (r + 1) * (r + 1)
}

/// Floor of the square root of a non-negative integer, as a recursive
/// specification.
pub open spec fn sqrt_floor(x: int) -> int
    recommends
        x >= 0,
    decreases x,
{
    if x < 1 {
        0
    } else {
        let r = sqrt_floor(x - 1);
        if (r + 1) * (r + 1) <= x {
            r + 1
        } else {
            r
        }
    }
}

/// `sqrt_floor` satisfies the square-root characterisation.
pub proof fn lemma_sqrt_floor_correct(x: int)
    requires
        x >= 0,
    ensures
        is_isqrt(x, sqrt_floor(x)),
    decreases x,
{
    if x < 1 {
        assert(sqrt_floor(x) == 0);
    } else {
        lemma_sqrt_floor_correct(x - 1);
        let r = sqrt_floor(x - 1);
        if (r + 1) * (r + 1) <= x {
            assert(x < (r + 2) * (r + 2)) by (nonlinear_arith)
                requires
                    r >= 0,
                    x - 1 < (r + 1) * (r + 1),
            ;
        }
    }
}

/// The square-root characterisation has a unique witness.
pub proof fn lemma_isqrt_unique(x: int, r1: int, r2: int)
    requires
        is_isqrt(x, r1),
        is_isqrt(x, r2),
    ensures
        r1 == r2,
{
    assert(r1 == r2) by (nonlinear_arith)
        requires
            r1 >= 0,
            r2 >= 0,
            r1 * r1 <= x,
            x < (r1 + 1) * (r1 + 1),
            r2 * r2 <= x,
            x < (r2 + 1) * (r2 + 1),
    ;
}

/// Integer square root of a `u128`, by binary search.
pub fn isqrt_u128(x: u128) -> (r: u64)
    ensures
        r as int == sqrt_floor(x as int),
        is_isqrt(x as int, r as int),
{
    let mut lo: u128 = 0;
    let mut hi: u128 = 0x1_0000_0000_0000_0000u128;
    assert((x as int) < (hi as int) * (hi as int)) by (nonlinear_arith)
        requires
            hi as int == 0x1_0000_0000_0000_0000,
            x as int <= (0xffff_ffff_ffff_ffff_ffff_ffff_ffff_ffffu128 as int),
    ;
    while lo + 1 < hi
        invariant
            0 <= lo < hi <= 0x1_0000_0000_0000_0000u128,
            (lo as int) * (lo as int) <= x as int,
            (x as int) < (hi as int) * (hi as int),
        decreases hi - lo,
    {
        let mid: u128 = lo + (hi - lo) / 2;
        assert(lo < mid < hi);
        assert((mid as int) * (mid as int) < 0x1_0000_0000_0000_0000_0000_0000_0000_0000) by (nonlinear_arith)
            requires
                0 <= (mid as int) < 0x1_0000_0000_0000_0000,
        ;
        if mid * mid <= x {
            lo = mid;
        } else {
            hi = mid;
        }
    }
    proof {
        lemma_sqrt_floor_correct(x as int);
        lemma_isqrt_unique(x as int, lo as int, sqrt_floor(x as int));
    }
    lo as u64
}

/// Floor of the base-two logarithm of a positive integer.
pub open spec fn lg(n: int) -> int
    recommends
        n >= 1,
    decreases n,
{
    if n < 2 {
        0
    } else {
        1 + lg(n / 2)
    }
}

/// `lg` brackets its argument between consecutive powers of two.
pub proof fn lemma_lg_bracket(n: int)
    requires
        n >= 1,
    ensures
        0 <= lg(n),
        vstd::arithmetic::power2::pow2(lg(n) as nat) <= n,
        n < vstd::arithmetic::power2::pow2((lg(n) + 1) as nat),
    decreases n,
{
    if n < 2 {
        vstd::arithmetic::power2::lemma2_to64();
    } else {
        lemma_lg_bracket(n / 2);
        vstd::arithmetic::power2::lemma_pow2_unfold(lg(n) as nat);
        vstd::arithmetic::power2::lemma_pow2_unfold((lg(n) + 1) as nat);
    }
}

/// Fixed-point natural logarithm of a positive integer: a piecewise-linear
/// interpolation of the base-two logarithm between consecutive powers of
/// two, rescaled by the natural logarithm of two in micro-units.
pub open spec fn ln_fx(n: int) -> int
    recommends
        n >= 1,
{
    let k = lg(n);
    let p = vstd::arithmetic::power2::pow2(k as nat) as int;
    LN2_MICROS as int * k + ((n - p) * LN2_MICROS as int) / p
}

/// Floor of the base-two logarithm of a positive `u64`.
pub fn log2_floor(n: u64) -> (r: u32)
    requires
        n >= 1,
    ensures
        r as int == lg(n as int),
        r < 64,
{
    let mut m: u64 = n;
    let mut k: u32 = 0;
    proof {
        vstd::arithmetic::power2::lemma2_to64();
    }
    while m >= 2
        invariant
            1 <= m <= n,
            lg(n as int) == k + lg(m as int),
            (m as int) * (vstd::arithmetic::power2::pow2(k as nat) as int) <= n as int,
            k < 64,
        decreases m,
    {
        proof {
            let p = vstd::arithmetic::power2::pow2(k as nat);
            assert(vstd::arithmetic::power2::pow2((k + 1) as nat) == 2 * p) by {
                vstd::arithmetic::power2::lemma_pow2_unfold((k + 1) as nat);
            };
            assert(((m as int) / 2) * (2 * (p as int)) <= (m as int) * (p as int)) by (nonlinear_arith)
                requires
                    m >= 2,
                    p >= 0nat,
            ;
            if k + 1 >= 64 {
                assert(k == 63);
                assert(vstd::arithmetic::power2::pow2(64) == 0x1_0000_0000_0000_0000) by {
                    vstd::arithmetic::power2::lemma2_to64();
                };
                vstd::arithmetic::power2::lemma_pow2_unfold(64);
                assert((m as int) * (p as int) >= 2 * (p as int)) by (nonlinear_arith)
                    requires
                        m >= 2,
                        p >= 0nat,
                ;
                assert(false);
            }
        }
        m = m / 2;
        k = k + 1;
    }
    k
}

/// Power of two as a `u64`.
pub fn pow2_u64(k: u32) -> (r: u64)
    requires
        k < 64,
    ensures
        r as int == vstd::arithmetic::power2::pow2(k as nat),
        r >= 1,
{
    let mut i: u32 = 0;
    let mut r: u64 = 1;
    proof {
        vstd::arithmetic::power2::lemma2_to64();
    }
    while i < k
        invariant
            0 <= i <= k < 64,
            r as int == vstd::arithmetic::power2::pow2(i as nat),
        decreases k - i,
    {
        proof {
            vstd::arithmetic::power2::lemma_pow2_unfold((i + 1) as nat);
            if i as nat + 1 < 64 {
                vstd::arithmetic::power2::lemma_pow2_strictly_increases(i as nat + 1, 64);
            }
            assert(vstd::arithmetic::power2::pow2(64) == 0x1_0000_0000_0000_0000) by {
                vstd::arithmetic::power2::lemma2_to64();
            };
        }
        r = r * 2;
        i = i + 1;
    }
    proof {
        vstd::arithmetic::power2::lemma_pow2_pos(k as nat);
    }
    r
}

/// Fixed-point natural logarithm of a positive `u64`, in micro-units.
pub fn ln_fx_u64(n: u64) -> (r: u64)
    requires
        n >= 1,
    ensures
        r as int == ln_fx(n as int),
        r < 45_000_000,
{
    let k: u32 = log2_floor(n);
    let p: u64 = pow2_u64(k);
    proof {
        lemma_lg_bracket(n as int);
        assert(vstd::arithmetic::power2::pow2((lg(n as int) + 1) as nat) == 2
            * vstd::arithmetic::power2::pow2(lg(n as int) as nat)) by {
            vstd::arithmetic::power2::lemma_pow2_unfold((lg(n as int) + 1) as nat);
        };
    }
    let d: u64 = n - p;
    let frac: u128 = ((d as u128) * (LN2_MICROS as u128)) / (p as u128);
    proof {
        assert(d < p);
        assert((d as int) * (LN2_MICROS as int) < (p as int) * (LN2_MICROS as int)) by (nonlinear_arith)
            requires
                0 <= (d as int) < (p as int),
        ;
        vstd::arithmetic::div_mod::lemma_multiply_divide_lt(
            (d as int) * (LN2_MICROS as int),
            p as int,
            LN2_MICROS as int,
        );
    }
    assert(frac < LN2_MICROS as u128);
    (k as u64) * LN2_MICROS + (frac as u64)
}

} // verus!
