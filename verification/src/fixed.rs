//! Fixed-point numbers and the integer helpers the canvas arithmetic rests on.
//!
//! Positions and lengths are stored as integers that count units of
//! `1 / UNIT`; scales, spacings and scroll magnitudes, which need more places
//! than range, count units of `1 / ONE`. The mathematical meaning of every
//! helper is given by a spec function over `int`.

use vstd::prelude::*;
use vstd::arithmetic::div_mod::{lemma_div_is_ordered_by_denominator, lemma_div_pos_is_pos};
use vstd::arithmetic::power2::{
    lemma2_to64, lemma_pow2_strictly_increases, lemma_pow2_unfold, pow2,
};

verus! {

/// The representation of `1.0` as a position or a length.
pub const UNIT: i32 = 256;

/// The representation of `1.0` as a scale, a spacing or a scroll magnitude.
pub const ONE: i32 = 65536;

/// `r` is the integer square root of `x`, rounded down.
pub open spec fn is_floor_sqrt(x: int, r: int) -> bool {
    0 <= r && r * r <= x && x < (r + 1) * (r + 1)
}

/// The integer square root of `x`, rounded down (meaningful for `x >= 0`).
pub open spec fn floor_sqrt(x: int) -> int {
    choose|r: int| is_floor_sqrt(x, r)
}

/// Signed division that rounds toward zero, as machine division does.
pub open spec fn trunc_div(a: int, b: int) -> int {
    if a >= 0 {
        a / b
    } else {
        -((-a) / b)
    }
}

/// `v` limited to the closed interval from `lo` to `hi`.
pub open spec fn clamp(v: int, lo: int, hi: int) -> int {
    if v < lo {
        lo
    } else if v > hi {
        hi
    } else {
        v
    }
}

/// Squaring is monotone on the non-negative integers.
pub proof fn lemma_square_monotone(a: int, b: int)
    by (nonlinear_arith)
    requires
        0 <= a <= b,
    ensures
        a * a <= b * b,
{
}

/// At most one integer is the rounded-down square root of `x`.
pub proof fn lemma_floor_sqrt_unique(x: int, r: int)
    requires
        is_floor_sqrt(x, r),
    ensures
        floor_sqrt(x) == r,
{
    let q = floor_sqrt(x);
    assert(is_floor_sqrt(x, q));
    if q < r {
        lemma_square_monotone(q + 1, r);
    } else if r < q {
        lemma_square_monotone(r + 1, q);
    }
}

/// Every non-negative integer has a rounded-down square root.
pub proof fn lemma_floor_sqrt_exists(x: int)
    requires
        0 <= x,
    ensures
        is_floor_sqrt(x, floor_sqrt(x)),
    decreases x,
{
    if x == 0 {
        assert(is_floor_sqrt(0, 0));
    } else {
        lemma_floor_sqrt_exists(x - 1);
        let r = floor_sqrt(x - 1);
        if (r + 1) * (r + 1) <= x {
            assert((r + 2) * (r + 2) > (r + 1) * (r + 1)) by (nonlinear_arith)
                requires
                    0 <= r,
            ;
            assert(is_floor_sqrt(x, r + 1));
        } else {
            assert(is_floor_sqrt(x, r));
        }
    }
}

/// The square root of a perfect square is its root.
pub proof fn lemma_floor_sqrt_of_square(r: int)
    requires
        0 <= r,
    ensures
        floor_sqrt(r * r) == r,
{
    assert(r * r < (r + 1) * (r + 1)) by (nonlinear_arith)
        requires
            0 <= r,
    ;
    lemma_floor_sqrt_unique(r * r, r);
}

/// The rounded-down square root is monotone.
pub proof fn lemma_floor_sqrt_monotone(x: int, y: int)
    requires
        0 <= x <= y,
    ensures
        floor_sqrt(x) <= floor_sqrt(y),
{
    lemma_floor_sqrt_exists(x);
    lemma_floor_sqrt_exists(y);
    let a = floor_sqrt(x);
    let b = floor_sqrt(y);
    if b < a {
        lemma_square_monotone(b + 1, a);
    }
}

/// Integer square root of `x`, rounded down.
pub fn isqrt(x: u128) -> (r: u64)
    ensures
        r == floor_sqrt(x as int),
        is_floor_sqrt(x as int, r as int),
{
    let mut lo: u128 = 0;
    let mut hi: u128 = 0x1_0000_0000_0000_0000;
    assert(hi * hi > x) by (nonlinear_arith)
        requires
            hi == 0x1_0000_0000_0000_0000,
            x <= u128::MAX,
    ;
    while hi - lo > 1
        invariant
            lo < hi <= 0x1_0000_0000_0000_0000,
            lo * lo <= x,
            x < hi * hi,
        decreases hi - lo,
    {
        let mid: u128 = lo + (hi - lo) / 2;
        assert(mid * mid <= u128::MAX) by (nonlinear_arith)
            requires
                mid <= 0xffff_ffff_ffff_ffff,
        ;
        if mid * mid <= x {
            lo = mid;
        } else {
            hi = mid;
        }
    }
    proof {
        lemma_floor_sqrt_unique(x as int, lo as int);
    }
    lo as u64
}

/// `v` limited to the range of a coordinate.
pub fn saturate(v: i128) -> (r: i32)
    ensures
        r == clamp(v as int, i32::MIN as int, i32::MAX as int),
{
    if v < i32::MIN as i128 {
        i32::MIN
    } else if v > i32::MAX as i128 {
        i32::MAX
    } else {
        v as i32
    }
}

/// The product `v * factor` divided by `denom`, rounded toward zero. The
/// result is computed without overflow and is no larger than the product.
pub fn mul_div(v: i64, factor: i64, denom: i64) -> (r: i128)
    requires
        denom > 0,
    ensures
        r == trunc_div(v * factor, denom as int),
        -0x4000_0000_0000_0000_0000_0000_0000_0000 <= r,
        r <= 0x4000_0000_0000_0000_0000_0000_0000_0000,
{
    assert(-0x4000_0000_0000_0000_0000_0000_0000_0000 <= v * factor
        <= 0x4000_0000_0000_0000_0000_0000_0000_0000) by (nonlinear_arith)
        requires
            -0x8000_0000_0000_0000 <= v <= 0x8000_0000_0000_0000,
            -0x8000_0000_0000_0000 <= factor <= 0x8000_0000_0000_0000,
    ;
    let product: i128 = v as i128 * factor as i128;
    proof {
        let magnitude: int = if product >= 0 {
            product as int
        } else {
            -product
        };
        lemma_div_pos_is_pos(magnitude, denom as int);
        lemma_div_is_ordered_by_denominator(magnitude, 1, denom as int);
    }
    product / denom as i128
}

/// Two to the power `k`.
pub fn pow2_small(k: u32) -> (p: u128)
    requires
        k <= 32,
    ensures
        p == pow2(k as nat),
        1 <= p <= 0x1_0000_0000,
{
    let mut p: u128 = 1;
    let mut i: u32 = 0;
    proof {
        lemma2_to64();
    }
    while i < k
        invariant
            i <= k <= 32,
            p == pow2(i as nat),
            1 <= p <= 0x1_0000_0000,
        decreases k - i,
    {
        proof {
            lemma2_to64();
            lemma_pow2_unfold((i + 1) as nat);
            if i + 1 < 32 {
                lemma_pow2_strictly_increases((i + 1) as nat, 32);
            }
        }
        p = p * 2;
        i = i + 1;
    }
    p
}

} // verus!
