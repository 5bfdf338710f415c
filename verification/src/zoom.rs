//! The scale of the camera as a power of the zoom base.
//!
//! The camera keeps its zoom as a level: the logarithm of its scale to the
//! zoom base, counted in [`STEP`]ths. Zooming adds to the level, so that it
//! keeps every fraction of a zoom distance and can be undone exactly. The
//! scale that belongs to a level is computed here, in integers: the whole
//! part of the level shifts, and each binary digit of its fraction
//! multiplies by a root of the zoom base, rounded down.

use vstd::prelude::*;
use vstd::arithmetic::div_mod::{
    lemma_breakdown, lemma_div_denominator, lemma_div_is_ordered, lemma_div_pos_is_pos,
    lemma_fundamental_div_mod, lemma_fundamental_div_mod_converse, lemma_mod_bound,
};
use vstd::arithmetic::power2::{
    lemma2_to64, lemma_pow2_pos, lemma_pow2_strictly_increases, lemma_pow2_unfold, pow2,
};
use crate::fixed::{
    floor_sqrt, is_floor_sqrt, lemma_floor_sqrt_exists, lemma_floor_sqrt_monotone,
    lemma_floor_sqrt_of_square, lemma_floor_sqrt_unique, pow2_small, ONE,
};

verus! {

/// The factor by which a zoom distance of one changes the scale.
pub const ZOOM_BASE: u32 = 2;

/// The zoom distance one, in the units in which zoom levels are counted.
pub const STEP: i32 = 131072;

/// The largest zoom level: eight steps, a scale of 256. The smallest is its
/// negative, a scale of 1/256.
pub const MAX_ZOOM: i32 = 1048576;

/// The smallest scale of the camera: 1/256.
pub const MIN_SCALE: u32 = 256;

/// The largest scale of the camera: 256.
pub const MAX_SCALE: u32 = 16777216;

/// One, with the 32 fractional bits with which powers are multiplied.
pub open spec fn unit() -> int {
    0x1_0000_0000
}

/// The zoom base to the power `2^j / STEP`, with 32 fractional bits: the
/// base itself for `j == 17`, and below that the square root of the power
/// above, rounded down.
pub open spec fn root(j: nat) -> int
    decreases 17 - j,
{
    if j >= 17 {
        ZOOM_BASE * unit()
    } else {
        floor_sqrt(root(j + 1) * unit())
    }
}

/// Whether the binary digit of weight `2^j` of `f` is set.
pub open spec fn bit(f: int, j: nat) -> bool {
    (f / (pow2(j) as int)) % 2 == 1
}

/// The zoom base to the power `(f % 2^j) / STEP`, with 32 fractional bits:
/// the product of the roots that belong to the set digits of `f` below `j`,
/// from the lowest digit upward, rounded down after each factor.
pub open spec fn frac_power(f: int, j: nat) -> int
    decreases j,
{
    if j == 0 {
        unit()
    } else {
        let lower = frac_power(f, (j - 1) as nat);
        if bit(f, (j - 1) as nat) {
            root((j - 1) as nat) * lower / unit()
        } else {
            lower
        }
    }
}

/// The scale, in fixed point, of the zoom level `zoom`: the zoom base to the
/// power `zoom / STEP`. The whole steps of the level shift the power of its
/// fraction, which is rounded as [`frac_power`] says; at whole steps the
/// scale is exact. Meaningful for levels from `-MAX_ZOOM` to `MAX_ZOOM`.
pub open spec fn scale_of(zoom: int) -> int {
    let shifted = zoom + MAX_ZOOM;
    frac_power(shifted % (STEP as int), 17) / (pow2((24 - shifted / (STEP as int)) as nat) as int)
}

/// A root is the rounded-down square root of the root above it.
proof fn lemma_root_step(j: nat, above: int, value: int)
    requires
        j < 17,
        root(j + 1) == above,
        0 <= value,
        value * value <= above * 0x1_0000_0000,
        above * 0x1_0000_0000 < (value + 1) * (value + 1),
    ensures
        root(j) == value,
{
    lemma_floor_sqrt_unique(above * unit(), value);
}

/// The roots of two, from the base down to its `STEP`th root.
pub proof fn lemma_roots()
    ensures
        root(17) == 8589934592,
        root(16) == 6074000999,
        root(15) == 5107605666,
        root(14) == 4683695047,
        root(13) == 4485121743,
        root(12) == 4389014833,
        root(11) == 4341736423,
        root(10) == 4318288543,
        root(9) == 4306612133,
        root(8) == 4300785773,
        root(7) == 4297875549,
        root(6) == 4296421176,
        root(5) == 4295694174,
        root(4) == 4295330719,
        root(3) == 4295149003,
        root(2) == 4295058148,
        root(1) == 4295012721,
        root(0) == 4294990008,
{
    lemma_root_step(16, 8589934592, 6074000999);
    lemma_root_step(15, 6074000999, 5107605666);
    lemma_root_step(14, 5107605666, 4683695047);
    lemma_root_step(13, 4683695047, 4485121743);
    lemma_root_step(12, 4485121743, 4389014833);
    lemma_root_step(11, 4389014833, 4341736423);
    lemma_root_step(10, 4341736423, 4318288543);
    lemma_root_step(9, 4318288543, 4306612133);
    lemma_root_step(8, 4306612133, 4300785773);
    lemma_root_step(7, 4300785773, 4297875549);
    lemma_root_step(6, 4297875549, 4296421176);
    lemma_root_step(5, 4296421176, 4295694174);
    lemma_root_step(4, 4295694174, 4295330719);
    lemma_root_step(3, 4295330719, 4295149003);
    lemma_root_step(2, 4295149003, 4295058148);
    lemma_root_step(1, 4295058148, 4295012721);
    lemma_root_step(0, 4295012721, 4294990008);
}

/// Every root lies between one and the base, its square is at most the root
/// above it, and the roots grow with their index.
pub proof fn lemma_root_bounds(j: nat)
    requires
        j <= 17,
    ensures
        unit() <= root(j) <= 2 * unit(),
        j < 17 ==> root(j) * root(j) <= root(j + 1) * unit(),
        j < 17 ==> root(j) <= root(j + 1),
    decreases 17 - j,
{
    if j < 17 {
        lemma_root_bounds(j + 1);
        let above = root(j + 1);
        let r = root(j);
        assert(0x1_0000_0000 * 0x1_0000_0000 <= above * 0x1_0000_0000) by (nonlinear_arith)
            requires
                0x1_0000_0000 <= above,
        ;
        lemma_floor_sqrt_exists(above * unit());
        lemma_floor_sqrt_of_square(unit());
        lemma_floor_sqrt_monotone(unit() * unit(), above * unit());
        assert(r <= above) by (nonlinear_arith)
            requires
                0x1_0000_0000 <= r,
                r * r <= above * 0x1_0000_0000,
        ;
    }
}

/// A power of a fraction lies between one and the root that belongs to the
/// first digit it leaves out.
pub proof fn lemma_frac_power_bounds(f: int, j: nat)
    requires
        j <= 17,
    ensures
        unit() <= frac_power(f, j) <= root(j),
    decreases j,
{
    lemma_root_bounds(j);
    if j > 0 {
        let i = (j - 1) as nat;
        lemma_frac_power_bounds(f, i);
        lemma_root_bounds(i);
        let lower = frac_power(f, i);
        let r = root(i);
        if bit(f, i) {
            assert(0x1_0000_0000 * lower <= r * lower && r * lower <= r * r) by (nonlinear_arith)
                requires
                    0x1_0000_0000 <= r,
                    0 <= lower <= r,
            ;
            lemma_div_is_ordered(unit() * lower, r * lower, unit());
            lemma_div_is_ordered(r * lower, root(j) * unit(), unit());
            lemma_fundamental_div_mod_converse(unit() * lower, unit(), lower, 0);
            lemma_fundamental_div_mod_converse(root(j) * unit(), unit(), root(j), 0);
        }
    }
}

/// The digits of `f` below `j + 1` are its digit `j` and its digits below
/// `j`: the digit `j` is set where the remainder by `2^(j + 1)` reaches
/// `2^j`.
pub proof fn lemma_digits(f: int, j: nat)
    requires
        0 <= f,
    ensures
        f % (pow2(j + 1) as int) == (if bit(f, j) {
            pow2(j) as int
        } else {
            0
        }) + f % (pow2(j) as int),
        0 <= f % (pow2(j) as int) < pow2(j),
{
    lemma_pow2_pos(j);
    lemma_pow2_unfold(j + 1);
    lemma_breakdown(f, pow2(j) as int, 2);
    lemma_mod_bound(f, pow2(j) as int);
    lemma_mod_bound(f / (pow2(j) as int), 2);
    assert(pow2(j + 1) == pow2(j) * 2) by (nonlinear_arith)
        requires
            pow2(j + 1) == 2 * pow2(j),
    ;
    let b = (f / (pow2(j) as int)) % 2;
    assert(pow2(j) * b == if b == 1 {
        pow2(j) as int
    } else {
        0
    }) by (nonlinear_arith)
        requires
            0 <= b < 2,
    ;
}

/// A greater fraction never has a smaller power.
pub proof fn lemma_frac_power_monotone(f1: int, f2: int, j: nat)
    requires
        j <= 17,
        0 <= f1,
        0 <= f2,
        f1 % (pow2(j) as int) <= f2 % (pow2(j) as int),
    ensures
        frac_power(f1, j) <= frac_power(f2, j),
    decreases j,
{
    if j > 0 {
        let i = (j - 1) as nat;
        lemma_digits(f1, i);
        lemma_digits(f2, i);
        lemma_frac_power_bounds(f1, i);
        lemma_frac_power_bounds(f2, i);
        lemma_root_bounds(i);
        let r = root(i);
        let p1 = frac_power(f1, i);
        let p2 = frac_power(f2, i);
        if bit(f1, i) == bit(f2, i) {
            lemma_frac_power_monotone(f1, f2, i);
            if bit(f1, i) {
                assert(r * p1 <= r * p2) by (nonlinear_arith)
                    requires
                        0 <= r,
                        p1 <= p2,
                ;
                lemma_div_is_ordered(r * p1, r * p2, unit());
            }
        } else {
            // the digit is set in `f2` alone
            assert(r * 0x1_0000_0000 <= r * p2) by (nonlinear_arith)
                requires
                    0 <= r,
                    0x1_0000_0000 <= p2,
            ;
            lemma_div_is_ordered(r * unit(), r * p2, unit());
            lemma_fundamental_div_mod_converse(r * unit(), unit(), r, 0);
        }
    }
}

/// The power of a fraction without set digits below `j` is one.
pub proof fn lemma_frac_power_without_digits(f: int, j: nat)
    requires
        0 <= f,
        f % (pow2(j) as int) == 0,
    ensures
        frac_power(f, j) == unit(),
    decreases j,
{
    if j > 0 {
        let i = (j - 1) as nat;
        lemma_digits(f, i);
        lemma_pow2_pos(i);
        lemma_frac_power_without_digits(f, i);
    }
}

/// The power of a fraction without set digits is one.
pub proof fn lemma_frac_power_of_zero(j: nat)
    ensures
        frac_power(0, j) == unit(),
    decreases j,
{
    if j > 0 {
        lemma_frac_power_of_zero((j - 1) as nat);
        lemma_pow2_pos((j - 1) as nat);
        lemma_div_pos_is_pos(0, pow2((j - 1) as nat) as int);
        lemma_div_is_ordered(0, 0, pow2((j - 1) as nat) as int);
        assert(0int / (pow2((j - 1) as nat) as int) == 0) by {
            lemma_fundamental_div_mod_converse(0, pow2((j - 1) as nat) as int, 0, 0);
        }
    }
}

/// The whole steps and the fraction of a level in range.
proof fn lemma_level_parts(zoom: int)
    requires
        -MAX_ZOOM <= zoom <= MAX_ZOOM,
    ensures
        0 <= (zoom + MAX_ZOOM) / (STEP as int) <= 16,
        0 <= (zoom + MAX_ZOOM) % (STEP as int) < STEP,
        (zoom + MAX_ZOOM) / (STEP as int) == 16 ==> (zoom + MAX_ZOOM) % (STEP as int) == 0,
        pow2(17) == STEP,
{
    lemma2_to64();
}

/// The scale of a level, from the whole steps and the fraction of the level
/// counted from the lower end of its range.
pub proof fn lemma_scale_of_parts(zoom: int, steps: int, fraction: int)
    requires
        zoom + MAX_ZOOM == steps * STEP + fraction,
        0 <= fraction < STEP,
    ensures
        scale_of(zoom) == frac_power(fraction, 17) / (pow2((24 - steps) as nat) as int),
{
    lemma_fundamental_div_mod_converse(zoom + MAX_ZOOM, STEP as int, steps, fraction);
}

/// The scale of a level lies between two to its whole steps and two to one
/// step more.
proof fn lemma_scale_of_between(zoom: int)
    requires
        -MAX_ZOOM <= zoom <= MAX_ZOOM,
    ensures
        ({
            let q = (zoom + MAX_ZOOM) / (STEP as int);
            &&& pow2((8 + q) as nat) <= scale_of(zoom) <= pow2((9 + q) as nat)
            &&& q == 16 ==> scale_of(zoom) == pow2(24)
        }),
{
    lemma_level_parts(zoom);
    let shifted = zoom + MAX_ZOOM;
    let q = shifted / (STEP as int);
    let f = shifted % (STEP as int);
    let p = frac_power(f, 17);
    let e = (24 - q) as nat;
    lemma_frac_power_bounds(f, 17);
    lemma_root_bounds(17);
    lemma_pow2_pos(e);
    lemma2_to64();
    lemma_pow2_unfold(33);
    assert(pow2(32) == unit() && pow2(33) == 2 * unit());
    lemma_power_quotient(32, e);
    lemma_power_quotient(33, e);
    assert((32 - e) as nat == (8 + q) as nat && (33 - e) as nat == (9 + q) as nat);
    lemma_div_is_ordered(unit(), p, pow2(e) as int);
    lemma_div_is_ordered(p, 2 * unit(), pow2(e) as int);
    assert(scale_of(zoom) == p / (pow2(e) as int));
    if q == 16 {
        lemma_frac_power_of_zero(17);
    }
}

/// The scale of a level in range lies in the range of the scale.
pub proof fn lemma_scale_of_range(zoom: int)
    requires
        -MAX_ZOOM <= zoom <= MAX_ZOOM,
    ensures
        MIN_SCALE <= scale_of(zoom) <= MAX_SCALE,
{
    lemma_level_parts(zoom);
    lemma_scale_of_between(zoom);
    let q = (zoom + MAX_ZOOM) / (STEP as int);
    lemma2_to64();
    if q > 0 {
        lemma_pow2_strictly_increases(8, (8 + q) as nat);
    }
    if q < 15 {
        lemma_pow2_strictly_increases((9 + q) as nat, 24);
    }
}

/// Two to the power `a`, divided by two to the power `b`, for `b <= a`.
proof fn lemma_power_quotient(a: nat, b: nat)
    requires
        b <= a,
    ensures
        (pow2(a) as int) / (pow2(b) as int) == pow2((a - b) as nat),
{
    vstd::arithmetic::power2::lemma_pow2_subtracts(b, a);
}

/// A greater level never has a smaller scale.
pub proof fn lemma_scale_of_monotone(low: int, high: int)
    requires
        -MAX_ZOOM <= low <= high <= MAX_ZOOM,
    ensures
        scale_of(low) <= scale_of(high),
{
    lemma_level_parts(low);
    lemma_level_parts(high);
    let q1 = (low + MAX_ZOOM) / (STEP as int);
    let f1 = (low + MAX_ZOOM) % (STEP as int);
    let q2 = (high + MAX_ZOOM) / (STEP as int);
    let f2 = (high + MAX_ZOOM) % (STEP as int);
    lemma_fundamental_div_mod(low + MAX_ZOOM, STEP as int);
    lemma_fundamental_div_mod(high + MAX_ZOOM, STEP as int);
    lemma_div_is_ordered(low + MAX_ZOOM, high + MAX_ZOOM, STEP as int);
    if q1 == q2 {
        let e = (24 - q1) as nat;
        lemma_pow2_pos(e);
        assert(f1 % (pow2(17) as int) == f1 && f2 % (pow2(17) as int) == f2) by {
            lemma_fundamental_div_mod_converse(f1, STEP as int, 0, f1);
            lemma_fundamental_div_mod_converse(f2, STEP as int, 0, f2);
        }
        lemma_frac_power_monotone(f1, f2, 17);
        lemma_div_is_ordered(frac_power(f1, 17), frac_power(f2, 17), pow2(e) as int);
    } else {
        // the scale of `low` is at most two to its whole steps and one more
        lemma_scale_of_between(low);
        lemma_scale_of_between(high);
        if 9 + q1 < 8 + q2 {
            lemma_pow2_strictly_increases((9 + q1) as nat, (8 + q2) as nat);
        }
    }
}

/// The power of a fraction depends on its digits below `j` alone.
pub proof fn lemma_frac_power_of_digits(f1: int, f2: int, j: nat)
    requires
        j <= 17,
        0 <= f1,
        0 <= f2,
        f1 % (pow2(j) as int) == f2 % (pow2(j) as int),
    ensures
        frac_power(f1, j) == frac_power(f2, j),
{
    lemma_frac_power_monotone(f1, f2, j);
    lemma_frac_power_monotone(f2, f1, j);
}

/// Adding a whole divisor to the dividend adds one to the quotient, and
/// doubling dividend and divisor leaves it as it is.
proof fn lemma_quotients(a: int, d: int)
    requires
        0 <= a,
        0 < d,
    ensures
        (a + d) / d == a / d + 1,
        (2 * a) / (2 * d) == a / d,
{
    lemma_fundamental_div_mod(a, d);
    lemma_mod_bound(a, d);
    assert(d * (a / d) + d == (a / d + 1) * d && d * (a / d) == (a / d) * d) by (nonlinear_arith);
    lemma_fundamental_div_mod_converse(a + d, d, a / d + 1, a % d);
    assert(2 * (d * (a / d)) == (a / d) * (2 * d)) by (nonlinear_arith);
    lemma_fundamental_div_mod_converse(2 * a, 2 * d, a / d, 2 * (a % d));
}

/// Half a step always shows in the scale: a level that is half a step above
/// another has a strictly greater scale.
pub proof fn lemma_half_step_raises_scale(zoom: int)
    requires
        -MAX_ZOOM <= zoom,
        zoom + STEP / 2 <= MAX_ZOOM,
    ensures
        scale_of(zoom) < scale_of(zoom + STEP / 2),
{
    let above = zoom + STEP / 2;
    lemma_level_parts(zoom);
    lemma_level_parts(above);
    lemma_roots();
    lemma2_to64();
    let q = (zoom + MAX_ZOOM) / (STEP as int);
    let f = (zoom + MAX_ZOOM) % (STEP as int);
    lemma_fundamental_div_mod(zoom + MAX_ZOOM, STEP as int);
    lemma_digits(f, 16);
    let low = frac_power(f, 16);
    lemma_frac_power_bounds(f, 16);
    let e = (24 - q) as nat;
    lemma_pow2_pos(e);
    if q > 0 {
        lemma_pow2_strictly_increases(e, 24);
    }
    let d = pow2(e) as int;
    if bit(f, 16) {
        // the half step carries into the whole steps
        let g = f - 65536;
        lemma_scale_of_parts(zoom, q, f);
        lemma_scale_of_parts(above, q + 1, g);
        assert(g % (pow2(16) as int) == f % (pow2(16) as int)) by {
            lemma_fundamental_div_mod_converse(g, 65536, 0, g);
        }
        lemma_frac_power_of_digits(g, f, 16);
        lemma_digits(g, 16);
        assert(frac_power(g, 17) == low);
        let p = 6074000999 * low / unit();
        assert(frac_power(f, 17) == p);
        lemma_fundamental_div_mod(6074000999 * low, unit());
        lemma_mod_bound(6074000999 * low, unit());
        assert(p * 0x1_0000_0000 <= 6074000999 * low) by (nonlinear_arith)
            requires
                6074000999 * low == 0x1_0000_0000 * p + (6074000999 * low) % 0x1_0000_0000,
                0 <= (6074000999 * low) % 0x1_0000_0000,
        ;
        assert(p + d <= 2 * low) by (nonlinear_arith)
            requires
                p * 0x1_0000_0000 <= 6074000999 * low,
                0x1_0000_0000 <= low,
                d <= 0x100_0000,
        ;
        lemma_div_pos_is_pos(6074000999 * low, unit());
        lemma_quotients(p, d);
        lemma_div_is_ordered(p + d, 2 * low, d);
        lemma_pow2_unfold(e);
        lemma_pow2_pos((e - 1) as nat);
        lemma_quotients(low, pow2((e - 1) as nat) as int);
        assert((24 - (q + 1)) as nat == (e - 1) as nat);
    } else {
        // the half step sets the highest digit of the fraction
        let g = f + 65536;
        lemma_scale_of_parts(zoom, q, f);
        lemma_scale_of_parts(above, q, g);
        assert(g % (pow2(16) as int) == f % (pow2(16) as int)) by {
            lemma_fundamental_div_mod_converse(g, 65536, 1, f);
            lemma_fundamental_div_mod_converse(f, 65536, 0, f);
        }
        lemma_frac_power_of_digits(g, f, 16);
        lemma_digits(g, 16);
        assert(bit(g, 16));
        assert(frac_power(f, 17) == low);
        let p = 6074000999 * low / unit();
        assert(frac_power(g, 17) == p);
        assert(6074000999 * low >= (low + d) * 0x1_0000_0000) by (nonlinear_arith)
            requires
                0x1_0000_0000 <= low,
                d <= 0x100_0000,
        ;
        lemma_div_is_ordered((low + d) * unit(), 6074000999 * low, unit());
        lemma_fundamental_div_mod_converse((low + d) * unit(), unit(), low + d, 0);
        lemma_quotients(low, d);
        lemma_div_is_ordered(low + d, p, d);
    }
}

/// A level that is half a step or more above another has a strictly greater
/// scale.
pub proof fn lemma_scale_of_strict(low: int, high: int)
    requires
        -MAX_ZOOM <= low,
        low + STEP / 2 <= high <= MAX_ZOOM,
    ensures
        scale_of(low) < scale_of(high),
{
    lemma_half_step_raises_scale(low);
    lemma_scale_of_monotone(low + STEP / 2, high);
}

/// At whole steps the scale is exact: one at level zero, and doubled or
/// halved by each step.
pub proof fn lemma_scale_of_whole_steps(steps: int)
    requires
        -8 <= steps <= 8,
    ensures
        scale_of(steps * STEP) == pow2((16 + steps) as nat),
        scale_of(0) == ONE,
{
    lemma2_to64();
    lemma_frac_power_of_zero(17);
    lemma_power_quotient(32, (16 - steps) as nat);
    lemma_power_quotient(32, 16);
    lemma_fundamental_div_mod_converse(steps * STEP + MAX_ZOOM, STEP as int, steps + 8, 0);
    lemma_fundamental_div_mod_converse(MAX_ZOOM as int, STEP as int, 8, 0);
}

/// The root of the zoom base that belongs to the digit of weight `2^j`.
fn root_of_base(j: u32) -> (r: u64)
    requires
        j < 17,
    ensures
        r == root(j as nat),
        0x1_0000_0000 <= r <= 0x2_0000_0000,
{
    proof {
        lemma_roots();
    }
    match j {
        0 => 4294990008,
        1 => 4295012721,
        2 => 4295058148,
        3 => 4295149003,
        4 => 4295330719,
        5 => 4295694174,
        6 => 4296421176,
        7 => 4297875549,
        8 => 4300785773,
        9 => 4306612133,
        10 => 4318288543,
        11 => 4341736423,
        12 => 4389014833,
        13 => 4485121743,
        14 => 4683695047,
        15 => 5107605666,
        16 => 6074000999,
        _ => 6074000999,
    }
}

/// The scale of the zoom level `zoom`.
pub fn scale_at(zoom: i32) -> (scale: u32)
    requires
        -MAX_ZOOM <= zoom <= MAX_ZOOM,
    ensures
        scale == scale_of(zoom as int),
        MIN_SCALE <= scale <= MAX_SCALE,
{
    let shifted: u32 = (zoom + MAX_ZOOM) as u32;
    let steps: u32 = shifted / 131072;
    let fraction: u32 = shifted % 131072;
    let mut power: u64 = 0x1_0000_0000;
    let mut digits: u32 = fraction;
    let mut j: u32 = 0;
    proof {
        lemma_level_parts(zoom as int);
        lemma2_to64();
    }
    while j < 17
        invariant
            j <= 17,
            fraction < 131072,
            power == frac_power(fraction as int, j as nat),
            digits == (fraction as int) / (pow2(j as nat) as int),
        decreases 17 - j,
    {
        let r = root_of_base(j);
        proof {
            lemma_frac_power_bounds(fraction as int, j as nat);
            lemma_frac_power_bounds(fraction as int, (j + 1) as nat);
            lemma_root_bounds(j as nat);
            lemma_root_bounds((j + 1) as nat);
            lemma_pow2_pos(j as nat);
            lemma_pow2_unfold((j + 1) as nat);
            lemma_div_denominator(fraction as int, pow2(j as nat) as int, 2);
            assert(pow2(j as nat) * 2 == pow2((j + 1) as nat)) by (nonlinear_arith)
                requires
                    pow2((j + 1) as nat) == 2 * pow2(j as nat),
            ;
            assert(r * power <= 0x2_0000_0000 * 0x2_0000_0000) by (nonlinear_arith)
                requires
                    0 <= r <= 0x2_0000_0000,
                    0 <= power <= 0x2_0000_0000,
            ;
        }
        if digits % 2 == 1 {
            power = ((r as u128 * power as u128) / 0x1_0000_0000) as u64;
        }
        digits = digits / 2;
        j = j + 1;
    }
    proof {
        lemma_scale_of_range(zoom as int);
        lemma_frac_power_bounds(fraction as int, 17);
    }
    (power as u128 / pow2_small(24 - steps)) as u32
}

} // verus!
