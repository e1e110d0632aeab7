//! Piecewise-linear fixed-point tables for the standard normal CDF and for
//! the natural logarithm.
//!
//! Both functions are tabulated at evenly spaced knots and evaluated by
//! linear interpolation with truncating integer division.  The knot values
//! are floor(f(knot) * SCALE) of the exact real function.  The contracts pin
//! every result to the spec-level interpolation, and the lemmas establish the
//! monotonicity that the probability gates rely on.

use vstd::prelude::*;
use vstd::arithmetic::div_mod::{
    lemma_div_is_ordered, lemma_div_multiples_vanish, lemma_div_plus_one,
    lemma_fundamental_div_mod, lemma_fundamental_div_mod_converse,
    lemma_mod_division_less_than_divisor, lemma_div_pos_is_pos,
};
use vstd::arithmetic::mul::{lemma_mul_inequality, lemma_mul_nonnegative};
use crate::fixed::{SCALE, HALF_SCALE};

verus! {

/// Spacing of the normal-CDF knots: z-steps of 1/8.
pub const PHI_STEP: u64 = 125_000_000;

/// Largest tabulated z value (4.0); the table saturates beyond it.
pub const PHI_TOP_Z: u64 = 4_000_000_000;

/// Phi(4.0) in SCALE units; the saturation value of the table.
pub const PHI_TOP: u64 = 999_968_328;

/// ln 2 in SCALE units.
pub const LN2_U: u64 = 693_147_180;

/// Spacing of the logarithm knots: steps of 1/32.
pub const G_STEP: u64 = 31_250_000;

/// Knot `i` of the normal-CDF table: floor(Phi(i/8) * SCALE), clamped to the
/// table ends outside 0..=32.
pub open spec fn phi_knot(i: int) -> int {
    if i <= 0 {
        500000000
    } else if i == 1 {
        549738224
    } else if i == 2 {
        598706325
    } else if i == 3 {
        646169766
    } else if i == 4 {
        691462461
    } else if i == 5 {
        734014470
    } else if i == 6 {
        773372647
    } else if i == 7 {
        809213047
    } else if i == 8 {
        841344746
    } else if i == 9 {
        869705482
    } else if i == 10 {
        894350226
    } else if i == 11 {
        915434277
    } else if i == 12 {
        933192798
    } else if i == 13 {
        947918720
    } else if i == 14 {
        959940843
    } else if i == 15 {
        969603638
    } else if i == 16 {
        977249868
    } else if i == 17 {
        983206693
    } else if i == 18 {
        987775527
    } else if i == 19 {
        991225524
    } else if i == 20 {
        993790334
    } else if i == 21 {
        995667551
    } else if i == 22 {
        997020236
    } else if i == 23 {
        997979862
    } else if i == 24 {
        998650101
    } else if i == 25 {
        999110974
    } else if i == 26 {
        999422974
    } else if i == 27 {
        999630921
    } else if i == 28 {
        999767370
    } else if i == 29 {
        999855519
    } else if i == 30 {
        999911582
    } else if i == 31 {
        999946687
    } else {
        999968328
    }
}

/// Knot `i` of the negated-log table: floor(-ln(1 - i/32) * SCALE), clamped
/// to the table ends outside 0..=16.
pub open spec fn g_knot(i: int) -> int {
    if i <= 0 {
        0
    } else if i == 1 {
        31748698
    } else if i == 2 {
        64538521
    } else if i == 3 {
        98440072
    } else if i == 4 {
        133531392
    } else if i == 5 {
        169899036
    } else if i == 6 {
        207639364
    } else if i == 7 {
        246860077
    } else if i == 8 {
        287682072
    } else if i == 9 {
        330241686
    } else if i == 10 {
        374693449
    } else if i == 11 {
        421213465
    } else if i == 12 {
        470003629
    } else if i == 13 {
        521296923
    } else if i == 14 {
        575364144
    } else if i == 15 {
        632522558
    } else {
        693147180
    }
}

/// Executable normal-CDF knot lookup.
fn phi_knot_x(i: u64) -> (r: u64)
    ensures
        r == phi_knot(i as int),
{
    if i == 0 {
        500000000
    } else if i == 1 {
        549738224
    } else if i == 2 {
        598706325
    } else if i == 3 {
        646169766
    } else if i == 4 {
        691462461
    } else if i == 5 {
        734014470
    } else if i == 6 {
        773372647
    } else if i == 7 {
        809213047
    } else if i == 8 {
        841344746
    } else if i == 9 {
        869705482
    } else if i == 10 {
        894350226
    } else if i == 11 {
        915434277
    } else if i == 12 {
        933192798
    } else if i == 13 {
        947918720
    } else if i == 14 {
        959940843
    } else if i == 15 {
        969603638
    } else if i == 16 {
        977249868
    } else if i == 17 {
        983206693
    } else if i == 18 {
        987775527
    } else if i == 19 {
        991225524
    } else if i == 20 {
        993790334
    } else if i == 21 {
        995667551
    } else if i == 22 {
        997020236
    } else if i == 23 {
        997979862
    } else if i == 24 {
        998650101
    } else if i == 25 {
        999110974
    } else if i == 26 {
        999422974
    } else if i == 27 {
        999630921
    } else if i == 28 {
        999767370
    } else if i == 29 {
        999855519
    } else if i == 30 {
        999911582
    } else if i == 31 {
        999946687
    } else {
        999968328
    }
}

/// Executable negated-log knot lookup.
fn g_knot_x(i: u64) -> (r: u64)
    ensures
        r == g_knot(i as int),
{
    if i == 0 {
        0
    } else if i == 1 {
        31748698
    } else if i == 2 {
        64538521
    } else if i == 3 {
        98440072
    } else if i == 4 {
        133531392
    } else if i == 5 {
        169899036
    } else if i == 6 {
        207639364
    } else if i == 7 {
        246860077
    } else if i == 8 {
        287682072
    } else if i == 9 {
        330241686
    } else if i == 10 {
        374693449
    } else if i == 11 {
        421213465
    } else if i == 12 {
        470003629
    } else if i == 13 {
        521296923
    } else if i == 14 {
        575364144
    } else if i == 15 {
        632522558
    } else {
        693147180
    }
}


/// Linear interpolation between knot values `y0` and `y1`, `dz` units into a
/// segment of width `step`, with truncating division.
pub open spec fn interp(y0: int, y1: int, dz: int, step: int) -> int {
    y0 + dz * (y1 - y0) / step
}

/// The interpolated value stays between its two knots.
pub proof fn lemma_interp_range(y0: int, y1: int, dz: int, step: int)
    requires
        0 <= dz < step,
        y0 <= y1,
    ensures
        y0 <= interp(y0, y1, dz, step),
        interp(y0, y1, dz, step) <= y1,
{
    let d = y1 - y0;
    lemma_mul_nonnegative(dz, d);
    lemma_div_pos_is_pos(dz * d, step);
    lemma_mul_inequality(dz, step, d);
    lemma_div_is_ordered(dz * d, step * d, step);
    lemma_div_multiples_vanish(d, step);
}

/// Strictly below the upper knot whenever the knots differ and the gap is at
/// most one segment width.
pub proof fn lemma_interp_below_top(y0: int, y1: int, dz: int, step: int)
    requires
        0 <= dz < step,
        y0 < y1,
        y1 - y0 <= step,
    ensures
        interp(y0, y1, dz, step) < y1,
{
    let d = y1 - y0;
    lemma_mul_inequality(dz, step - 1, d);
    assert((step - 1) * d == step * (d - 1) + (step - d)) by (nonlinear_arith);
    lemma_fundamental_div_mod_converse(step * (d - 1) + (step - d), step, d - 1, step - d);
    lemma_div_is_ordered(dz * d, (step - 1) * d, step);
}

/// Monotone in the offset within one segment.
pub proof fn lemma_interp_mono(y0: int, y1: int, dz1: int, dz2: int, step: int)
    requires
        0 <= dz1 <= dz2 < step,
        y0 <= y1,
    ensures
        interp(y0, y1, dz1, step) <= interp(y0, y1, dz2, step),
{
    let d = y1 - y0;
    lemma_mul_inequality(dz1, dz2, d);
    lemma_div_is_ordered(dz1 * d, dz2 * d, step);
}

/// Adjacent normal-CDF knots are ordered, rise by less than one segment
/// width, and are strictly ordered inside the table.
pub proof fn lemma_phi_knot_adj(i: int)
    ensures
        phi_knot(i) <= phi_knot(i + 1),
        phi_knot(i + 1) - phi_knot(i) < PHI_STEP,
        0 <= i < 32 ==> phi_knot(i) < phi_knot(i + 1),
        HALF_SCALE <= phi_knot(i) <= PHI_TOP,
{
}

/// Normal-CDF knots are monotone.
pub proof fn lemma_phi_knot_mono(i: int, j: int)
    requires
        i <= j,
    ensures
        phi_knot(i) <= phi_knot(j),
    decreases j - i,
{
    if i < j {
        lemma_phi_knot_adj(i);
        lemma_phi_knot_mono(i + 1, j);
    }
}

/// Adjacent negated-log knots are ordered and rise by less than one segment
/// width.
pub proof fn lemma_g_knot_adj(i: int)
    ensures
        g_knot(i) <= g_knot(i + 1),
        g_knot(i + 1) - g_knot(i) < G_STEP * 2,
        0 <= g_knot(i) <= LN2_U,
{
}

/// The tabulated normal CDF on non-negative z (in SCALE units), saturating
/// at z = 4.
pub open spec fn phi_approx(z: int) -> int {
    if z >= PHI_TOP_Z {
        PHI_TOP as int
    } else {
        interp(
            phi_knot(z / (PHI_STEP as int)),
            phi_knot(z / (PHI_STEP as int) + 1),
            z % (PHI_STEP as int),
            PHI_STEP as int,
        )
    }
}

/// The normal CDF for a signed argument: Phi(-z) = 1 - Phi(z).
pub open spec fn phi_signed(z: int) -> int {
    if z >= 0 {
        phi_approx(z)
    } else {
        SCALE - phi_approx(-z)
    }
}

/// Range of the tabulated CDF on one segment: between its two knots.
pub proof fn lemma_phi_seg(z: int)
    requires
        0 <= z < PHI_TOP_Z,
    ensures
        0 <= z / (PHI_STEP as int) < 32,
        phi_knot(z / (PHI_STEP as int)) <= phi_approx(z),
        phi_approx(z) < phi_knot(z / (PHI_STEP as int) + 1),
{
    let step = PHI_STEP as int;
    let i = z / step;
    lemma_div_pos_is_pos(z, step);
    assert(z / step < 32) by {
        lemma_div_is_ordered(z, 32 * step - 1, step);
        assert((32 * step - 1) / step == 31) by {
            lemma_fundamental_div_mod_converse(32 * step - 1, step, 31, step - 1);
        };
    };
    lemma_fundamental_div_mod(z, step);
    lemma_mod_division_less_than_divisor(z, step);
    lemma_phi_knot_adj(i);
    lemma_interp_range(phi_knot(i), phi_knot(i + 1), z % step, step);
    lemma_interp_below_top(phi_knot(i), phi_knot(i + 1), z % step, step);
}

/// The tabulated CDF lies in [1/2, PHI_TOP] for non-negative z.
pub proof fn lemma_phi_range(z: int)
    requires
        0 <= z,
    ensures
        HALF_SCALE <= phi_approx(z) <= PHI_TOP,
{
    if z < PHI_TOP_Z {
        lemma_phi_seg(z);
        let i = z / (PHI_STEP as int);
        lemma_phi_knot_adj(i);
        lemma_phi_knot_adj(i + 1);
    }
}

/// The tabulated CDF is monotone: a larger |z| never lowers it.
pub proof fn lemma_phi_mono(z1: int, z2: int)
    requires
        0 <= z1 <= z2,
    ensures
        phi_approx(z1) <= phi_approx(z2),
{
    let step = PHI_STEP as int;
    if z1 >= PHI_TOP_Z {
    } else if z2 >= PHI_TOP_Z {
        lemma_phi_seg(z1);
        let i1 = z1 / step;
        lemma_phi_knot_mono(i1 + 1, 32);
    } else {
        lemma_phi_seg(z1);
        lemma_phi_seg(z2);
        let i1 = z1 / step;
        let i2 = z2 / step;
        lemma_div_is_ordered(z1, z2, step);
        if i1 == i2 {
            lemma_fundamental_div_mod(z1, step);
            lemma_fundamental_div_mod(z2, step);
            lemma_mod_division_less_than_divisor(z1, step);
            lemma_mod_division_less_than_divisor(z2, step);
            lemma_phi_knot_adj(i1);
            lemma_interp_mono(phi_knot(i1), phi_knot(i1 + 1), z1 % step, z2 % step, step);
        } else {
            lemma_phi_knot_mono(i1 + 1, i2);
        }
    }
}

/// The tabulated CDF rises strictly across any z gap of one knot step or
/// more, as long as the lower point is inside the tabulated range.
pub proof fn lemma_phi_strict(z1: int, z2: int)
    requires
        0 <= z1,
        z1 + PHI_STEP <= z2,
        z1 + PHI_STEP <= PHI_TOP_Z,
    ensures
        phi_approx(z1) < phi_approx(z2),
{
    let step = PHI_STEP as int;
    lemma_phi_seg(z1);
    let i1 = z1 / step;
    if z2 >= PHI_TOP_Z {
        lemma_phi_knot_mono(i1 + 1, 32);
    } else {
        lemma_phi_seg(z2);
        let i2 = z2 / step;
        lemma_div_plus_one(z1, step);
        lemma_div_is_ordered(z1 + step, z2, step);
        lemma_phi_knot_mono(i1 + 1, i2);
    }
}

/// Executable tabulated normal CDF for non-negative z.
pub fn phi_units(z: u64) -> (r: u64)
    ensures
        r == phi_approx(z as int),
        HALF_SCALE <= r <= PHI_TOP,
{
    proof {
        lemma_phi_range(z as int);
    }
    if z >= PHI_TOP_Z {
        PHI_TOP
    } else {
        let i: u64 = z / PHI_STEP;
        let dz: u64 = z % PHI_STEP;
        proof {
            lemma_phi_seg(z as int);
            lemma_phi_knot_adj(i as int);
        }
        let y0: u64 = phi_knot_x(i);
        let y1: u64 = phi_knot_x(i + 1);
        y0 + dz * (y1 - y0) / PHI_STEP
    }
}

/// Executable tabulated normal CDF for a signed z: Phi(-z) = 1 - Phi(z).
pub fn phi_cdf(z: i64) -> (r: u64)
    requires
        z > i64::MIN,
    ensures
        r == phi_signed(z as int),
        r <= SCALE,
{
    if z >= 0 {
        proof {
            lemma_phi_range(z as int);
        }
        phi_units(z as u64)
    } else {
        proof {
            lemma_phi_range(-(z as int));
        }
        let p: u64 = phi_units((-z) as u64);
        SCALE - p
    }
}

/// The negated-log table on [0, 1/2): g(x) = -ln(1 - x), saturating to ln 2
/// at x = 1/2.
pub open spec fn g_approx(x: int) -> int {
    if x >= HALF_SCALE {
        LN2_U as int
    } else {
        interp(
            g_knot(x / (G_STEP as int)),
            g_knot(x / (G_STEP as int) + 1),
            x % (G_STEP as int),
            G_STEP as int,
        )
    }
}

/// Range of the negated-log table.
pub proof fn lemma_g_range(x: int)
    requires
        0 <= x,
    ensures
        0 <= g_approx(x) <= LN2_U,
{
    let step = G_STEP as int;
    if x < HALF_SCALE {
        let i = x / step;
        lemma_div_pos_is_pos(x, step);
        assert(x / step < 16) by {
            lemma_div_is_ordered(x, 16 * step - 1, step);
            assert((16 * step - 1) / step == 15) by {
                lemma_fundamental_div_mod_converse(16 * step - 1, step, 15, step - 1);
            };
        };
        lemma_mod_division_less_than_divisor(x, step);
        lemma_g_knot_adj(i);
        lemma_g_knot_adj(i + 1);
        lemma_interp_range(g_knot(i), g_knot(i + 1), x % step, step);
    }
}

/// Executable negated-log table.
fn g_units(x: u64) -> (r: u64)
    ensures
        r == g_approx(x as int),
        r <= LN2_U,
{
    proof {
        lemma_g_range(x as int);
    }
    if x >= HALF_SCALE {
        LN2_U
    } else {
        let i: u64 = x / G_STEP;
        let dz: u64 = x % G_STEP;
        proof {
            let step = G_STEP as int;
            lemma_div_pos_is_pos(x as int, step);
            assert((x as int) / step < 16) by {
                lemma_div_is_ordered(x as int, 16 * step - 1, step);
                assert((16 * step - 1) / step == 15) by {
                    lemma_fundamental_div_mod_converse(16 * step - 1, step, 15, step - 1);
                };
            };
            lemma_mod_division_less_than_divisor(x as int, step);
            lemma_g_knot_adj(i as int);
        }
        let y0: u64 = g_knot_x(i);
        let y1: u64 = g_knot_x(i + 1);
        y0 + dz * (y1 - y0) / G_STEP
    }
}

/// -ln(b / SCALE) for a fixed-point b in (0, 1): repeatedly double b up to
/// [1/2, 1), summing ln 2 for each doubling, then read the table.
pub open spec fn neg_ln_approx(b: int) -> int
    decreases 2 * HALF_SCALE - b,
{
    if b < 1 {
        0
    } else if b >= HALF_SCALE {
        g_approx(SCALE - b)
    } else {
        LN2_U + neg_ln_approx(2 * b)
    }
}

/// Executable -ln(b / SCALE) for b in [1, SCALE).
pub fn neg_ln(b: u64) -> (r: u64)
    requires
        1 <= b < SCALE,
    ensures
        r == neg_ln_approx(b as int),
        r <= 30 * LN2_U,
{
    let mut bb: u64 = b;
    let mut acc: u64 = 0;
    let ghost mut k: nat = 0;
    proof {
        vstd::arithmetic::power2::lemma2_to64();
    }
    while bb < HALF_SCALE
        invariant
            1 <= bb < SCALE,
            acc == k * LN2_U,
            0 <= k <= 29,
            vstd::arithmetic::power2::pow2(k) <= bb,
            neg_ln_approx(b as int) == acc + neg_ln_approx(bb as int),
        decreases SCALE - bb,
    {
        proof {
            vstd::arithmetic::power2::lemma2_to64();
            assert(k < 29) by {
                if k == 29 {
                    assert(vstd::arithmetic::power2::pow2(29) == 0x20000000);
                }
            };
            vstd::arithmetic::power2::lemma_pow2_unfold(k + 1);
        }
        bb = bb * 2;
        acc = acc + LN2_U;
        proof {
            k = k + 1;
        }
    }
    let gx: u64 = g_units(SCALE - bb);
    acc + gx
}


} // verus!
