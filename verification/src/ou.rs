//! Ornstein-Uhlenbeck mean-reversion engine.
//!
//! A rolling price window is re-fitted on every push once full, by ordinary
//! least squares of `price_t` on `price_{t-1}` (an AR(1) regression).  The
//! fit is accepted only when the slope lies strictly in (0, 1); it yields
//! the equilibrium level, the diffusion scale, the reversion speed and the
//! half-life.  The Z-score of a price standardises its deviation from the
//! equilibrium, and the continuation probability `1 - Phi(|Z|)` drives the
//! exit gate.
//!
//! The regression runs on prices coarsened to [`REG_DIV`]-unit resolution so
//! that all intermediate sums fit in 128-bit integers.

use vstd::prelude::*;
use vstd::arithmetic::div_mod::{
    lemma_div_is_ordered, lemma_div_by_multiple, lemma_div_pos_is_pos,
    lemma_div_is_ordered_by_denominator, lemma_fundamental_div_mod_converse,
};
use crate::fixed::{SCALE, PRICE_CAP, div_t, clip, sqrt_floor, mdu, isqrt_u128};
use crate::tables::{neg_ln_approx, neg_ln, phi_approx, phi_units, LN2_U};

verus! {

/// Divisor taking a SCALE-unit price to regression resolution.
pub const REG_DIV: u64 = 1000;

/// Largest regression-resolution price value.
pub const X_CAP: u64 = 1_000_000_000_000;

/// Largest accepted estimation window.
pub const OU_WINDOW_CAP: usize = 10_000;

/// Fewest prices from which a fit is attempted.
pub const OU_MIN_FIT: usize = 10;

/// Cap on the stored diffusion scale, in SCALE units.
pub const SIGMA_OU_CAP: u64 = 1_000_000_000_000_000_000;

/// Cap on the magnitude of a Z-score, in SCALE units (one hundred sigma).
pub const Z_CAP: u64 = 100_000_000_000;

/// Price `i` of the window at regression resolution.
pub open spec fn xval(p: Seq<u64>, i: int) -> int {
    p[i] as int / (REG_DIV as int)
}

/// Sum of the regressor prices `x_0 .. x_{k-1}`.
pub open spec fn sum_x(p: Seq<u64>, k: int) -> int
    decreases k,
{
    if k <= 0 {
        0
    } else {
        sum_x(p, k - 1) + xval(p, k - 1)
    }
}

/// Sum of the response prices `y_0 .. y_{k-1}` (each one bar later).
pub open spec fn sum_y(p: Seq<u64>, k: int) -> int
    decreases k,
{
    if k <= 0 {
        0
    } else {
        sum_y(p, k - 1) + xval(p, k)
    }
}

/// Sum of centred cross products `(x_i - mx) * (y_i - my)`.
pub open spec fn sum_prod_dev(p: Seq<u64>, mx: int, my: int, k: int) -> int
    decreases k,
{
    if k <= 0 {
        0
    } else {
        sum_prod_dev(p, mx, my, k - 1) + (xval(p, k - 1) - mx) * (xval(p, k) - my)
    }
}

/// Sum of squared regressor deviations `(x_i - mx)^2`.
pub open spec fn sum_sq_dev(p: Seq<u64>, mx: int, k: int) -> int
    decreases k,
{
    if k <= 0 {
        0
    } else {
        sum_sq_dev(p, mx, k - 1) + (xval(p, k - 1) - mx) * (xval(p, k - 1) - mx)
    }
}

/// Residual of pair `i` under intercept `a` and slope `b`:
/// `y_i - a - b * x_i`.
pub open spec fn resid(p: Seq<u64>, a: int, b: int, i: int) -> int {
    xval(p, i + 1) - a - b * xval(p, i) / (SCALE as int)
}

/// Sum of the first `k` residuals.
pub open spec fn sum_resid(p: Seq<u64>, a: int, b: int, k: int) -> int
    decreases k,
{
    if k <= 0 {
        0
    } else {
        sum_resid(p, a, b, k - 1) + resid(p, a, b, k - 1)
    }
}

/// Sum of squared centred residuals `(r_i - rm)^2`.
pub open spec fn sum_resid_sq_dev(p: Seq<u64>, a: int, b: int, rm: int, k: int) -> int
    decreases k,
{
    if k <= 0 {
        0
    } else {
        sum_resid_sq_dev(p, a, b, rm, k - 1) + (resid(p, a, b, k - 1) - rm) * (resid(
            p,
            a,
            b,
            k - 1,
        ) - rm)
    }
}

/// Fitted OU parameters.  `mu` and `sigma_ou` are in SCALE units; `b`,
/// `theta` and `half_life` are dimensionless fixed-point values.
#[derive(Debug, Clone)]
pub struct OuParams {
    /// Long-run equilibrium price level.
    pub mu: i64,
    /// Diffusion scale of the process.
    pub sigma_ou: u64,
    /// Mean-reversion speed per bar: `-ln(b)`.
    pub theta: u64,
    /// AR(1) slope, strictly in (0, 1).
    pub b: u64,
    /// Half-life in bars: `ln 2 / theta`.
    pub half_life: u64,
}

impl OuParams {
    /// Range invariant of an accepted fit.
    pub open spec fn wf(self) -> bool {
        &&& 1 <= self.b < SCALE
        &&& 1 <= self.theta <= 30 * LN2_U
        &&& self.sigma_ou <= SIGMA_OU_CAP
        &&& -(PRICE_CAP as int) <= self.mu <= PRICE_CAP
        &&& self.half_life <= LN2_U * SCALE
    }
}

/// The whole fit as a function of the price window.  `None` when the window
/// is too short, the regressor is degenerate, the slope falls outside
/// (0, 1) at fixed-point resolution, or the reversion speed rounds to zero.
pub open spec fn ou_fit(p: Seq<u64>) -> Option<OuParams> {
    let n = p.len() as int;
    let m = n - 1;
    if n < OU_MIN_FIT {
        None
    } else {
        let mx = sum_x(p, m) / m;
        let my = sum_y(p, m) / m;
        let num = sum_prod_dev(p, mx, my, m);
        let den = sum_sq_dev(p, mx, m);
        if den == 0 {
            None
        } else if num < 1 || num >= den {
            None
        } else {
            let b = num * SCALE / den;
            if b < 1 {
                None
            } else {
                let theta = neg_ln_approx(b);
                if theta < 1 {
                    None
                } else {
                    let a = my - b * mx / (SCALE as int);
                    let mu = clip(
                        div_t(a * SCALE, SCALE - b) * REG_DIV,
                        -(PRICE_CAP as int),
                        PRICE_CAP as int,
                    );
                    let rm = div_t(sum_resid(p, a, b, m), m);
                    let var = sum_resid_sq_dev(p, a, b, rm, m) / (m - 1);
                    let sigma_eps = sqrt_floor(var as nat);
                    let d = SCALE - b * b / (SCALE as int);
                    let den_sigma = sqrt_floor((d * SCALE) as nat);
                    let sigma_ou = clip(
                        (sigma_eps as int) * SCALE / (den_sigma as int) * REG_DIV,
                        0,
                        SIGMA_OU_CAP as int,
                    );
                    let half_life = LN2_U * SCALE / theta;
                    Some(
                        OuParams {
                            mu: mu as i64,
                            sigma_ou: sigma_ou as u64,
                            theta: theta as u64,
                            b: b as u64,
                            half_life: half_life as u64,
                        },
                    )
                }
            }
        }
    }
}

/// Every window price is representable.
pub open spec fn prices_wf(p: Seq<u64>) -> bool {
    forall|i: int| 0 <= i < p.len() ==> #[trigger] p[i] <= PRICE_CAP
}

/// Coarsened prices are non-negative and bounded by [`X_CAP`].
proof fn lemma_xval_bounds(p: Seq<u64>, i: int)
    requires
        prices_wf(p),
        0 <= i < p.len(),
    ensures
        0 <= xval(p, i) <= X_CAP,
{
    lemma_div_pos_is_pos(p[i] as int, REG_DIV as int);
    lemma_div_is_ordered(p[i] as int, PRICE_CAP as int, REG_DIV as int);
}

/// Prefix sums of coarsened prices are bounded by `k * X_CAP`.
proof fn lemma_sum_x_bounds(p: Seq<u64>, k: int)
    requires
        prices_wf(p),
        0 <= k < p.len(),
    ensures
        0 <= sum_x(p, k) <= k * X_CAP,
        0 <= sum_y(p, k) <= k * X_CAP,
    decreases k,
{
    if k > 0 {
        lemma_sum_x_bounds(p, k - 1);
        lemma_xval_bounds(p, k - 1);
        lemma_xval_bounds(p, k);
        assert((k - 1) * X_CAP + X_CAP == k * X_CAP) by (nonlinear_arith);
    } else {
        assert(0int * X_CAP as int == 0) by (nonlinear_arith);
    }
}

impl OuParams {
    /// Estimate OU parameters from a price window by OLS on AR(1).
    /// Returns `None` exactly when [`ou_fit`] rejects the window.
    pub fn estimate(prices: &Vec<u64>) -> (r: Option<OuParams>)
        requires
            prices_wf(prices@),
            prices@.len() <= OU_WINDOW_CAP,
        ensures
            r == ou_fit(prices@),
            r is Some ==> r->0.wf(),
    {
        let n: usize = prices.len();
        if n < OU_MIN_FIT {
            return None;
        }
        let m: usize = n - 1;
        let ghost ps = prices@;

        // Sums of the regressor (x) and response (y) series.
        let mut sx: u64 = 0;
        let mut sy: u64 = 0;
        let mut i: usize = 0;
        while i < m
            invariant
                prices_wf(ps),
                ps == prices@,
                OU_MIN_FIT <= n == ps.len() <= OU_WINDOW_CAP,
                m == n - 1,
                i <= m,
                sx == sum_x(ps, i as int),
                sy == sum_y(ps, i as int),
                sx <= i * X_CAP,
                sy <= i * X_CAP,
            decreases m - i,
        {
            proof {
                lemma_xval_bounds(ps, i as int);
                lemma_xval_bounds(ps, i as int + 1);
                assert(i * X_CAP + X_CAP == (i + 1) * X_CAP) by (nonlinear_arith);
            }
            sx = sx + prices[i] / REG_DIV;
            sy = sy + prices[i + 1] / REG_DIV;
            i = i + 1;
        }
        let mx: u64 = sx / (m as u64);
        let my: u64 = sy / (m as u64);
        proof {
            lemma_div_is_ordered(sx as int, m as int * X_CAP, m as int);
            assert(m as int * X_CAP == X_CAP as int * m) by (nonlinear_arith);
            lemma_div_by_multiple(X_CAP as int, m as int);
            lemma_div_is_ordered(sy as int, m as int * X_CAP, m as int);
        }

        // Centred second moments.
        let mut num: i128 = 0;
        let mut den: i128 = 0;
        let mut j: usize = 0;
        while j < m
            invariant
                prices_wf(ps),
                ps == prices@,
                OU_MIN_FIT <= n == ps.len() <= OU_WINDOW_CAP,
                m == n - 1,
                j <= m,
                mx <= X_CAP,
                my <= X_CAP,
                mx == sum_x(ps, m as int) / (m as int),
                my == sum_y(ps, m as int) / (m as int),
                num == sum_prod_dev(ps, mx as int, my as int, j as int),
                den == sum_sq_dev(ps, mx as int, j as int),
                -(j as int) * 4_000_000_000_000_000_000_000_000 <= num <= j as int
                    * 4_000_000_000_000_000_000_000_000,
                0 <= den <= j as int * 4_000_000_000_000_000_000_000_000,
            decreases m - j,
        {
            proof {
                lemma_xval_bounds(ps, j as int);
                lemma_xval_bounds(ps, j as int + 1);
            }
            let xj: u64 = prices[j] / REG_DIV;
            let yj: u64 = prices[j + 1] / REG_DIV;
            let dx: i64 = (xj as i64) - (mx as i64);
            let dy: i64 = (yj as i64) - (my as i64);
            proof {
                assert(-4_000_000_000_000_000_000_000_000 <= dx as int * dy as int
                    <= 4_000_000_000_000_000_000_000_000) by (nonlinear_arith)
                    requires
                        -(X_CAP as int) <= dx <= X_CAP,
                        -(X_CAP as int) <= dy <= X_CAP,
                ;
                assert(0 <= dx as int * dx as int <= 4_000_000_000_000_000_000_000_000) by (
                nonlinear_arith)
                    requires
                        -(X_CAP as int) <= dx <= X_CAP,
                ;
                assert((j as int) * 4_000_000_000_000_000_000_000_000
                    + 4_000_000_000_000_000_000_000_000 == (j as int + 1)
                    * 4_000_000_000_000_000_000_000_000) by (nonlinear_arith);
            }
            num = num + (dx as i128) * (dy as i128);
            den = den + (dx as i128) * (dx as i128);
            j = j + 1;
        }

        if den == 0 {
            return None;
        }
        if num < 1 || num >= den {
            return None;
        }
        // Slope in (0, 1) at SCALE resolution.
        proof {
            assert(num * SCALE <= den * SCALE <= i128::MAX) by (nonlinear_arith)
                requires
                    0 < num <= den <= 40_000_000_000_000_000_000_000_000_000,
            ;
            lemma_div_pos_is_pos(num as int * SCALE as int, den as int);
            assert(num as int * SCALE as int <= den as int * SCALE as int) by (nonlinear_arith)
                requires
                    num <= den,
                    SCALE > 0,
            ;
            lemma_div_is_ordered(num as int * SCALE as int, den as int * SCALE as int, den as int);
            lemma_div_by_multiple(SCALE as int, den as int);
            assert(den as int * SCALE as int == SCALE as int * den as int) by (nonlinear_arith);
            // b < SCALE because num < den.
            assert((num as int * SCALE as int) < den as int * SCALE as int) by (nonlinear_arith)
                requires
                    num < den,
                    SCALE > 0,
            ;
            vstd::arithmetic::div_mod::lemma_multiply_divide_lt(
                num as int * SCALE as int,
                den as int,
                SCALE as int,
            );
        }
        let b128: i128 = num * (SCALE as i128) / den;
        let b: u64 = b128 as u64;
        if b == 0 {
            return None;
        }
        let theta: u64 = neg_ln(b);
        if theta == 0 {
            return None;
        }

        // Intercept and equilibrium.
        proof {
            assert(b as int * mx as int <= SCALE as int * X_CAP as int) by (nonlinear_arith)
                requires
                    0 <= b < SCALE,
                    0 <= mx <= X_CAP,
            ;
            lemma_div_is_ordered(
                b as int * mx as int,
                SCALE as int * X_CAP as int,
                SCALE as int,
            );
            assert(SCALE as int * X_CAP as int == X_CAP as int * SCALE as int) by (nonlinear_arith);
            lemma_div_by_multiple(X_CAP as int, SCALE as int);
            lemma_div_pos_is_pos(b as int * mx as int, SCALE as int);
        }
        let bmx: u64 = mdu(b, mx, SCALE);
        let a: i64 = (my as i64) - (bmx as i64);
        let am: u64 = if a < 0 {
            (-a) as u64
        } else {
            a as u64
        };
        let mu_mag: u128 = (am as u128) * (SCALE as u128) / ((SCALE - b) as u128);
        proof {
            lemma_div_is_ordered_by_denominator(
                am as int * SCALE as int,
                1,
                SCALE as int - b as int,
            );
            assert(am as int * SCALE as int <= 2_000_000_000_000 * 1_000_000_000) by (
            nonlinear_arith)
                requires
                    0 <= am <= 2_000_000_000_000,
            ;
        }
        let mu_mag_full: u128 = mu_mag * (REG_DIV as u128);
        let mu: i64 = if a < 0 {
            if mu_mag_full > (PRICE_CAP as u128) {
                -(PRICE_CAP as i64)
            } else {
                -((mu_mag_full as u64) as i64)
            }
        } else {
            if mu_mag_full > (PRICE_CAP as u128) {
                PRICE_CAP as i64
            } else {
                (mu_mag_full as u64) as i64
            }
        };
        proof {
            let ai = a as int;
            let s = SCALE as int;
            let denom = s - b as int;
            assert(ai * s == if ai >= 0 {
                am as int * s
            } else {
                -(am as int * s)
            }) by (nonlinear_arith)
                requires
                    ai == a as int,
                    am == if a < 0 { -(a as int) } else { a as int },
            ;
            assert(mu == clip(
                div_t(ai * s, denom) * REG_DIV,
                -(PRICE_CAP as int),
                PRICE_CAP as int,
            )) by (nonlinear_arith)
                requires
                    mu_mag == (am as int * s) / denom,
                    mu_mag_full == mu_mag * REG_DIV,
                    am as int * s == if ai >= 0 { ai * s } else { -(ai * s) },
                    mu_mag >= 0,
                    denom > 0,
                    REG_DIV > 0,
                    div_t(ai * s, denom) == if ai * s >= 0 {
                        (ai * s) / denom
                    } else {
                        -((-(ai * s)) / denom)
                    },
                    mu == if ai < 0 {
                        if mu_mag_full > PRICE_CAP {
                            -(PRICE_CAP as int)
                        } else {
                            -(mu_mag_full as int)
                        }
                    } else {
                        if mu_mag_full > PRICE_CAP {
                            PRICE_CAP as int
                        } else {
                            mu_mag_full as int
                        }
                    },
                    ai < 0 <==> a < 0,
            ;
        }

        // Residual moments.
        let mut sr: i64 = 0;
        let mut k: usize = 0;
        while k < m
            invariant
                prices_wf(ps),
                ps == prices@,
                OU_MIN_FIT <= n == ps.len() <= OU_WINDOW_CAP,
                m == n - 1,
                k <= m,
                mx <= X_CAP,
                my <= X_CAP,
                0 <= b < SCALE,
                a == my - b as int * mx as int / (SCALE as int),
                -2_000_000_000_000 <= a <= 2_000_000_000_000,
                sr == sum_resid(ps, a as int, b as int, k as int),
                -(k as int) * 4_000_000_000_000 <= sr <= (k as int) * 4_000_000_000_000,
            decreases m - k,
        {
            proof {
                lemma_xval_bounds(ps, k as int);
                lemma_xval_bounds(ps, k as int + 1);
                assert(b as int * (ps[k as int] as int / (REG_DIV as int)) <= SCALE as int
                    * X_CAP as int) by (nonlinear_arith)
                    requires
                        0 <= b < SCALE,
                        0 <= ps[k as int] as int / (REG_DIV as int) <= X_CAP,
                ;
                lemma_div_is_ordered(
                    b as int * (ps[k as int] as int / (REG_DIV as int)),
                    SCALE as int * X_CAP as int,
                    SCALE as int,
                );
                assert(SCALE as int * X_CAP as int == X_CAP as int * SCALE as int) by (
                nonlinear_arith);
                lemma_div_by_multiple(X_CAP as int, SCALE as int);
                lemma_div_pos_is_pos(
                    b as int * (ps[k as int] as int / (REG_DIV as int)),
                    SCALE as int,
                );
                assert((k as int) * 4_000_000_000_000 + 4_000_000_000_000 == (k as int + 1)
                    * 4_000_000_000_000) by (nonlinear_arith);
            }
            let xk: u64 = prices[k] / REG_DIV;
            let yk: u64 = prices[k + 1] / REG_DIV;
            let bxk: u64 = mdu(b, xk, SCALE);
            let rk: i64 = (yk as i64) - a - (bxk as i64);
            sr = sr + rk;
            k = k + 1;
        }
        let rm: i64 = if sr < 0 {
            -((((-sr) as u64) / (m as u64)) as i64)
        } else {
            (((sr as u64) / (m as u64)) as i64)
        };
        proof {
            assert(rm == div_t(sum_resid(ps, a as int, b as int, m as int), m as int));
            lemma_div_is_ordered(
                if sr >= 0 { sr as int } else { -(sr as int) },
                (m as int) * 4_000_000_000_000,
                m as int,
            );
            assert((m as int) * 4_000_000_000_000 == 4_000_000_000_000 * (m as int)) by (
            nonlinear_arith);
            lemma_div_by_multiple(4_000_000_000_000, m as int);
            lemma_div_pos_is_pos(if sr >= 0 { sr as int } else { -(sr as int) }, m as int);
        }

        let mut ssq: i128 = 0;
        let mut t: usize = 0;
        while t < m
            invariant
                prices_wf(ps),
                ps == prices@,
                OU_MIN_FIT <= n == ps.len() <= OU_WINDOW_CAP,
                m == n - 1,
                t <= m,
                mx <= X_CAP,
                my <= X_CAP,
                0 <= b < SCALE,
                a == my - b as int * mx as int / (SCALE as int),
                -2_000_000_000_000 <= a <= 2_000_000_000_000,
                -4_000_000_000_000 <= rm <= 4_000_000_000_000,
                ssq == sum_resid_sq_dev(ps, a as int, b as int, rm as int, t as int),
                0 <= ssq <= (t as int) * 64_000_000_000_000_000_000_000_000,
            decreases m - t,
        {
            proof {
                lemma_xval_bounds(ps, t as int);
                lemma_xval_bounds(ps, t as int + 1);
                assert(b as int * (ps[t as int] as int / (REG_DIV as int)) <= SCALE as int
                    * X_CAP as int) by (nonlinear_arith)
                    requires
                        0 <= b < SCALE,
                        0 <= ps[t as int] as int / (REG_DIV as int) <= X_CAP,
                ;
                lemma_div_is_ordered(
                    b as int * (ps[t as int] as int / (REG_DIV as int)),
                    SCALE as int * X_CAP as int,
                    SCALE as int,
                );
                assert(SCALE as int * X_CAP as int == X_CAP as int * SCALE as int) by (
                nonlinear_arith);
                lemma_div_by_multiple(X_CAP as int, SCALE as int);
                lemma_div_pos_is_pos(
                    b as int * (ps[t as int] as int / (REG_DIV as int)),
                    SCALE as int,
                );
            }
            let xt: u64 = prices[t] / REG_DIV;
            let yt: u64 = prices[t + 1] / REG_DIV;
            let bxt: u64 = mdu(b, xt, SCALE);
            let rt: i64 = (yt as i64) - a - (bxt as i64);
            let dt: i64 = rt - rm;
            proof {
                assert(0 <= dt as int * dt as int <= 64_000_000_000_000_000_000_000_000) by (
                nonlinear_arith)
                    requires
                        -8_000_000_000_000 <= dt <= 8_000_000_000_000,
                ;
                assert((t as int) * 64_000_000_000_000_000_000_000_000
                    + 64_000_000_000_000_000_000_000_000 == (t as int + 1)
                    * 64_000_000_000_000_000_000_000_000) by (nonlinear_arith);
            }
            ssq = ssq + (dt as i128) * (dt as i128);
            t = t + 1;
        }
        let var: i128 = ssq / ((m - 1) as i128);
        proof {
            lemma_div_pos_is_pos(ssq as int, m as int - 1);
            lemma_div_is_ordered(
                ssq as int,
                (m as int) * 64_000_000_000_000_000_000_000_000,
                m as int - 1,
            );
        }
        let sigma_eps: u64 = isqrt_u128(var as u128);
        proof {
            assert(b as int * b as int <= (SCALE as int - 1) * (SCALE as int - 1)) by (
            nonlinear_arith)
                requires
                    0 <= b < SCALE,
            ;
            lemma_div_is_ordered(
                b as int * b as int,
                (SCALE as int - 1) * (SCALE as int - 1),
                SCALE as int,
            );
            assert((SCALE as int - 1) * (SCALE as int - 1) == SCALE as int * (SCALE as int - 2)
                + 1) by (nonlinear_arith);
            lemma_fundamental_div_mod_converse(
                SCALE as int * (SCALE as int - 2) + 1,
                SCALE as int,
                SCALE as int - 2,
                1,
            );
            lemma_div_pos_is_pos(b as int * b as int, SCALE as int);
        }
        let bb: u64 = mdu(b, b, SCALE);
        let d: u64 = SCALE - bb;
        proof {
            assert(d as int * SCALE as int >= SCALE as int) by (nonlinear_arith)
                requires
                    d >= 1,
            ;
        }
        let den_sigma: u64 = isqrt_u128((d as u128) * (SCALE as u128));
        proof {
            assert(den_sigma >= 1) by {
                if den_sigma == 0 {
                    assert((den_sigma as int + 1) * (den_sigma as int + 1) == 1) by (
                    nonlinear_arith)
                        requires
                            den_sigma == 0,
                    ;
                }
            };
        }
        let sig_t: u128 = (sigma_eps as u128) * (SCALE as u128) / (den_sigma as u128);
        let sig_full: u128 = sig_t * (REG_DIV as u128);
        let sigma_ou: u64 = if sig_full > (SIGMA_OU_CAP as u128) {
            SIGMA_OU_CAP
        } else {
            sig_full as u64
        };
        proof {
            assert(sigma_eps as int * SCALE as int <= u128::MAX) by (nonlinear_arith)
                requires
                    sigma_eps <= u64::MAX,
            ;
            lemma_div_is_ordered_by_denominator(
                sigma_eps as int * SCALE as int,
                1,
                den_sigma as int,
            );
            assert(sig_t * REG_DIV <= u128::MAX) by (nonlinear_arith)
                requires
                    sig_t <= 18_446_744_073_709_551_615_000_000_000,
            ;
            assert(sigma_ou == clip(
                sqrt_floor(var as nat) as int * SCALE / (den_sigma as int) * REG_DIV,
                0,
                SIGMA_OU_CAP as int,
            ));
        }
        proof {
            lemma_div_is_ordered_by_denominator(LN2_U as int * SCALE as int, 1, theta as int);
        }
        let half_life: u64 = mdu(LN2_U, SCALE, theta);
        Some(OuParams { mu, sigma_ou, theta, b, half_life })
    }
}

/// Z-score of a price under fitted parameters: the standardised deviation
/// `(price - mu) / sigma_ou`, clamped to [-Z_CAP, Z_CAP]; zero when the
/// diffusion scale is degenerate; undefined without a fit.
pub open spec fn z_of(params: Option<OuParams>, price: int) -> Option<i64> {
    match params {
        Option::None => None,
        Option::Some(q) => Some(
            (if q.sigma_ou == 0 {
                0int
            } else {
                clip(
                    div_t((price - q.mu) * SCALE, q.sigma_ou as int),
                    -(Z_CAP as int),
                    Z_CAP as int,
                )
            }) as i64,
        ),
    }
}

/// Continuation probability `1 - Phi(|Z|)`: the probability the price moves
/// further from equilibrium; undefined without a fit.
pub open spec fn p_cont_of(params: Option<OuParams>, price: int) -> Option<u64> {
    match z_of(params, price) {
        Option::None => None,
        Option::Some(z) => Some(
            (SCALE - phi_approx(
                if z >= 0 {
                    z as int
                } else {
                    -(z as int)
                },
            )) as u64,
        ),
    }
}

/// Directional entry signal: +1 when Z is below `-entry_z` (price far below
/// equilibrium, expect reversion up), -1 when above `entry_z`, else 0.
pub open spec fn signal_of(params: Option<OuParams>, price: int, entry_z: int) -> int {
    match z_of(params, price) {
        Option::None => 0,
        Option::Some(z) => if z < -entry_z {
            1int
        } else if z > entry_z {
            -1int
        } else {
            0int
        },
    }
}

/// Exit test: the Z-score has reverted inside the exit band, or the
/// continuation probability has fallen below the threshold.
pub open spec fn should_exit_of(
    params: Option<OuParams>,
    price: int,
    exit_z: int,
    prob_threshold: int,
) -> bool {
    let z_ok = match z_of(params, price) {
        Option::None => false,
        Option::Some(z) => -exit_z < z < exit_z,
    };
    let prob_ok = match p_cont_of(params, price) {
        Option::None => false,
        Option::Some(pc) => pc < prob_threshold,
    };
    z_ok || prob_ok
}

/// Real-time OU signal engine over a rolling price window.
#[derive(Debug, Clone)]
pub struct OuSignalEngine {
    /// Estimation window length in bars.
    pub window: usize,
    /// Rolling price buffer, oldest first.
    pub price_buf: Vec<u64>,
    /// Most recently fitted parameters, if any fit was accepted.
    pub params: Option<OuParams>,
}

impl OuSignalEngine {
    /// Structural invariant.
    pub open spec fn wf(self) -> bool {
        &&& 1 <= self.window <= OU_WINDOW_CAP
        &&& self.price_buf@.len() <= self.window
        &&& prices_wf(self.price_buf@)
        &&& match self.params {
            Option::Some(q) => q.wf(),
            Option::None => true,
        }
    }

    /// A fresh engine with an empty window and no fit.
    pub fn new(window: usize) -> (r: OuSignalEngine)
        requires
            1 <= window <= OU_WINDOW_CAP,
        ensures
            r.wf(),
            r.window == window,
            r.price_buf@.len() == 0,
            r.params is None,
    {
        OuSignalEngine { window, price_buf: Vec::new(), params: None }
    }

    /// Z-score of a price under the current fit.
    pub fn z_score(&self, price: u64) -> (r: Option<i64>)
        requires
            self.wf(),
            price <= PRICE_CAP,
        ensures
            r == z_of(self.params, price as int),
            r is Some ==> -(Z_CAP as int) <= r->0 <= Z_CAP,
    {
        match &self.params {
            None => None,
            Some(q) => {
                if q.sigma_ou == 0 {
                    Some(0)
                } else {
                    let diff: i64 = (price as i64) - q.mu;
                    let neg: bool = diff < 0;
                    let dm: u64 = if diff < 0 {
                        (-diff) as u64
                    } else {
                        diff as u64
                    };
                    let zm: u128 = (dm as u128) * (SCALE as u128) / (q.sigma_ou as u128);
                    let zc: u64 = if zm > (Z_CAP as u128) {
                        Z_CAP
                    } else {
                        zm as u64
                    };
                    let z: i64 = if neg {
                        -(zc as i64)
                    } else {
                        zc as i64
                    };
                    proof {
                        let di = diff as int;
                        let s = SCALE as int;
                        let so = q.sigma_ou as int;
                        assert(dm as int * s == if di >= 0 {
                            di * s
                        } else {
                            -(di * s)
                        }) by (nonlinear_arith)
                            requires
                                dm == if diff < 0 { -(diff as int) } else { diff as int },
                                di == diff as int,
                                s > 0,
                        ;
                        lemma_div_pos_is_pos(dm as int * s, so);
                        assert(z == clip(div_t(di * s, so), -(Z_CAP as int), Z_CAP as int)) by (
                        nonlinear_arith)
                            requires
                                zm == (dm as int * s) / so,
                                dm as int * s == if di >= 0 { di * s } else { -(di * s) },
                                zm >= 0,
                                div_t(di * s, so) == if di * s >= 0 {
                                    (di * s) / so
                                } else {
                                    -((-(di * s)) / so)
                                },
                                zc == if zm > Z_CAP { Z_CAP as int } else { zm as int },
                                z == if neg { -(zc as int) } else { zc as int },
                                neg <==> di < 0,
                                so > 0,
                        ;
                    }
                    Some(z)
                }
            },
        }
    }

    /// Probability that the price keeps moving away from equilibrium:
    /// `1 - Phi(|Z|)`.  Always at most one half.
    pub fn p_continuation(&self, price: u64) -> (r: Option<u64>)
        requires
            self.wf(),
            price <= PRICE_CAP,
        ensures
            r == p_cont_of(self.params, price as int),
            r is Some ==> r->0 <= crate::fixed::HALF_SCALE,
    {
        match self.z_score(price) {
            None => None,
            Some(z) => {
                let az: u64 = if z < 0 {
                    (-z) as u64
                } else {
                    z as u64
                };
                let p: u64 = phi_units(az);
                Some(SCALE - p)
            },
        }
    }

    /// Directional entry signal from the Z-score thresholds.
    pub fn signal(&self, price: u64, entry_z: u64) -> (r: i8)
        requires
            self.wf(),
            price <= PRICE_CAP,
            entry_z <= Z_CAP,
        ensures
            r == signal_of(self.params, price as int, entry_z as int),
    {
        match self.z_score(price) {
            None => 0,
            Some(z) => {
                if z < -(entry_z as i64) {
                    1
                } else if z > entry_z as i64 {
                    -1
                } else {
                    0
                }
            },
        }
    }

    /// Whether an open position should be closed: the Z-score has reverted
    /// inside the exit band, or continuation has become improbable.
    pub fn should_exit(&self, price: u64, exit_z: u64, prob_threshold: u64) -> (r: bool)
        requires
            self.wf(),
            price <= PRICE_CAP,
            exit_z <= Z_CAP,
            prob_threshold <= SCALE,
        ensures
            r == should_exit_of(self.params, price as int, exit_z as int, prob_threshold as int),
    {
        let z_ok: bool = match self.z_score(price) {
            None => false,
            Some(z) => -(exit_z as i64) < z && z < exit_z as i64,
        };
        let prob_ok: bool = match self.p_continuation(price) {
            None => false,
            Some(pc) => pc < prob_threshold,
        };
        z_ok || prob_ok
    }

    /// Z-score of the last pushed price, without modifying state.
    pub fn last_z(&self) -> (r: Option<i64>)
        requires
            self.wf(),
        ensures
            r == if self.price_buf@.len() == 0 {
                Option::<i64>::None
            } else {
                z_of(self.params, self.price_buf@.last() as int)
            },
    {
        if self.price_buf.len() == 0 {
            None
        } else {
            let last_price: u64 = self.price_buf[self.price_buf.len() - 1];
            self.z_score(last_price)
        }
    }

    /// Push a new price: append to the window (dropping the oldest price
    /// once full), re-fit when the window is exactly full, and return the
    /// current Z-score.
    pub fn push(&mut self, price: u64) -> (r: Option<i64>)
        requires
            old(self).wf(),
            price <= PRICE_CAP,
        ensures
            final(self).wf(),
            final(self).window == old(self).window,
            ({
                let s1 = old(self).price_buf@.push(price);
                final(self).price_buf@ == if s1.len() > old(self).window {
                    s1.subrange(1, s1.len() as int)
                } else {
                    s1
                }
            }),
            final(self).params == if final(self).price_buf@.len() == final(self).window {
                ou_fit(final(self).price_buf@)
            } else {
                old(self).params
            },
            r == z_of(final(self).params, price as int),
    {
        self.price_buf.push(price);
        if self.price_buf.len() > self.window {
            proof {
                assert(self.price_buf@.remove(0) =~= self.price_buf@.subrange(
                    1,
                    self.price_buf@.len() as int,
                ));
            }
            let _oldest: u64 = self.price_buf.remove(0);
        }
        if self.price_buf.len() == self.window {
            self.params = OuParams::estimate(&self.price_buf);
        }
        self.z_score(price)
    }
}

/// The continuation probability `1 - Phi(z)` never rises with the distance
/// from equilibrium.
pub proof fn lemma_p_continuation_monotone(z1: int, z2: int)
    requires
        0 <= z1 <= z2,
    ensures
        SCALE - phi_approx(z1) >= SCALE - phi_approx(z2),
{
    crate::tables::lemma_phi_mono(z1, z2);
}

/// The continuation probability falls strictly over any distance gap of at
/// least one CDF knot step inside the tabulated range.
pub proof fn lemma_p_continuation_strictly_decreasing(z1: int, z2: int)
    requires
        0 <= z1,
        z1 + crate::tables::PHI_STEP <= z2,
        z1 + crate::tables::PHI_STEP <= crate::tables::PHI_TOP_Z,
    ensures
        SCALE - phi_approx(z1) > SCALE - phi_approx(z2),
{
    crate::tables::lemma_phi_strict(z1, z2);
}

/// One sigma or more from equilibrium, continuation is less likely than
/// not: `1 - Phi(z) < 1/2`.
pub proof fn lemma_p_continuation_below_half(z: int)
    requires
        z >= SCALE,
    ensures
        SCALE - phi_approx(z) < crate::fixed::HALF_SCALE,
{
    crate::tables::lemma_phi_mono(SCALE as int, z);
    assert(phi_approx(SCALE as int) == crate::tables::phi_knot(8)) by {
        assert(SCALE as int / (crate::tables::PHI_STEP as int) == 8);
        assert(SCALE as int % (crate::tables::PHI_STEP as int) == 0);
        assert(0int * (crate::tables::phi_knot(9) - crate::tables::phi_knot(8)) == 0) by (
        nonlinear_arith);
        assert(0int / (crate::tables::PHI_STEP as int) == 0) by {
            vstd::arithmetic::div_mod::lemma_div_of0(crate::tables::PHI_STEP as int);
        };
    };
}


} // verus!
