//! GARCH(1,1) recursive conditional-variance filter.
//!
//! The variance recursion is `sigma2_t = omega + alpha * eps_{t-1}^2
//! + beta * sigma2_{t-1}`, advanced with the *previous* shock before the new
//! shock is recorded, so a return spike raises the variance starting the
//! following bar.  Stationarity (`alpha + beta < 1`) is an invariant, and the
//! variance is proved to stay below [`SIGMA2_CAP`].

use vstd::prelude::*;
use vstd::arithmetic::div_mod::{
    lemma_div_is_ordered, lemma_div_by_multiple, lemma_div_plus_one, lemma_div_pos_is_pos,
};
use vstd::arithmetic::mul::lemma_mul_inequality;
use crate::fixed::{SCALE, div_t, sqrt_floor, mdu, isqrt_u128};

verus! {

/// Hard cap on the stored conditional variance, in SCALE units
/// (4e9 in real terms); preserved by every update.
pub const SIGMA2_CAP: u64 = 4_000_000_000_000_000_000;

/// Annualised-volatility threshold below which the regime is Low (0.40).
pub const REGIME_LOW_T: u64 = 400_000_000;

/// Annualised-volatility threshold at or above which the regime is High (0.80).
pub const REGIME_HIGH_T: u64 = 800_000_000;

/// Coarse volatility regime, thresholded on annualised sigma.
#[derive(Debug, Clone, Copy, PartialEq, Eq, Structural)]
pub enum VolRegime {
    Low,
    Normal,
    High,
}

/// GARCH(1,1) state.  All fractional fields are in SCALE units.
#[derive(Debug, Clone)]
pub struct Garch11 {
    /// omega: long-run variance weight.
    pub omega: u64,
    /// alpha: shock (ARCH) coefficient.
    pub alpha: u64,
    /// beta: persistence (GARCH) coefficient.
    pub beta: u64,
    /// Current conditional variance sigma2_t.
    pub sigma2: u64,
    /// Previous return innovation eps_{t-1}.
    pub prev_epsilon: i64,
    /// Annualisation factor: number of bars per year (a plain count).
    pub bars_per_year: u64,
}

/// `e^2 / SCALE`: the square of a fixed-point value, rescaled.
pub open spec fn sq_scaled(e: int) -> int {
    e * e / (SCALE as int)
}

/// The next conditional variance: `omega + alpha * eps^2 + beta * sigma2`,
/// each product rescaled by truncating division.
pub open spec fn garch_sigma2_next(g: Garch11) -> int {
    g.omega + g.alpha * sq_scaled(g.prev_epsilon as int) / (SCALE as int) + g.beta * g.sigma2
        / (SCALE as int)
}

/// The state after one update with return `r` and conditional mean `mu`.
pub open spec fn garch_step(g: Garch11, r: int, mu: int) -> Garch11 {
    Garch11 { sigma2: garch_sigma2_next(g) as u64, prev_epsilon: (r - mu) as i64, ..g }
}

impl Garch11 {
    /// Stationarity and range invariant.
    pub open spec fn wf(self) -> bool {
        &&& self.alpha + self.beta < SCALE
        &&& self.omega <= SCALE
        &&& self.sigma2 <= SIGMA2_CAP
        &&& -(SCALE as int) <= self.prev_epsilon <= SCALE
        &&& 1 <= self.bars_per_year <= SCALE
    }

    /// The long-run (unconditional) variance `omega / (1 - alpha - beta)`.
    pub open spec fn longrun_variance(self) -> int {
        self.omega * SCALE / (SCALE - self.alpha - self.beta)
    }

    /// Construct a GARCH(1,1) filter; the initial variance is the long-run
    /// unconditional variance `omega / (1 - alpha - beta)`, exactly.
    pub fn new(omega: u64, alpha: u64, beta: u64, bars_per_year: u64) -> (g: Garch11)
        requires
            alpha + beta < SCALE,
            omega <= SCALE,
            1 <= bars_per_year <= SCALE,
        ensures
            g.omega == omega,
            g.alpha == alpha,
            g.beta == beta,
            g.bars_per_year == bars_per_year,
            g.prev_epsilon == 0,
            g.sigma2 == g.longrun_variance(),
            g.wf(),
    {
        proof {
            vstd::arithmetic::div_mod::lemma_div_is_ordered_by_denominator(
                omega as int * SCALE as int,
                1,
                SCALE as int - alpha - beta,
            );
        }
        let longrun: u64 = mdu(omega, SCALE, SCALE - alpha - beta);
        Garch11 { omega, alpha, beta, sigma2: longrun, prev_epsilon: 0, bars_per_year }
    }

    /// Ingest one return observation: advance the variance with the
    /// *previous* shock, then record the new shock `r - mu`.
    pub fn update(&mut self, r: i64, mu: i64)
        requires
            old(self).wf(),
            -(SCALE as int) <= r <= SCALE,
            -(SCALE as int) <= mu <= SCALE,
            -(SCALE as int) <= r - mu <= SCALE,
        ensures
            *final(self) == garch_step(*old(self), r as int, mu as int),
            final(self).sigma2 == garch_sigma2_next(*old(self)),
            final(self).prev_epsilon == r - mu,
            final(self).wf(),
    {
        let e: i64 = self.prev_epsilon;
        let ea: u64 = if e < 0 {
            (-e) as u64
        } else {
            e as u64
        };
        proof {
            assert(ea as int * ea as int == e as int * e as int) by (nonlinear_arith)
                requires
                    ea == if e < 0 { -(e as int) } else { e as int },
            ;
            assert(ea as int * ea as int <= SCALE as int * SCALE as int) by (nonlinear_arith)
                requires
                    0 <= ea <= SCALE,
            ;
            lemma_div_is_ordered(ea as int * ea as int, SCALE as int * SCALE as int, SCALE as int);
            lemma_div_by_multiple(SCALE as int, SCALE as int);
        }
        let eps2: u64 = mdu(ea, ea, SCALE);
        proof {
            assert(self.alpha * eps2 <= SCALE as int * SCALE as int) by (nonlinear_arith)
                requires
                    0 <= self.alpha <= SCALE,
                    0 <= eps2 <= SCALE,
            ;
            lemma_div_is_ordered(
                self.alpha as int * eps2 as int,
                SCALE as int * SCALE as int,
                SCALE as int,
            );
            lemma_div_by_multiple(SCALE as int, SCALE as int);
        }
        let t_shock: u64 = mdu(self.alpha, eps2, SCALE);
        proof {
            lemma_mul_inequality(self.sigma2 as int, SIGMA2_CAP as int, self.beta as int);
            assert(self.beta as int * self.sigma2 as int == self.sigma2 as int
                * self.beta as int) by (nonlinear_arith);
            lemma_mul_inequality(self.beta as int, SCALE as int - 1, SIGMA2_CAP as int);
            assert(SIGMA2_CAP as int * self.beta as int == self.beta as int
                * SIGMA2_CAP as int) by (nonlinear_arith);
            lemma_div_is_ordered(
                self.beta as int * self.sigma2 as int,
                (SCALE as int - 1) * SIGMA2_CAP as int,
                SCALE as int,
            );
            assert((SCALE as int - 1) * SIGMA2_CAP as int == SCALE as int * (SIGMA2_CAP as int
                - 4_000_000_000)) by (nonlinear_arith);
            lemma_div_by_multiple(SIGMA2_CAP as int - 4_000_000_000, SCALE as int);
        }
        let t_persist: u64 = mdu(self.beta, self.sigma2, SCALE);
        self.sigma2 = self.omega + t_shock + t_persist;
        self.prev_epsilon = r - mu;
    }

    /// Annualised conditional volatility: `sqrt(sigma2 * bars_per_year)`,
    /// as the floor of the exact square root in SCALE units.
    pub fn sigma_annual(&self) -> (r: u64)
        requires
            self.wf(),
        ensures
            r == sqrt_floor((self.sigma2 * self.bars_per_year * SCALE) as nat),
    {
        proof {
            assert(self.sigma2 as int * self.bars_per_year as int <= SIGMA2_CAP as int
                * SCALE as int) by (nonlinear_arith)
                requires
                    0 <= self.sigma2 <= SIGMA2_CAP,
                    0 <= self.bars_per_year <= SCALE,
            ;
            assert(SIGMA2_CAP as int * SCALE as int * SCALE as int <= u128::MAX) by (nonlinear_arith);
            assert(self.sigma2 as int * self.bars_per_year as int * SCALE as int <= SIGMA2_CAP as int
                * SCALE as int * SCALE as int) by (nonlinear_arith)
                requires
                    0 <= self.sigma2 as int * self.bars_per_year as int <= SIGMA2_CAP as int
                        * SCALE as int,
            ;
        }
        let annual_var: u128 = (self.sigma2 as u128) * (self.bars_per_year as u128) * (SCALE
            as u128);
        isqrt_u128(annual_var)
    }

    /// Per-bar conditional volatility: `sqrt(sigma2)`, as the floor of the
    /// exact square root in SCALE units.
    pub fn sigma_bar(&self) -> (r: u64)
        requires
            self.wf(),
        ensures
            r == sqrt_floor((self.sigma2 * SCALE) as nat),
    {
        proof {
            assert(self.sigma2 as int * SCALE as int <= u128::MAX) by (nonlinear_arith)
                requires
                    0 <= self.sigma2 <= SIGMA2_CAP,
            ;
        }
        isqrt_u128((self.sigma2 as u128) * (SCALE as u128))
    }

    /// `persistence^k` in SCALE units, by repeated rescaled multiplication.
    pub open spec fn pow_frac(p: int, k: nat) -> int
        decreases k,
    {
        if k == 0 {
            SCALE as int
        } else {
            p * Self::pow_frac(p, (k - 1) as nat) / (SCALE as int)
        }
    }

    /// h-step-ahead variance forecast:
    /// `longrun + persistence^(h-1) * (sigma2 - longrun)`.
    pub fn forecast_variance(&self, h: usize) -> (r: u64)
        requires
            self.wf(),
            h >= 1,
        ensures
            r == self.longrun_variance() + div_t(
                Self::pow_frac((self.alpha + self.beta) as int, (h - 1) as nat) * (self.sigma2
                    - self.longrun_variance()),
                SCALE as int,
            ),
            r <= SIGMA2_CAP,
    {
        let p: u64 = self.alpha + self.beta;
        proof {
            vstd::arithmetic::div_mod::lemma_div_is_ordered_by_denominator(
                self.omega as int * SCALE as int,
                1,
                SCALE as int - p,
            );
        }
        let longrun: u64 = mdu(self.omega, SCALE, SCALE - p);
        let mut pw: u64 = SCALE;
        let mut i: usize = 0;
        while i < h - 1
            invariant
                i <= h - 1,
                p < SCALE,
                pw == Self::pow_frac(p as int, i as nat),
                pw <= SCALE,
            decreases h - 1 - i,
        {
            proof {
                assert(p as int * pw as int <= SCALE as int * SCALE as int) by (nonlinear_arith)
                    requires
                        0 <= p <= SCALE,
                        0 <= pw <= SCALE,
                ;
                lemma_div_is_ordered(
                    p as int * pw as int,
                    SCALE as int * SCALE as int,
                    SCALE as int,
                );
                lemma_div_by_multiple(SCALE as int, SCALE as int);
            }
            pw = mdu(p, pw, SCALE);
            i = i + 1;
        }
        if self.sigma2 >= longrun {
            let diff: u64 = self.sigma2 - longrun;
            proof {
                assert(pw as int * diff as int <= SCALE as int * diff as int) by (nonlinear_arith)
                    requires
                        0 <= pw <= SCALE,
                        0 <= diff,
                ;
                lemma_div_is_ordered(
                    pw as int * diff as int,
                    SCALE as int * diff as int,
                    SCALE as int,
                );
                lemma_div_by_multiple(diff as int, SCALE as int);
            }
            let adj: u64 = mdu(pw, diff, SCALE);
            proof {
                assert(pw as int * (self.sigma2 - self.longrun_variance()) == pw as int
                    * diff as int >= 0) by (nonlinear_arith)
                    requires
                        diff == self.sigma2 - self.longrun_variance(),
                        pw >= 0,
                        diff >= 0,
                ;
            }
            longrun + adj
        } else {
            let diff: u64 = longrun - self.sigma2;
            proof {
                assert(pw as int * diff as int <= SCALE as int * diff as int) by (nonlinear_arith)
                    requires
                        0 <= pw <= SCALE,
                        0 <= diff,
                ;
                lemma_div_is_ordered(
                    pw as int * diff as int,
                    SCALE as int * diff as int,
                    SCALE as int,
                );
                lemma_div_by_multiple(diff as int, SCALE as int);
            }
            let adj: u64 = mdu(pw, diff, SCALE);
            proof {
                assert(pw as int * (self.sigma2 - self.longrun_variance()) == -(pw as int
                    * diff as int) <= 0) by (nonlinear_arith)
                    requires
                        diff == self.longrun_variance() - self.sigma2,
                        pw >= 0,
                        diff >= 0,
                ;
            }
            longrun - adj
        }
    }

    /// Classify the current volatility regime by annualised sigma:
    /// Low below 0.40, Normal below 0.80, High at or above 0.80.
    pub fn regime(&self) -> (r: VolRegime)
        requires
            self.wf(),
        ensures
            ({
                let sa = sqrt_floor((self.sigma2 * self.bars_per_year * SCALE) as nat);
                &&& (r == VolRegime::Low <==> sa < REGIME_LOW_T)
                &&& (r == VolRegime::Normal <==> REGIME_LOW_T <= sa < REGIME_HIGH_T)
                &&& (r == VolRegime::High <==> sa >= REGIME_HIGH_T)
            }),
    {
        let sa: u64 = self.sigma_annual();
        if sa < REGIME_LOW_T {
            VolRegime::Low
        } else if sa < REGIME_HIGH_T {
            VolRegime::Normal
        } else {
            VolRegime::High
        }
    }
}

/// A larger recorded shock magnitude never yields a smaller next variance,
/// all other state equal.
pub proof fn lemma_spike_raises_next_variance(g1: Garch11, g2: Garch11)
    requires
        g1.wf(),
        g2.wf(),
        g1.omega == g2.omega,
        g1.alpha == g2.alpha,
        g1.beta == g2.beta,
        g1.sigma2 == g2.sigma2,
        vstd::math::abs(g1.prev_epsilon as int) >= vstd::math::abs(g2.prev_epsilon as int),
    ensures
        garch_sigma2_next(g1) >= garch_sigma2_next(g2),
{
    let e1 = g1.prev_epsilon as int;
    let e2 = g2.prev_epsilon as int;
    assert(e1 * e1 >= e2 * e2 >= 0) by (nonlinear_arith)
        requires
            vstd::math::abs(e1) >= vstd::math::abs(e2),
    ;
    lemma_div_is_ordered(e2 * e2, e1 * e1, SCALE as int);
    vstd::arithmetic::div_mod::lemma_div_pos_is_pos(e2 * e2, SCALE as int);
    assert(g1.alpha as int * sq_scaled(e2) <= g1.alpha as int * sq_scaled(e1)) by (nonlinear_arith)
        requires
            0 <= sq_scaled(e2) <= sq_scaled(e1),
            0 <= g1.alpha,
    ;
    lemma_div_is_ordered(
        g1.alpha as int * sq_scaled(e2),
        g1.alpha as int * sq_scaled(e1),
        SCALE as int,
    );
}

/// A shock gap visible at fixed-point resolution strictly raises the next
/// variance, all other state equal.
pub proof fn lemma_spike_strictly_raises_next_variance(g1: Garch11, g2: Garch11)
    requires
        g1.wf(),
        g2.wf(),
        g1.omega == g2.omega,
        g1.alpha == g2.alpha,
        g1.beta == g2.beta,
        g1.sigma2 == g2.sigma2,
        g1.alpha * sq_scaled(g1.prev_epsilon as int) >= g1.alpha * sq_scaled(
            g2.prev_epsilon as int,
        ) + SCALE,
    ensures
        garch_sigma2_next(g1) > garch_sigma2_next(g2),
{
    let a1 = g1.alpha as int * sq_scaled(g1.prev_epsilon as int);
    let a2 = g1.alpha as int * sq_scaled(g2.prev_epsilon as int);
    lemma_div_plus_one(a2, SCALE as int);
    lemma_div_is_ordered(a2 + SCALE, a1, SCALE as int);
}

/// With a zero recorded shock, a variance at or above the long-run level
/// never rises: calm updates decay the variance toward the long-run level.
pub proof fn lemma_calm_decay(g: Garch11)
    requires
        g.wf(),
        g.prev_epsilon == 0,
        g.sigma2 >= g.longrun_variance(),
    ensures
        garch_sigma2_next(g) <= g.sigma2,
        garch_sigma2_next(g) >= g.omega,
{
    let s = SCALE as int;
    let w = g.omega as int;
    let a = g.alpha as int;
    let b = g.beta as int;
    let v = g.sigma2 as int;
    let lr = g.longrun_variance();
    assert(sq_scaled(0) == 0) by {
        assert(0int * 0int == 0int) by (nonlinear_arith);
    };
    assert(a * 0int == 0int) by (nonlinear_arith);
    assert(garch_sigma2_next(g) == w + b * v / s);
    // The long-run level satisfies  w*s == (s-a-b)*lr + rem  with rem in range.
    let rem = (w * s) % (s - a - b);
    vstd::arithmetic::div_mod::lemma_fundamental_div_mod(w * s, s - a - b);
    vstd::arithmetic::div_mod::lemma_mod_division_less_than_divisor(w * s, s - a - b);
    vstd::arithmetic::div_mod::lemma_div_pos_is_pos(w * s, s - a - b);
    assert(v * (s - b) >= w * s - s + 1) by (nonlinear_arith)
        requires
            w * s == (s - a - b) * lr + rem,
            0 <= rem < s - a - b,
            0 <= a,
            0 <= b,
            a + b < s,
            0 <= lr <= v,
    ;
    // Hence  w + b*v/s <= v:  multiply out and use the division remainder.
    let rem2 = (b * v) % s;
    vstd::arithmetic::div_mod::lemma_fundamental_div_mod(b * v, s);
    vstd::arithmetic::div_mod::lemma_mod_division_less_than_divisor(b * v, s);
    assert(w + b * v / s <= v) by (nonlinear_arith)
        requires
            v * (s - b) >= w * s - s + 1,
            b * v == s * (b * v / s) + rem2,
            0 <= rem2 < s,
            s > 0,
    ;
    vstd::arithmetic::div_mod::lemma_div_pos_is_pos(b * v, s);
}

/// The GARCH state after feeding the first `k` returns, zero mean each.
pub open spec fn garch_iter(g: Garch11, rs: Seq<i64>, k: int) -> Garch11
    decreases k,
{
    if k <= 0 {
        g
    } else {
        garch_step(garch_iter(g, rs, k - 1), rs[k - 1] as int, 0)
    }
}

/// Run the filter over a return series and collect every conditional
/// variance along the way.
pub fn garch_filter(garch: &mut Garch11, rets: &Vec<i64>) -> (r: Vec<u64>)
    requires
        old(garch).wf(),
        forall|i: int|
            0 <= i < rets@.len() ==> -(SCALE as int) <= #[trigger] rets@[i] <= SCALE,
    ensures
        final(garch).wf(),
        *final(garch) == garch_iter(*old(garch), rets@, rets@.len() as int),
        r@.len() == rets@.len(),
        forall|i: int|
            0 <= i < rets@.len() ==> #[trigger] r@[i] == garch_iter(
                *old(garch),
                rets@,
                i + 1,
            ).sigma2,
{
    let n: usize = rets.len();
    let mut variances: Vec<u64> = Vec::new();
    let mut i: usize = 0;
    while i < n
        invariant
            garch.wf(),
            n == rets@.len(),
            i <= n,
            forall|j: int|
                0 <= j < rets@.len() ==> -(SCALE as int) <= #[trigger] rets@[j] <= SCALE,
            *garch == garch_iter(*old(garch), rets@, i as int),
            variances@.len() == i,
            forall|j: int|
                0 <= j < i ==> #[trigger] variances@[j] == garch_iter(
                    *old(garch),
                    rets@,
                    j + 1,
                ).sigma2,
        decreases n - i,
    {
        let rv: i64 = rets[i];
        garch.update(rv, 0);
        variances.push(garch.sigma2);
        i = i + 1;
    }
    variances
}

/// Sum of the first `k` returns.
pub open spec fn sum_ret(s: Seq<i64>, k: int) -> int
    decreases k,
{
    if k <= 0 {
        0
    } else {
        sum_ret(s, k - 1) + s[k - 1]
    }
}

/// Sum of squared deviations of the first `k` returns from `m`.
pub open spec fn sum_ret_sq_dev(s: Seq<i64>, m: int, k: int) -> int
    decreases k,
{
    if k <= 0 {
        0
    } else {
        sum_ret_sq_dev(s, m, k - 1) + (s[k - 1] - m) * (s[k - 1] - m)
    }
}

impl Garch11 {
    /// A fast moment-matching initialisation from a return series: fixed
    /// shock and persistence priors, with the long-run weight set from the
    /// sample variance (floored at one unit).
    pub fn estimate_from_returns(rets: &Vec<i64>, bars_per_year: u64) -> (g: Garch11)
        requires
            1 <= rets@.len() <= 1_000_000,
            forall|i: int|
                0 <= i < rets@.len() ==> -(SCALE as int) <= #[trigger] rets@[i] <= SCALE,
            1 <= bars_per_year <= SCALE,
        ensures
            g.alpha == 100_000_000,
            g.beta == 850_000_000,
            g.bars_per_year == bars_per_year,
            g.prev_epsilon == 0,
            ({
                let n = rets@.len() as int;
                let mean = div_t(sum_ret(rets@, n), n);
                let var = sum_ret_sq_dev(rets@, mean, n) / (n * SCALE);
                &&& g.omega == (if var * 50_000_000 / (SCALE as int) >= 1 {
                    var * 50_000_000 / (SCALE as int)
                } else {
                    1int
                })
            }),
            g.sigma2 == g.longrun_variance(),
            g.wf(),
    {
        let n: usize = rets.len();
        let mut sum: i64 = 0;
        let mut i: usize = 0;
        while i < n
            invariant
                n == rets@.len(),
                n <= 1_000_000,
                i <= n,
                forall|j: int|
                    0 <= j < rets@.len() ==> -(SCALE as int) <= #[trigger] rets@[j] <= SCALE,
                sum == sum_ret(rets@, i as int),
                -((i as int) * (SCALE as int)) <= sum <= (i as int) * (SCALE as int),
            decreases n - i,
        {
            sum = sum + rets[i];
            i = i + 1;
        }
        let mean: i64 = if sum < 0 {
            proof {
                lemma_div_pos_is_pos(-(sum as int), n as int);
                lemma_div_is_ordered(-(sum as int), (n as int) * (SCALE as int), n as int);
                assert((n as int) * (SCALE as int) == SCALE as int * (n as int)) by (
                nonlinear_arith);
                lemma_div_by_multiple(SCALE as int, n as int);
            }
            -((((-sum) as u64) / (n as u64)) as i64)
        } else {
            proof {
                lemma_div_pos_is_pos(sum as int, n as int);
                lemma_div_is_ordered(sum as int, (n as int) * (SCALE as int), n as int);
                assert((n as int) * (SCALE as int) == SCALE as int * (n as int)) by (
                nonlinear_arith);
                lemma_div_by_multiple(SCALE as int, n as int);
            }
            (((sum as u64) / (n as u64)) as i64)
        };
        let mut ssq: u128 = 0;
        let mut j: usize = 0;
        while j < n
            invariant
                n == rets@.len(),
                n <= 1_000_000,
                j <= n,
                forall|t: int|
                    0 <= t < rets@.len() ==> -(SCALE as int) <= #[trigger] rets@[t] <= SCALE,
                -(SCALE as int) <= mean <= SCALE,
                ssq == sum_ret_sq_dev(rets@, mean as int, j as int),
                ssq <= (j as int) * 4_000_000_000_000_000_000,
            decreases n - j,
        {
            let d: i64 = rets[j] - mean;
            proof {
                assert(0 <= d as int * d as int <= 4_000_000_000_000_000_000) by (nonlinear_arith)
                    requires
                        -(2 * SCALE as int) <= d <= 2 * SCALE as int,
                ;
                assert((j as int) * 4_000_000_000_000_000_000 + 4_000_000_000_000_000_000 == (
                j as int + 1) * 4_000_000_000_000_000_000) by (nonlinear_arith);
                assert(d as int * d as int == (if d >= 0 { d as int } else { -(d as int) }) * (if d
                    >= 0 {
                    d as int
                } else {
                    -(d as int)
                })) by (nonlinear_arith);
            }
            let dm: u64 = if d < 0 {
                (-d) as u64
            } else {
                d as u64
            };
            ssq = ssq + (dm as u128) * (dm as u128);
            j = j + 1;
        }
        proof {
            assert((n as int) * (SCALE as int) <= 1_000_000_000_000_000) by (nonlinear_arith)
                requires
                    1 <= n <= 1_000_000,
            ;
            assert((n as int) * (SCALE as int) >= SCALE as int) by (nonlinear_arith)
                requires
                    1 <= n,
            ;
            lemma_div_pos_is_pos(ssq as int, (n as int) * (SCALE as int));
            assert(ssq as int <= ((n as int) * (SCALE as int)) * (4 * SCALE as int)) by (
            nonlinear_arith)
                requires
                    ssq <= (n as int) * 4_000_000_000_000_000_000,
                    n >= 1,
            ;
            lemma_div_is_ordered(
                ssq as int,
                ((n as int) * (SCALE as int)) * (4 * SCALE as int),
                (n as int) * (SCALE as int),
            );
            assert(((n as int) * (SCALE as int)) * (4 * SCALE as int) == (4 * SCALE as int) * ((
            n as int) * (SCALE as int))) by (nonlinear_arith);
            lemma_div_by_multiple(4 * SCALE as int, (n as int) * (SCALE as int));
        }
        let denom: u128 = (n as u128) * (SCALE as u128);
        let var: u64 = (ssq / denom) as u64;
        proof {
            assert(var as int * 50_000_000 <= 4 * SCALE as int * 50_000_000) by (nonlinear_arith)
                requires
                    var <= 4 * SCALE as int,
            ;
            lemma_div_is_ordered(
                var as int * 50_000_000,
                4 * SCALE as int * 50_000_000,
                SCALE as int,
            );
            assert(4 * SCALE as int * 50_000_000 == 200_000_000 * SCALE as int) by (
            nonlinear_arith);
            lemma_div_by_multiple(200_000_000, SCALE as int);
        }
        let scaled: u64 = mdu(var, 50_000_000, SCALE);
        let omega: u64 = if scaled >= 1 {
            scaled
        } else {
            1
        };
        Garch11::new(omega, 100_000_000, 850_000_000, bars_per_year)
    }
}


} // verus!
