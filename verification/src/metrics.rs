//! Performance metrics over a finished backtest: per-trade statistics,
//! annualised Sharpe and Sortino ratios, maximum drawdown and Calmar.
//!
//! Ratios that the classical formulas leave unbounded (profit factor,
//! Sortino and Calmar with a zero denominator) are `None` here instead of
//! an infinity.

use vstd::prelude::*;
use vstd::arithmetic::div_mod::{lemma_div_is_ordered, lemma_div_by_multiple, lemma_div_pos_is_pos};
use crate::fixed::{SCALE, div_t, clip, sqrt_floor, isqrt_u128};
use crate::strategy::ActivePosition;
use crate::risk::PNL_CAP;
use crate::config::EQUITY_CAP;

verus! {

/// Cap on the magnitude of a reported ratio, in SCALE units.
pub const RATIO_CAP: u64 = 1_000_000_000_000_000_000;

/// An annualised mean-over-deviation ratio: the mean PnL over `n` trades,
/// divided by the deviation `dev`, scaled by `sqrt(bars_per_year / n)` and
/// capped; zero for a zero deviation.
pub open spec fn sharpe_ratio_spec(total_pnl: int, n: int, dev: int, bars_per_year: int) -> int {
    if dev == 0 {
        0
    } else {
        let rm = div_t(total_pnl, n);
        let ann = sqrt_floor((bars_per_year * SCALE * SCALE / n) as nat);
        let u = vstd::math::abs(rm) * SCALE / dev;
        let sm = clip(u * ann / (SCALE as int), 0, RATIO_CAP as int);
        if rm < 0 {
            -sm
        } else {
            sm
        }
    }
}

/// The realised PnL fraction of trade `i`, zero if it is not set.
pub open spec fn pnl_at(s: Seq<ActivePosition>, i: int) -> int {
    match s[i].pnl_frac {
        Option::Some(v) => v as int,
        Option::None => 0,
    }
}

/// Number of winning trades among the first `k`.
pub open spec fn count_wins(s: Seq<ActivePosition>, k: int) -> int
    decreases k,
{
    if k <= 0 {
        0
    } else {
        count_wins(s, k - 1) + if pnl_at(s, k - 1) > 0 {
            1int
        } else {
            0int
        }
    }
}

/// Sum of the winning PnL fractions among the first `k`.
pub open spec fn sum_wins(s: Seq<ActivePosition>, k: int) -> int
    decreases k,
{
    if k <= 0 {
        0
    } else {
        sum_wins(s, k - 1) + if pnl_at(s, k - 1) > 0 {
            pnl_at(s, k - 1)
        } else {
            0int
        }
    }
}

/// Sum of the loss magnitudes among the first `k`.
pub open spec fn sum_loss_mag(s: Seq<ActivePosition>, k: int) -> int
    decreases k,
{
    if k <= 0 {
        0
    } else {
        sum_loss_mag(s, k - 1) + if pnl_at(s, k - 1) <= 0 {
            -pnl_at(s, k - 1)
        } else {
            0int
        }
    }
}

/// Sum of all PnL fractions among the first `k`.
pub open spec fn sum_pnl(s: Seq<ActivePosition>, k: int) -> int
    decreases k,
{
    if k <= 0 {
        0
    } else {
        sum_pnl(s, k - 1) + pnl_at(s, k - 1)
    }
}

/// Sum of squared deviations of the PnL fractions from `m`.
pub open spec fn sum_pnl_sq_dev(s: Seq<ActivePosition>, m: int, k: int) -> int
    decreases k,
{
    if k <= 0 {
        0
    } else {
        sum_pnl_sq_dev(s, m, k - 1) + (pnl_at(s, k - 1) - m) * (pnl_at(s, k - 1) - m)
    }
}

/// Sum of squared negative PnL fractions (downside) among the first `k`.
pub open spec fn sum_down_sq(s: Seq<ActivePosition>, k: int) -> int
    decreases k,
{
    if k <= 0 {
        0
    } else {
        sum_down_sq(s, k - 1) + if pnl_at(s, k - 1) < 0 {
            pnl_at(s, k - 1) * pnl_at(s, k - 1)
        } else {
            0int
        }
    }
}

/// Running peak of an equity curve over its first `k` samples.
pub open spec fn peak_of(s: Seq<u64>, k: int) -> int
    decreases k,
{
    if k <= 0 {
        0
    } else if s[k - 1] > peak_of(s, k - 1) {
        s[k - 1] as int
    } else {
        peak_of(s, k - 1)
    }
}

/// Drawdown at sample `k`: `(equity - peak) / peak`, non-positive; zero
/// for a zero peak.
pub open spec fn dd_at(s: Seq<u64>, k: int) -> int {
    let p = peak_of(s, k);
    if p == 0 {
        0
    } else {
        -((p - s[k - 1]) * SCALE / p)
    }
}

/// Maximum drawdown over the first `k` samples: the most negative
/// drawdown, or zero for an empty curve.
pub open spec fn mdd_of(s: Seq<u64>, k: int) -> int
    decreases k,
{
    if k <= 0 {
        0
    } else {
        let prev = mdd_of(s, k - 1);
        if dd_at(s, k) < prev {
            dd_at(s, k)
        } else {
            prev
        }
    }
}

/// The running peak dominates every sample seen so far, so drawdowns are
/// in [-1, 0].
proof fn lemma_peak_bounds(s: Seq<u64>, k: int)
    requires
        1 <= k <= s.len(),
    ensures
        peak_of(s, k) >= s[k - 1],
        peak_of(s, k) >= 0,
        -(SCALE as int) <= dd_at(s, k) <= 0,
    decreases k,
{
    if k > 1 {
        lemma_peak_bounds(s, k - 1);
    }
    let p = peak_of(s, k);
    if p != 0 {
        lemma_div_pos_is_pos((p - s[k - 1]) * SCALE, p);
        assert((p - s[k - 1]) * SCALE <= p * SCALE) by (nonlinear_arith)
            requires
                0 <= p - s[k - 1] <= p,
        ;
        lemma_div_is_ordered((p - s[k - 1]) * SCALE, p * SCALE, p);
        assert(p * SCALE == SCALE as int * p) by (nonlinear_arith);
        lemma_div_by_multiple(SCALE as int, p);
    }
}

/// Maximum drawdown of an equity curve, in SCALE units; e.g. -1/2 for a
/// fall from a peak to half the peak.  Always in [-1, 0].
pub fn max_drawdown(equity_curve: &Vec<u64>) -> (r: i64)
    ensures
        r == mdd_of(equity_curve@, equity_curve@.len() as int),
        -(SCALE as int) <= r <= 0,
{
    let n: usize = equity_curve.len();
    let mut peak: u64 = 0;
    let mut mdd: i64 = 0;
    let mut i: usize = 0;
    while i < n
        invariant
            i <= n,
            n == equity_curve@.len(),
            peak == peak_of(equity_curve@, i as int),
            mdd == mdd_of(equity_curve@, i as int),
            -(SCALE as int) <= mdd <= 0,
            peak >= 0,
        decreases n - i,
    {
        let e: u64 = equity_curve[i];
        if e > peak {
            peak = e;
        }
        proof {
            lemma_peak_bounds(equity_curve@, i as int + 1);
        }
        let dd: i64 = if peak == 0 {
            0
        } else {
            proof {
                lemma_div_pos_is_pos((peak - e) as int * SCALE as int, peak as int);
                assert((peak - e) as int * SCALE as int <= peak as int * SCALE as int) by (
                nonlinear_arith)
                    requires
                        0 <= peak - e <= peak,
                ;
                lemma_div_is_ordered(
                    (peak - e) as int * SCALE as int,
                    peak as int * SCALE as int,
                    peak as int,
                );
                assert(peak as int * SCALE as int == SCALE as int * peak as int) by (
                nonlinear_arith);
                lemma_div_by_multiple(SCALE as int, peak as int);
            }
            -((((peak - e) as u128 * SCALE as u128 / (peak as u128)) as u64) as i64)
        };
        if dd < mdd {
            mdd = dd;
        }
        i = i + 1;
    }
    mdd
}

/// Complete backtest performance report.  Fractions and ratios are in
/// SCALE units; `None` marks a ratio whose classical formula is unbounded.
#[derive(Debug, Clone)]
pub struct PerfReport {
    /// Number of closed trades.
    pub n_trades: usize,
    /// Fraction of winning trades.
    pub win_rate: u64,
    /// Mean winning PnL fraction.
    pub avg_win: u64,
    /// Mean losing PnL magnitude.
    pub avg_loss: u64,
    /// `win_rate * avg_win / ((1 - win_rate) * avg_loss)`; `None` when the
    /// denominator vanishes.
    pub profit_factor: Option<u64>,
    /// Total return on initial equity.
    pub total_return: i64,
    /// Annualised Sharpe ratio.
    pub sharpe: i64,
    /// Annualised Sortino ratio; `None` without downside.
    pub sortino: Option<i64>,
    /// Maximum drawdown, non-positive.
    pub max_drawdown: i64,
    /// `total_return / |max_drawdown|`; `None` without drawdown.
    pub calmar: Option<i64>,
    /// Starting equity.
    pub initial_equity: u64,
    /// Ending equity.
    pub final_equity: u64,
}

/// Exactly what a performance report contains, as a predicate over the
/// closed trades, the equity curve, the equity endpoints and the
/// annualisation factor: every field of the report is pinned.
pub open spec fn report_matches(
    r: PerfReport,
    trades: Seq<ActivePosition>,
    curve: Seq<u64>,
    initial_equity: u64,
    final_equity: u64,
    bars_per_year: u64,
) -> bool {
    &&& r.n_trades == trades.len()
    &&& r.initial_equity == initial_equity
    &&& r.final_equity == final_equity
    &&& r.max_drawdown == mdd_of(curve, curve.len() as int)
    &&& r.total_return == clip(
        div_t((final_equity - initial_equity) * SCALE, initial_equity as int),
        -(RATIO_CAP as int),
        RATIO_CAP as int,
    )
    &&& trades.len() == 0 ==> r.win_rate == 0 && r.avg_win == 0 && r.avg_loss == 0 && r.sharpe
        == 0 && (r.profit_factor is None) && (r.sortino is None) && (r.calmar is None)
    &&& trades.len() > 0 ==> ({
        let n = trades.len() as int;
        let wins = count_wins(trades, n);
        let win_rate = wins * SCALE / n;
        let avg_win = if wins == 0 {
            0int
        } else {
            sum_wins(trades, n) / wins
        };
        let avg_loss = if n - wins == 0 {
            0int
        } else {
            sum_loss_mag(trades, n) / (n - wins)
        };
        &&& r.win_rate == win_rate
        &&& r.avg_win == avg_win
        &&& r.avg_loss == avg_loss
        &&& r.profit_factor == (if (SCALE - win_rate) * avg_loss == 0 {
            Option::<u64>::None
        } else {
            Option::<u64>::Some(
                clip(
                    win_rate * avg_win * SCALE / ((SCALE - win_rate) * avg_loss),
                    0,
                    RATIO_CAP as int,
                ) as u64,
            )
        })
        &&& r.sharpe == sharpe_ratio_spec(
            sum_pnl(trades, n),
            n,
            sqrt_floor(
                (if n >= 2 {
                    sum_pnl_sq_dev(trades, div_t(sum_pnl(trades, n), n), n) / (n - 1)
                } else {
                    0int
                }) as nat,
            ) as int,
            bars_per_year as int,
        )
        &&& ((r.sortino is None) <==> sqrt_floor((sum_down_sq(trades, n) / n) as nat) == 0)
        &&& (r.sortino is Some) ==> r.sortino->0 == sharpe_ratio_spec(
            sum_pnl(trades, n),
            n,
            sqrt_floor((sum_down_sq(trades, n) / n) as nat) as int,
            bars_per_year as int,
        )
        &&& r.calmar == (if mdd_of(curve, curve.len() as int) == 0 {
            Option::<i64>::None
        } else {
            let mdm = -mdd_of(curve, curve.len() as int);
            let tr = clip(
                div_t((final_equity - initial_equity) * SCALE, initial_equity as int),
                -(RATIO_CAP as int),
                RATIO_CAP as int,
            );
            let cm = clip(vstd::math::abs(tr) * SCALE / mdm, 0, RATIO_CAP as int);
            Option::<i64>::Some((if tr < 0 { -cm } else { cm }) as i64)
        })
    })
}

/// Compute the performance metrics of a finished run from its closed
/// trades and equity curve.
pub fn compute_metrics(
    trades: &Vec<ActivePosition>,
    equity_curve: &Vec<u64>,
    initial_equity: u64,
    final_equity: u64,
    bars_per_year: u64,
) -> (r: PerfReport)
    requires
        trades@.len() <= 1_000_000,
        forall|i: int|
            0 <= i < trades@.len() ==> -(PNL_CAP as int) - SCALE <= #[trigger] pnl_at(trades@, i)
                <= PNL_CAP,
        1 <= initial_equity <= EQUITY_CAP,
        final_equity <= EQUITY_CAP,
        1 <= bars_per_year <= SCALE,
    ensures
        report_matches(r, trades@, equity_curve@, initial_equity, final_equity, bars_per_year),
        r.n_trades == trades@.len(),
        r.initial_equity == initial_equity,
        r.final_equity == final_equity,
{
    let n: usize = trades.len();
    let mdd: i64 = max_drawdown(equity_curve);

    // Total return on initial equity, capped.
    let total_return: i64 = if final_equity >= initial_equity {
        proof {
            assert((final_equity - initial_equity) as int * SCALE as int
                <= 1_000_000_000_000_000_000_000_000_000) by (nonlinear_arith)
                requires
                    final_equity <= EQUITY_CAP,
                    final_equity >= initial_equity,
            ;
            lemma_div_pos_is_pos(
                (final_equity - initial_equity) as int * SCALE as int,
                initial_equity as int,
            );
        }
        let g: u128 = ((final_equity - initial_equity) as u128) * (SCALE as u128) / (initial_equity
            as u128);
        if g > (RATIO_CAP as u128) {
            RATIO_CAP as i64
        } else {
            (g as u64) as i64
        }
    } else {
        proof {
            assert((initial_equity - final_equity) as int * SCALE as int
                <= 1_000_000_000_000_000_000_000_000_000) by (nonlinear_arith)
                requires
                    initial_equity <= EQUITY_CAP,
                    initial_equity >= final_equity,
            ;
            lemma_div_pos_is_pos(
                (initial_equity - final_equity) as int * SCALE as int,
                initial_equity as int,
            );
            assert((initial_equity - final_equity) as int * SCALE as int == -((final_equity as int
                - initial_equity as int) * SCALE as int)) by (nonlinear_arith);
        }
        let g: u128 = ((initial_equity - final_equity) as u128) * (SCALE as u128) / (initial_equity
            as u128);
        if g > (RATIO_CAP as u128) {
            -(RATIO_CAP as i64)
        } else {
            -((g as u64) as i64)
        }
    };

    if n == 0 {
        return PerfReport {
            n_trades: 0,
            win_rate: 0,
            avg_win: 0,
            avg_loss: 0,
            profit_factor: None,
            total_return,
            sharpe: 0,
            sortino: None,
            max_drawdown: mdd,
            calmar: None,
            initial_equity,
            final_equity,
        };
    }

    // Per-trade tallies.
    let mut wins: u64 = 0;
    let mut sw: i64 = 0;
    let mut sl: i64 = 0;
    let mut sp: i64 = 0;
    let mut i: usize = 0;
    while i < n
        invariant
            i <= n,
            n == trades@.len(),
            n <= 1_000_000,
            forall|j: int|
                0 <= j < trades@.len() ==> -(PNL_CAP as int) - SCALE <= #[trigger] pnl_at(
                    trades@,
                    j,
                ) <= PNL_CAP,
            wins == count_wins(trades@, i as int),
            wins <= i,
            sw == sum_wins(trades@, i as int),
            0 <= sw <= (i as int) * (PNL_CAP as int),
            sl == sum_loss_mag(trades@, i as int),
            0 <= sl <= (i as int) * (PNL_CAP as int + SCALE),
            sp == sum_pnl(trades@, i as int),
            -((i as int) * (PNL_CAP as int + SCALE)) <= sp <= (i as int) * (PNL_CAP as int),
        decreases n - i,
    {
        let p: i64 = match trades[i].pnl_frac {
            Some(v) => v,
            None => 0,
        };
        proof {
            assert(p == pnl_at(trades@, i as int));
            assert((i as int) * (PNL_CAP as int) + PNL_CAP as int == (i as int + 1) * (
            PNL_CAP as int)) by (nonlinear_arith);
            assert((i as int) * (PNL_CAP as int + SCALE) + (PNL_CAP as int + SCALE) == (i as int
                + 1) * (PNL_CAP as int + SCALE)) by (nonlinear_arith);
            assert((i as int) * (PNL_CAP as int + SCALE) <= 1_001_000_000_000_000_000) by (
            nonlinear_arith)
                requires
                    0 <= i < 1_000_000,
            ;
            assert((i as int) * (PNL_CAP as int) <= 1_000_000_000_000_000_000) by (
            nonlinear_arith)
                requires
                    0 <= i < 1_000_000,
            ;
        }
        if p > 0 {
            wins = wins + 1;
            sw = sw + p;
        } else {
            sl = sl - p;
        }
        sp = sp + p;
        i = i + 1;
    }
    let win_rate: u64 = {
        proof {
            lemma_div_pos_is_pos(wins as int * SCALE as int, n as int);
            assert(wins as int * SCALE as int <= n as int * SCALE as int) by (nonlinear_arith)
                requires
                    wins <= n,
            ;
            lemma_div_is_ordered(wins as int * SCALE as int, n as int * SCALE as int, n as int);
            assert(n as int * SCALE as int == SCALE as int * n as int) by (nonlinear_arith);
            lemma_div_by_multiple(SCALE as int, n as int);
        }
        crate::fixed::mdu(wins, SCALE, n as u64)
    };
    let losses: u64 = (n as u64) - wins;
    let avg_win: u64 = if wins == 0 {
        0
    } else {
        proof {
            lemma_div_pos_is_pos(sw as int, wins as int);
        }
        (sw as u64) / wins
    };
    let avg_loss: u64 = if losses == 0 {
        0
    } else {
        proof {
            lemma_div_pos_is_pos(sl as int, losses as int);
        }
        (sl as u64) / losses
    };

    // Profit factor: win_rate * avg_win over (1 - win_rate) * avg_loss.
    let p_loss_rate: u64 = SCALE - win_rate;
    proof {
        assert(p_loss_rate as int * avg_loss as int <= u128::MAX) by (nonlinear_arith)
            requires
                p_loss_rate <= SCALE,
                avg_loss <= u64::MAX,
        ;
        assert(win_rate as int * avg_win as int <= u128::MAX) by (nonlinear_arith)
            requires
                win_rate <= SCALE,
                avg_win <= u64::MAX,
        ;
    }
    let pf_den: u128 = (p_loss_rate as u128) * (avg_loss as u128);
    let profit_factor: Option<u64> = if pf_den == 0 {
        None
    } else {
        let pf_num: u128 = (win_rate as u128) * (avg_win as u128);
        proof {
            assert(win_rate as int * avg_win as int <= 18_446_744_073_709_551_615_000_000_000)
                by (nonlinear_arith)
                requires
                    win_rate <= SCALE,
                    avg_win <= u64::MAX,
            ;
            assert(pf_num * SCALE <= u128::MAX) by (nonlinear_arith)
                requires
                    pf_num <= 18_446_744_073_709_551_615_000_000_000,
            ;
        }
        let pf: u128 = pf_num * (SCALE as u128) / pf_den;
        Some(
            if pf > (RATIO_CAP as u128) {
                RATIO_CAP
            } else {
                pf as u64
            },
        )
    };

    // Sharpe: mean return over its standard deviation, annualised by
    // sqrt(bars per year / trades).
    let rm: i64 = if sp < 0 {
        proof {
            lemma_div_pos_is_pos(-(sp as int), n as int);
            lemma_div_is_ordered(-(sp as int), (n as int) * (PNL_CAP as int + SCALE), n as int);
            assert((n as int) * (PNL_CAP as int + SCALE) == (PNL_CAP as int + SCALE) * (n as int))
                by (nonlinear_arith);
            lemma_div_by_multiple(PNL_CAP as int + SCALE, n as int);
        }
        -((((-sp) as u64) / (n as u64)) as i64)
    } else {
        proof {
            lemma_div_pos_is_pos(sp as int, n as int);
            lemma_div_is_ordered(sp as int, (n as int) * (PNL_CAP as int), n as int);
            assert((n as int) * (PNL_CAP as int) == (PNL_CAP as int) * (n as int)) by (
            nonlinear_arith);
            lemma_div_by_multiple(PNL_CAP as int, n as int);
        }
        (((sp as u64) / (n as u64)) as i64)
    };
    let mut ssq: u128 = 0;
    let mut j: usize = 0;
    while j < n
        invariant
            j <= n,
            n == trades@.len(),
            n <= 1_000_000,
            forall|t: int|
                0 <= t < trades@.len() ==> -(PNL_CAP as int) - SCALE <= #[trigger] pnl_at(
                    trades@,
                    t,
                ) <= PNL_CAP,
            -(PNL_CAP as int) - SCALE <= rm <= PNL_CAP,
            ssq == sum_pnl_sq_dev(trades@, rm as int, j as int),
            ssq <= (j as int) * 20_000_000_000_000_000_000_000_000,
        decreases n - j,
    {
        let p: i64 = match trades[j].pnl_frac {
            Some(v) => v,
            None => 0,
        };
        proof {
            assert(p == pnl_at(trades@, j as int));
        }
        let d: i64 = p - rm;
        proof {
            assert(0 <= d as int * d as int <= 20_000_000_000_000_000_000_000_000) by (
            nonlinear_arith)
                requires
                    -(2 * PNL_CAP as int) - SCALE <= d <= 2 * PNL_CAP as int + SCALE,
            ;
            assert((j as int) * 20_000_000_000_000_000_000_000_000
                + 20_000_000_000_000_000_000_000_000 == (j as int + 1)
                * 20_000_000_000_000_000_000_000_000) by (nonlinear_arith);
            assert(d as int * d as int == (if d >= 0 { d as int } else { -(d as int) }) * (if d
                >= 0 {
                d as int
            } else {
                -(d as int)
            })) by (nonlinear_arith);
        }
        let dm: u64 = if d < 0 {
            (-d) as u64
        } else {
            d as u64
        };
        ssq = ssq + (dm as u128) * (dm as u128);
        j = j + 1;
    }
    let var: u128 = if n >= 2 {
        ssq / ((n - 1) as u128)
    } else {
        0
    };
    let r_std: u64 = isqrt_u128(var);
    let annx: u128 = (bars_per_year as u128) * (SCALE as u128) * (SCALE as u128) / (n as u128);
    let ann: u64 = isqrt_u128(annx);
    proof {
        lemma_div_is_ordered_by_den(annx as int, n as int);
        assert(ann < 40_000_000_000_000) by {
            if ann >= 40_000_000_000_000 {
                assert(ann as int * ann as int >= 1_600_000_000_000_000_000_000_000_000) by (
                nonlinear_arith)
                    requires
                        ann >= 40_000_000_000_000,
                ;
            }
        };
    }
    let sharpe: i64 = if r_std == 0 {
        0
    } else {
        let um: u64 = if rm < 0 {
            (-rm) as u64
        } else {
            rm as u64
        };
        proof {
            assert(um as int * SCALE as int <= 2_100_000_000_000_000_000_000) by (nonlinear_arith)
                requires
                    um <= PNL_CAP as int + SCALE,
            ;
            lemma_div_pos_is_pos(um as int * SCALE as int, r_std as int);
        }
        let u: u128 = (um as u128) * (SCALE as u128) / (r_std as u128);
        proof {
            lemma_div_is_ordered_by_den((um as int * SCALE as int) as int, r_std as int);
            assert(u * ann <= u128::MAX) by (nonlinear_arith)
                requires
                    u <= 2_100_000_000_000_000_000_000,
                    ann < 40_000_000_000_000,
            ;
        }
        let sv: u128 = u * (ann as u128) / (SCALE as u128);
        let sm: u64 = if sv > (RATIO_CAP as u128) {
            RATIO_CAP
        } else {
            sv as u64
        };
        if rm < 0 {
            -(sm as i64)
        } else {
            sm as i64
        }
    };

    // Sortino: downside deviation in place of the standard deviation.
    let mut dsq: u128 = 0;
    let mut t: usize = 0;
    while t < n
        invariant
            t <= n,
            n == trades@.len(),
            n <= 1_000_000,
            forall|v: int|
                0 <= v < trades@.len() ==> -(PNL_CAP as int) - SCALE <= #[trigger] pnl_at(
                    trades@,
                    v,
                ) <= PNL_CAP,
            dsq == sum_down_sq(trades@, t as int),
            dsq <= (t as int) * 20_000_000_000_000_000_000_000_000,
        decreases n - t,
    {
        let p: i64 = match trades[t].pnl_frac {
            Some(v) => v,
            None => 0,
        };
        proof {
            assert(p == pnl_at(trades@, t as int));
            assert(p < 0 ==> 0 <= p as int * p as int <= 20_000_000_000_000_000_000_000_000) by (
            nonlinear_arith)
                requires
                    -(PNL_CAP as int) - SCALE <= p <= PNL_CAP,
            ;
            assert((t as int) * 20_000_000_000_000_000_000_000_000
                + 20_000_000_000_000_000_000_000_000 == (t as int + 1)
                * 20_000_000_000_000_000_000_000_000) by (nonlinear_arith);
            assert(p < 0 ==> p as int * p as int == (-(p as int)) * (-(p as int))) by (
            nonlinear_arith);
        }
        if p < 0 {
            let pm: u64 = (-p) as u64;
            dsq = dsq + (pm as u128) * (pm as u128);
        }
        t = t + 1;
    }
    let dvar: u128 = dsq / (n as u128);
    let sigma_d: u64 = isqrt_u128(dvar);
    let sortino: Option<i64> = if sigma_d == 0 {
        None
    } else {
        let um: u64 = if rm < 0 {
            (-rm) as u64
        } else {
            rm as u64
        };
        proof {
            assert(um as int * SCALE as int <= 2_100_000_000_000_000_000_000) by (nonlinear_arith)
                requires
                    um <= PNL_CAP as int + SCALE,
            ;
            lemma_div_pos_is_pos(um as int * SCALE as int, sigma_d as int);
        }
        let u: u128 = (um as u128) * (SCALE as u128) / (sigma_d as u128);
        proof {
            lemma_div_is_ordered_by_den((um as int * SCALE as int) as int, sigma_d as int);
            assert(u * ann <= u128::MAX) by (nonlinear_arith)
                requires
                    u <= 2_100_000_000_000_000_000_000,
                    ann < 40_000_000_000_000,
            ;
        }
        let sv: u128 = u * (ann as u128) / (SCALE as u128);
        let sm: u64 = if sv > (RATIO_CAP as u128) {
            RATIO_CAP
        } else {
            sv as u64
        };
        Some(
            if rm < 0 {
                -(sm as i64)
            } else {
                sm as i64
            },
        )
    };

    // Calmar: total return over drawdown magnitude.
    let calmar: Option<i64> = if mdd == 0 {
        None
    } else {
        let mdm: u64 = (-mdd) as u64;
        let trm: u64 = if total_return < 0 {
            (-total_return) as u64
        } else {
            total_return as u64
        };
        proof {
            lemma_div_pos_is_pos(trm as int * SCALE as int, mdm as int);
        }
        let c: u128 = (trm as u128) * (SCALE as u128) / (mdm as u128);
        let cm: u64 = if c > (RATIO_CAP as u128) {
            RATIO_CAP
        } else {
            c as u64
        };
        Some(
            if total_return < 0 {
                -(cm as i64)
            } else {
                cm as i64
            },
        )
    };

    PerfReport {
        n_trades: n,
        win_rate,
        avg_win,
        avg_loss,
        profit_factor,
        total_return,
        sharpe,
        sortino,
        max_drawdown: mdd,
        calmar,
        initial_equity,
        final_equity,
    }
}

/// A non-negative value divided by a positive count never grows.
proof fn lemma_div_is_ordered_by_den(x: int, d: int)
    requires
        0 <= x,
        1 <= d,
    ensures
        x / d <= x,
{
    vstd::arithmetic::div_mod::lemma_div_is_ordered_by_denominator(x, 1, d);
}

} // verus!
