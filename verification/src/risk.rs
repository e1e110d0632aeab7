//! Fee-adjusted expected value, fractional-Kelly sizing and stop/target
//! levels.
//!
//! A candidate trade passes the EV gate only when its probability-weighted
//! expected gain, net of the full round-trip cost, is positive and the win
//! probability clears its floor.  The Kelly fraction is scaled down and
//! hard-capped; it is proved never to exceed the risk cap and to be zero
//! for non-positive odds.

use vstd::prelude::*;
use vstd::arithmetic::div_mod::{
    lemma_div_is_ordered, lemma_div_by_multiple, lemma_div_pos_is_pos,
    lemma_div_is_ordered_by_denominator,
};
use crate::fixed::{SCALE, PRICE_CAP, div_t, clip, mdu};
use crate::config::AppConfig;
use crate::ou::{Z_CAP, SIGMA_OU_CAP};
use crate::tables::{phi_signed, phi_cdf};

verus! {

/// Cap on the expected per-unit gain of a trade, in SCALE units.
pub const AVG_WIN_CAP: u64 = 1_000_000_000_000;

/// Cap on the magnitude of a PnL fraction, in SCALE units.
pub const PNL_CAP: u64 = 1_000_000_000_000;

/// Cap on the reward-to-risk ratio, in SCALE units.
pub const RR_CAP: u64 = 1_000_000_000_000;

/// Result of an expected-value evaluation.
#[derive(Debug, Clone)]
pub struct EvResult {
    /// Probability of reaching the exit band, in SCALE units.
    pub p_win: u64,
    /// Complement of `p_win`.
    pub p_loss: u64,
    /// Expected gain per unit of notional, as a fraction of entry.
    pub avg_win: u64,
    /// Expected loss per unit of notional (the stop-loss fraction).
    pub avg_loss: u64,
    /// Expected value per unit of notional.
    pub ev: i64,
    /// Full round-trip cost: two taker fees plus slippage.
    pub total_fee: u64,
    /// Whether the trade clears the EV and win-probability gates.
    pub is_viable: bool,
}

/// The win probability of a candidate: `Phi(|z| - z_exit)`.
pub open spec fn p_win_of(z_score: int, z_exit: int) -> int {
    phi_signed(vstd::math::abs(z_score) - z_exit)
}

/// The expected per-unit gain: the Z travel beyond the exit band, scaled by
/// the diffusion and divided by the entry price; capped.
pub open spec fn avg_win_of(z_score: int, z_exit: int, sigma_ou: int, entry_price: int) -> int {
    let travel = if vstd::math::abs(z_score) - z_exit >= 0 {
        vstd::math::abs(z_score) - z_exit
    } else {
        0
    };
    if entry_price <= 0 {
        0
    } else {
        clip(travel * sigma_ou / entry_price, 0, AVG_WIN_CAP as int)
    }
}

/// The full expected-value evaluation as a function of its inputs.
pub open spec fn evaluate_ev_spec(
    z_score: int,
    sigma_ou: int,
    entry_price: int,
    z_exit: int,
    cfg: AppConfig,
) -> EvResult {
    let total_fee = 2 * cfg.taker_fee + cfg.slippage;
    let p_win = p_win_of(z_score, z_exit);
    let p_loss = SCALE - p_win;
    let avg_win = avg_win_of(z_score, z_exit, sigma_ou, entry_price);
    let avg_loss = cfg.stop_loss_frac as int;
    let ev = div_t(p_win * avg_win - p_loss * avg_loss, SCALE as int);
    EvResult {
        p_win: p_win as u64,
        p_loss: p_loss as u64,
        avg_win: avg_win as u64,
        avg_loss: avg_loss as u64,
        ev: ev as i64,
        total_fee: total_fee as u64,
        is_viable: ev > total_fee && p_win >= cfg.min_p_win,
    }
}

/// Evaluate the expected value of a candidate trade at Z-score `z_score`
/// with diffusion `sigma_ou` and entry price `entry_price`, against the
/// exit band `z_exit` and the configured fees and gates.
pub fn evaluate_ev(z_score: i64, sigma_ou: u64, entry_price: u64, z_exit: u64, cfg: &AppConfig) -> (
    r: EvResult)
    requires
        cfg.valid(),
        -(Z_CAP as int) <= z_score <= Z_CAP,
        z_exit <= Z_CAP,
        sigma_ou <= SIGMA_OU_CAP,
        entry_price <= PRICE_CAP,
    ensures
        r == evaluate_ev_spec(z_score as int, sigma_ou as int, entry_price as int, z_exit as int, *cfg),
        r.p_win <= SCALE,
        r.avg_win <= AVG_WIN_CAP,
{
    let total_fee: u64 = 2 * cfg.taker_fee + cfg.slippage;
    let az: i64 = if z_score < 0 {
        -z_score
    } else {
        z_score
    };
    let zd: i64 = az - (z_exit as i64);
    let p_win: u64 = phi_cdf(zd);
    let p_loss: u64 = SCALE - p_win;
    let travel: u64 = if zd > 0 {
        zd as u64
    } else {
        0
    };
    let avg_win: u64 = if entry_price == 0 {
        0
    } else {
        proof {
            assert(travel as int * sigma_ou as int <= 100_000_000_000_000_000_000_000_000_000)
                by (nonlinear_arith)
                requires
                    travel <= Z_CAP,
                    sigma_ou <= SIGMA_OU_CAP,
            ;
        }
        let w: u128 = (travel as u128) * (sigma_ou as u128) / (entry_price as u128);
        proof {
            lemma_div_pos_is_pos(travel as int * sigma_ou as int, entry_price as int);
        }
        if w > (AVG_WIN_CAP as u128) {
            AVG_WIN_CAP
        } else {
            w as u64
        }
    };
    let avg_loss: u64 = cfg.stop_loss_frac;
    proof {
        assert(p_win as int * avg_win as int <= 1_000_000_000_000_000_000_000) by (
        nonlinear_arith)
            requires
                p_win <= SCALE,
                avg_win <= AVG_WIN_CAP,
        ;
        assert(p_loss as int * avg_loss as int <= 1_000_000_000_000_000_000) by (nonlinear_arith)
            requires
                p_loss <= SCALE,
                avg_loss <= SCALE,
        ;
    }
    let t1: u128 = (p_win as u128) * (avg_win as u128);
    let t2: u128 = (p_loss as u128) * (avg_loss as u128);
    proof {
        lemma_div_is_ordered(t1 as int, 1_000_000_000_000_000_000_000, SCALE as int);
        lemma_div_is_ordered(t2 as int, 1_000_000_000_000_000_000, SCALE as int);
        lemma_div_pos_is_pos(t1 as int, SCALE as int);
        lemma_div_pos_is_pos(t2 as int, SCALE as int);
        if t1 >= t2 {
            lemma_div_is_ordered((t1 - t2) as int, t1 as int, SCALE as int);
        } else {
            lemma_div_is_ordered((t2 - t1) as int, t2 as int, SCALE as int);
        }
    }
    let ev: i64 = if t1 >= t2 {
        (((t1 - t2) / (SCALE as u128)) as u64) as i64
    } else {
        -((((t2 - t1) / (SCALE as u128)) as u64) as i64)
    };
    let is_viable: bool = ev > total_fee as i64 && p_win >= cfg.min_p_win;
    proof {
        let pw = p_win as int;
        let pl = p_loss as int;
        let aw = avg_win as int;
        let al = avg_loss as int;
        assert(pw * aw == t1 && pl * al == t2);
        assert(ev == div_t(pw * aw - pl * al, SCALE as int)) by (nonlinear_arith)
            requires
                t1 == pw * aw,
                t2 == pl * al,
                t1 >= 0,
                t2 >= 0,
                div_t(t1 - t2, SCALE as int) == if t1 - t2 >= 0 {
                    (t1 - t2) / (SCALE as int)
                } else {
                    -((t2 - t1) / (SCALE as int))
                },
                ev == if t1 >= t2 {
                    (t1 - t2) / (SCALE as int)
                } else {
                    -((t2 - t1) / (SCALE as int))
                },
        ;
    }
    EvResult { p_win, p_loss, avg_win, avg_loss, ev, total_fee, is_viable }
}

/// Fee-adjusted PnL of a completed long unit: the gross fraction
/// `(exit - entry) / entry` and the same net of round-trip cost.
pub fn calculate_pnl(entry: u64, exit: u64, cfg: &AppConfig) -> (r: (i64, i64))
    requires
        cfg.valid(),
        1 <= entry <= PRICE_CAP,
        exit <= PRICE_CAP,
    ensures
        r.0 == clip(
            div_t((exit - entry) * SCALE, entry as int),
            -(PNL_CAP as int),
            PNL_CAP as int,
        ),
        r.1 == r.0 - (2 * cfg.taker_fee + cfg.slippage),
{
    let fees: u64 = 2 * cfg.taker_fee + cfg.slippage;
    let gross: i64 = if exit >= entry {
        let g: u128 = ((exit - entry) as u128) * (SCALE as u128) / (entry as u128);
        proof {
            lemma_div_pos_is_pos((exit - entry) as int * SCALE as int, entry as int);
        }
        if g > (PNL_CAP as u128) {
            PNL_CAP as i64
        } else {
            (g as u64) as i64
        }
    } else {
        let g: u128 = ((entry - exit) as u128) * (SCALE as u128) / (entry as u128);
        proof {
            lemma_div_pos_is_pos((entry - exit) as int * SCALE as int, entry as int);
        }
        if g > (PNL_CAP as u128) {
            -(PNL_CAP as i64)
        } else {
            -((g as u64) as i64)
        }
    };
    proof {
        let d = exit as int - entry as int;
        let s = SCALE as int;
        assert((entry as int - exit as int) * s == -(d * s)) by (nonlinear_arith)
            requires
                d == exit as int - entry as int,
                s == SCALE as int,
        ;
        lemma_div_pos_is_pos(if d >= 0 { d * s } else { -(d * s) }, entry as int);
    }
    (gross, gross - (fees as i64))
}

/// The fractional-Kelly position size as a function of its inputs.
pub open spec fn kelly_spec(
    p_win: int,
    avg_win: int,
    avg_loss: int,
    kelly_scale: int,
    max_risk: int,
) -> int {
    if avg_win < 1 || avg_loss < 1 {
        0
    } else {
        let b = avg_win * SCALE / avg_loss;
        if p_win * b <= (SCALE - p_win) * SCALE {
            0
        } else {
            let f_star = (p_win * b - (SCALE - p_win) * SCALE) / b;
            if f_star * kelly_scale / (SCALE as int) < max_risk {
                f_star * kelly_scale / (SCALE as int)
            } else {
                max_risk
            }
        }
    }
}

/// Kelly-optimal fraction of equity, scaled down by `kelly_scale` and
/// hard-capped at `max_risk`.  Never exceeds `max_risk`, and is zero
/// whenever the average win or loss is not positive.
pub fn kelly_fraction(p_win: u64, avg_win: i64, avg_loss: i64, kelly_scale: u64, max_risk: u64) -> (
    r: u64)
    requires
        p_win <= SCALE,
        avg_win <= AVG_WIN_CAP,
        avg_loss <= SCALE,
        kelly_scale <= SCALE,
        max_risk <= SCALE,
    ensures
        r == kelly_spec(
            p_win as int,
            avg_win as int,
            avg_loss as int,
            kelly_scale as int,
            max_risk as int,
        ),
        r <= max_risk,
        avg_win < 1 || avg_loss < 1 ==> r == 0,
{
    if avg_win < 1 || avg_loss < 1 {
        return 0;
    }
    proof {
        assert(avg_win as int * SCALE as int <= 1_000_000_000_000_000_000_000) by (
        nonlinear_arith)
            requires
                1 <= avg_win <= AVG_WIN_CAP,
        ;
    }
    let b: u128 = ((avg_win as u64) as u128) * (SCALE as u128) / ((avg_loss as u64) as u128);
    proof {
        lemma_div_pos_is_pos(avg_win as int * SCALE as int, avg_loss as int);
        assert(b >= 1) by {
            assert(avg_win as int * SCALE as int >= avg_loss as int) by (nonlinear_arith)
                requires
                    avg_win >= 1,
                    1 <= avg_loss <= SCALE,
            ;
            lemma_div_is_ordered(avg_loss as int, avg_win as int * SCALE as int, avg_loss as int);
            vstd::arithmetic::div_mod::lemma_div_by_self(avg_loss as int);
        };
        assert(b <= 1_000_000_000_000_000_000_000) by {
            lemma_div_is_ordered_by_denominator(avg_win as int * SCALE as int, 1, avg_loss as int);
            assert(avg_win as int * SCALE as int <= 1_000_000_000_000_000_000_000) by (
            nonlinear_arith)
                requires
                    0 <= avg_win <= AVG_WIN_CAP,
            ;
        };
    }
    proof {
        assert(p_win as int * b as int <= 1_000_000_000_000_000_000_000_000_000_000) by (
        nonlinear_arith)
            requires
                p_win <= SCALE,
                b <= 1_000_000_000_000_000_000_000,
        ;
    }
    let lhs: u128 = (p_win as u128) * b;
    let rhs: u128 = ((SCALE - p_win) as u128) * (SCALE as u128);
    if lhs <= rhs {
        return 0;
    }
    let f_star: u128 = (lhs - rhs) / b;
    proof {
        lemma_div_pos_is_pos((lhs - rhs) as int, b as int);
        assert((lhs - rhs) as int <= p_win as int * b as int) by (nonlinear_arith)
            requires
                lhs == p_win as int * b as int,
                rhs >= 0,
        ;
        lemma_div_is_ordered((lhs - rhs) as int, p_win as int * b as int, b as int);
        assert(p_win as int * b as int == b as int * p_win as int) by (nonlinear_arith);
        lemma_div_by_multiple(p_win as int, b as int);
    }
    proof {
        assert(f_star as int * kelly_scale as int <= 1_000_000_000_000_000_000) by (
        nonlinear_arith)
            requires
                f_star <= SCALE,
                kelly_scale <= SCALE,
        ;
    }
    let scaled: u128 = f_star * (kelly_scale as u128) / (SCALE as u128);
    proof {
        lemma_div_pos_is_pos(f_star as int * kelly_scale as int, SCALE as int);
    }
    if scaled < (max_risk as u128) {
        scaled as u64
    } else {
        max_risk
    }
}

/// Position size in base-asset quantity: `equity * f_risk * leverage /
/// entry_price`, zero for a non-positive price, saturating at the
/// representable maximum.
pub fn position_size(equity: u64, f_risk: u64, leverage: u32, entry_price: u64) -> (r: u64)
    requires
        equity <= crate::config::EQUITY_CAP,
        f_risk <= SCALE,
        leverage <= crate::config::LEVERAGE_CAP,
    ensures
        r == if entry_price == 0 {
            0int
        } else {
            clip(
                equity * f_risk * leverage / (entry_price as int),
                0,
                u64::MAX as int,
            )
        },
{
    if entry_price == 0 {
        return 0;
    }
    proof {
        assert(equity as int * f_risk as int <= 1_000_000_000_000_000_000_000_000_000) by (
        nonlinear_arith)
            requires
                equity <= crate::config::EQUITY_CAP,
                f_risk <= SCALE,
        ;
        assert(equity as int * f_risk as int * leverage as int
            <= 100_000_000_000_000_000_000_000_000_000) by (nonlinear_arith)
            requires
                0 <= equity as int * f_risk as int <= 1_000_000_000_000_000_000_000_000_000,
                leverage <= 100,
        ;
    }
    let ef: u128 = (equity as u128) * (f_risk as u128);
    let q: u128 = ef * (leverage as u128) / (entry_price as u128);
    proof {
        lemma_div_pos_is_pos(equity as int * f_risk as int * leverage as int, entry_price as int);
    }
    if q > (u64::MAX as u128) {
        u64::MAX
    } else {
        q as u64
    }
}

/// Stop-loss and take-profit price levels for one position.
#[derive(Debug, Clone, Copy)]
pub struct RiskLevels {
    /// Entry price.
    pub entry: u64,
    /// Stop-loss price.
    pub stop_loss: u64,
    /// Take-profit price.
    pub take_profit: u64,
    /// +1 for a long position, -1 for a short.
    pub direction: i8,
}

impl RiskLevels {
    /// Range invariant.
    pub open spec fn wf(self) -> bool {
        &&& self.entry <= PRICE_CAP
        &&& self.stop_loss <= 2 * PRICE_CAP
        &&& self.take_profit <= PRICE_CAP
        &&& self.direction == 1 || self.direction == -1
    }

    /// Levels for a long trade: the stop sits `stop_frac` below entry.
    pub fn long(entry: u64, stop_frac: u64, take_profit_price: u64) -> (r: RiskLevels)
        requires
            entry <= PRICE_CAP,
            stop_frac <= SCALE,
            take_profit_price <= PRICE_CAP,
        ensures
            r.entry == entry,
            r.stop_loss == entry * (SCALE - stop_frac) / (SCALE as int),
            r.take_profit == take_profit_price,
            r.direction == 1,
            r.wf(),
    {
        proof {
            assert(entry as int * (SCALE as int - stop_frac as int) <= PRICE_CAP as int
                * SCALE as int) by (nonlinear_arith)
                requires
                    entry <= PRICE_CAP,
                    stop_frac <= SCALE,
            ;
            lemma_div_is_ordered(
                entry as int * (SCALE as int - stop_frac as int),
                PRICE_CAP as int * SCALE as int,
                SCALE as int,
            );
            lemma_div_by_multiple(PRICE_CAP as int, SCALE as int);
        }
        let stop: u64 = mdu(entry, SCALE - stop_frac, SCALE);
        RiskLevels { entry, stop_loss: stop, take_profit: take_profit_price, direction: 1 }
    }

    /// Levels for a short trade: the stop sits `stop_frac` above entry.
    pub fn short(entry: u64, stop_frac: u64, take_profit_price: u64) -> (r: RiskLevels)
        requires
            entry <= PRICE_CAP,
            stop_frac <= SCALE,
            take_profit_price <= PRICE_CAP,
        ensures
            r.entry == entry,
            r.stop_loss == entry * (SCALE + stop_frac) / (SCALE as int),
            r.take_profit == take_profit_price,
            r.direction == -1,
            r.wf(),
    {
        proof {
            assert(entry as int * (SCALE as int + stop_frac as int) <= PRICE_CAP as int * 2
                * SCALE as int) by (nonlinear_arith)
                requires
                    entry <= PRICE_CAP,
                    stop_frac <= SCALE,
            ;
            lemma_div_is_ordered(
                entry as int * (SCALE as int + stop_frac as int),
                PRICE_CAP as int * 2 * SCALE as int,
                SCALE as int,
            );
            assert(PRICE_CAP as int * 2 * SCALE as int == (2 * PRICE_CAP) * SCALE as int) by (
            nonlinear_arith);
            lemma_div_by_multiple(2 * PRICE_CAP as int, SCALE as int);
        }
        let stop: u64 = mdu(entry, SCALE + stop_frac, SCALE);
        RiskLevels { entry, stop_loss: stop, take_profit: take_profit_price, direction: -1 }
    }

    /// Whether the price has breached the stop-loss level.
    pub fn is_stopped(&self, price: u64) -> (r: bool)
        ensures
            r == if self.direction == 1 {
                price <= self.stop_loss
            } else if self.direction == -1 {
                price >= self.stop_loss
            } else {
                false
            },
    {
        if self.direction == 1 {
            price <= self.stop_loss
        } else if self.direction == -1 {
            price >= self.stop_loss
        } else {
            false
        }
    }

    /// Whether the price has reached the take-profit level.
    pub fn is_profit_taken(&self, price: u64) -> (r: bool)
        ensures
            r == if self.direction == 1 {
                price >= self.take_profit
            } else if self.direction == -1 {
                price <= self.take_profit
            } else {
                false
            },
    {
        if self.direction == 1 {
            price >= self.take_profit
        } else if self.direction == -1 {
            price <= self.take_profit
        } else {
            false
        }
    }

    /// Reward-to-risk ratio: the distance to the target over the distance
    /// to the stop, zero when the stop distance is zero; capped.
    pub fn rr_ratio(&self) -> (r: u64)
        requires
            self.wf(),
        ensures
            ({
                let risk = vstd::math::abs(self.entry as int - self.stop_loss as int);
                let reward = vstd::math::abs(self.take_profit as int - self.entry as int);
                r == if risk == 0 {
                    0int
                } else {
                    clip(reward * SCALE / (risk as int), 0, RR_CAP as int)
                }
            }),
    {
        let risk: u64 = if self.entry >= self.stop_loss {
            self.entry - self.stop_loss
        } else {
            self.stop_loss - self.entry
        };
        let reward: u64 = if self.take_profit >= self.entry {
            self.take_profit - self.entry
        } else {
            self.entry - self.take_profit
        };
        if risk == 0 {
            0
        } else {
            let q: u128 = (reward as u128) * (SCALE as u128) / (risk as u128);
            proof {
                lemma_div_pos_is_pos(reward as int * SCALE as int, risk as int);
            }
            if q > (RR_CAP as u128) {
                RR_CAP
            } else {
                q as u64
            }
        }
    }
}

} // verus!
