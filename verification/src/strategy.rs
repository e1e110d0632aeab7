//! The per-instrument decision engine.
//!
//! One engine owns a volatility filter, a mean-reversion signal, a flow
//! analyser, the single open-position slot and the closed-trade history.
//! Each bar advances all three models, then either evaluates the exit
//! ladder for an open position (time stop, then stop-loss, then
//! mean-reversion exit; first match wins) or, when flat, evaluates the
//! probability- and fee-gated entry.  Deciding and committing are separate:
//! `on_bar` returns a [`TradeSignal`] and the caller opens the position.
//!
//! The contracts pin every state transition as a function of the previous
//! state and the bar, so a replay of the same bars from the same
//! configuration yields the same trades and equity.

use vstd::prelude::*;
use vstd::arithmetic::div_mod::{lemma_div_is_ordered, lemma_div_by_multiple, lemma_div_pos_is_pos};
use crate::fixed::{SCALE, PRICE_CAP, div_t, clip, sqrt_floor};
use crate::config::{AppConfig, EQUITY_CAP};
use crate::garch::{Garch11, garch_step};
use crate::ou::{OuSignalEngine, OuParams, ou_fit, z_of, signal_of, should_exit_of, Z_CAP};
use crate::flow::{FlowAnalyser, FlowSignal, TradeTick, ofi_push_rel, vpin_fill, vpin_value};
use crate::risk::{
    RiskLevels, EvResult, evaluate_ev, evaluate_ev_spec, kelly_fraction, kelly_spec, calculate_pnl,
    PNL_CAP,
};

verus! {

/// Why a position was closed.
#[derive(Debug, Clone, Copy, PartialEq, Eq, Structural)]
pub enum ExitReason {
    /// The mean-reversion exit fired near equilibrium.
    TakeProfit,
    /// The stop-loss level was breached.
    StopLoss,
    /// The position reached the maximum holding period.
    TimeStop,
    /// Forced liquidation, e.g. at the end of the data.
    ManualClose,
}

/// An entry decision: emitted only when flat and every gate passes.
#[derive(Debug, Clone, Copy)]
pub struct TradeSignal {
    /// +1 long, -1 short.
    pub direction: i8,
    /// Price at which the entry was decided.
    pub entry_price: u64,
    /// Fraction of equity to commit, in (0, max risk].
    pub size_frac: u64,
    /// Stop-loss and take-profit levels for the position.
    pub risk: RiskLevels,
    /// Z-score at entry.
    pub z_score: i64,
    /// Expected value per unit of notional at entry.
    pub ev: i64,
    /// VPIN at entry, when defined.
    pub vpin: Option<u64>,
    /// Per-bar conditional volatility at entry.
    pub garch_sigma_bar: u64,
}

impl TradeSignal {
    /// Range invariant.
    pub open spec fn wf(self) -> bool {
        &&& self.direction == 1 || self.direction == -1
        &&& 1 <= self.entry_price <= PRICE_CAP
        &&& 1 <= self.size_frac <= SCALE
        &&& self.risk.wf()
        &&& self.risk.direction == self.direction
        &&& self.risk.entry == self.entry_price
    }
}

/// The one open position, or a closed-trade record once terminal.
#[derive(Debug, Clone, Copy)]
pub struct ActivePosition {
    /// The signal that opened the position.
    pub signal: TradeSignal,
    /// Bars held so far.
    pub bars_held: usize,
    /// Realised PnL fraction; set only on close.
    pub pnl_frac: Option<i64>,
    /// Why the position closed; set only on close.
    pub exit_reason: Option<ExitReason>,
}

/// The stop-loss test of [`RiskLevels`] as a predicate.
pub open spec fn stopped_spec(r: RiskLevels, price: int) -> bool {
    if r.direction == 1 {
        price <= r.stop_loss
    } else if r.direction == -1 {
        price >= r.stop_loss
    } else {
        false
    }
}

/// The exit ladder, first match wins: time stop, stop-loss, then the
/// mean-reversion exit.
pub open spec fn exit_check_spec(
    cfg: AppConfig,
    params: Option<OuParams>,
    risk: RiskLevels,
    price: int,
    bars_held: int,
) -> Option<ExitReason> {
    if bars_held >= cfg.max_hold_bars {
        Some(ExitReason::TimeStop)
    } else if stopped_spec(risk, price) {
        Some(ExitReason::StopLoss)
    } else if should_exit_of(params, price, cfg.ou_exit_z as int, cfg.exit_prob_threshold as int) {
        Some(ExitReason::TakeProfit)
    } else {
        None
    }
}

/// Net directional PnL fraction of a round trip: gross `(exit - entry) /
/// entry` (capped), signed by direction, minus the round-trip cost.
pub open spec fn net_pnl_spec(direction: int, entry: int, exit: int, cfg: AppConfig) -> int {
    let g = clip(div_t((exit - entry) * SCALE, entry), -(PNL_CAP as int), PNL_CAP as int);
    (if direction == 1 {
        g
    } else {
        -g
    }) - (2 * cfg.taker_fee + cfg.slippage)
}

/// Equity after realising a closed trade: the stake
/// `equity * size_frac * leverage` earns the net PnL fraction; clamped to
/// the representable range (an account cannot go below zero).
pub open spec fn equity_after_spec(equity: int, size_frac: int, leverage: int, net: int) -> int {
    let notional = equity * size_frac / (SCALE as int) * leverage;
    clip(equity + div_t(notional * net, SCALE as int), 0, EQUITY_CAP as int)
}

/// The take-profit level: the expected reversion travel beyond the exit
/// band, converted to a price move and applied in the trade direction.
pub open spec fn take_profit_spec(
    direction: int,
    entry: int,
    z: int,
    exit_z: int,
    sigma_ou: int,
) -> int {
    let t = vstd::math::abs(z) - exit_z;
    let travel = if t >= 0 {
        t
    } else {
        0
    };
    let mv = travel * sigma_ou / (SCALE as int);
    if direction == 1 {
        if entry + mv > PRICE_CAP {
            PRICE_CAP as int
        } else {
            entry + mv
        }
    } else {
        if mv > entry {
            0
        } else {
            entry - mv
        }
    }
}

/// The whole flat-side entry decision: direction from the Z-score, the EV
/// gate, the Kelly size, and the optional VPIN confirmation (required only
/// when VPIN is defined).  `None` when any gate refuses.
pub open spec fn entry_signal_spec(
    cfg: AppConfig,
    params: Option<OuParams>,
    price: int,
    vpin_now: Option<u64>,
    sigma_bar: int,
) -> Option<TradeSignal> {
    let dir = signal_of(params, price, cfg.ou_entry_z as int);
    if dir == 0 {
        None
    } else {
        let z = z_of(params, price)->0 as int;
        let q = params->0;
        let ev = evaluate_ev_spec(z, q.sigma_ou as int, price, cfg.ou_exit_z as int, cfg);
        if !ev.is_viable {
            None
        } else {
            let size = kelly_spec(
                ev.p_win as int,
                ev.avg_win as int,
                ev.avg_loss as int,
                cfg.kelly_scale as int,
                cfg.risk_per_trade as int,
            );
            if size == 0 {
                None
            } else {
                let confirmed = match vpin_now {
                    Option::None => true,
                    Option::Some(v) => v >= cfg.vpin_threshold,
                };
                if !confirmed {
                    None
                } else {
                    let tp = take_profit_spec(dir, price, z, cfg.ou_exit_z as int, q.sigma_ou as int);
                    let risk = RiskLevels {
                        entry: price as u64,
                        stop_loss: (if dir == 1 {
                            price * (SCALE - cfg.stop_loss_frac) / (SCALE as int)
                        } else {
                            price * (SCALE + cfg.stop_loss_frac) / (SCALE as int)
                        }) as u64,
                        take_profit: tp as u64,
                        direction: dir as i8,
                    };
                    Some(
                        TradeSignal {
                            direction: dir as i8,
                            entry_price: price as u64,
                            size_frac: size as u64,
                            risk,
                            z_score: z as i64,
                            ev: ev.ev,
                            vpin: vpin_now,
                            garch_sigma_bar: sigma_bar as u64,
                        },
                    )
                }
            }
        }
    }
}

/// The per-instrument decision engine.
#[derive(Debug, Clone)]
pub struct StrategyEngine {
    /// Immutable configuration.
    pub cfg: AppConfig,
    /// GARCH(1,1) volatility filter.
    pub garch: Garch11,
    /// OU mean-reversion signal.
    pub ou: OuSignalEngine,
    /// OFI + VPIN flow analyser.
    pub flow: FlowAnalyser,
    /// The single open position, if any.
    pub position: Option<ActivePosition>,
    /// Closed-trade history, oldest first.
    pub closed_trades: Vec<ActivePosition>,
    /// Current account equity.
    pub equity: u64,
}

impl StrategyEngine {
    /// Structural invariant: all components well-formed, the open position
    /// (if any) carries a well-formed signal, and every closed trade is
    /// terminal.
    pub open spec fn wf(self) -> bool {
        &&& self.cfg.valid()
        &&& self.garch.wf()
        &&& self.ou.wf()
        &&& self.flow.wf()
        &&& self.equity <= EQUITY_CAP
        &&& match self.position {
            Option::Some(p) => p.signal.wf() && p.pnl_frac is None && p.exit_reason is None,
            Option::None => true,
        }
        &&& forall|i: int|
            0 <= i < self.closed_trades@.len() ==> (#[trigger] self.closed_trades@[i]).signal.wf()
                && self.closed_trades@[i].pnl_frac is Some && self.closed_trades@[i].exit_reason
                is Some && -(PNL_CAP as int) - SCALE <= self.closed_trades@[i].pnl_frac->0
                <= PNL_CAP
    }

    /// Build a flat engine from a valid configuration: components at their
    /// initial states and equity at the initial capital.
    pub fn new(cfg: AppConfig) -> (r: StrategyEngine)
        requires
            cfg.valid(),
        ensures
            r.wf(),
            r.cfg == cfg,
            r.garch.omega == cfg.garch_omega,
            r.garch.alpha == cfg.garch_alpha,
            r.garch.beta == cfg.garch_beta,
            r.garch.bars_per_year == cfg.bars_per_year,
            r.garch.sigma2 == r.garch.longrun_variance(),
            r.garch.prev_epsilon == 0,
            r.ou.window == cfg.ou_window,
            r.ou.price_buf@.len() == 0,
            r.ou.params is None,
            r.flow.ofi.window == cfg.ofi_window,
            r.flow.ofi.signed_vol_buf@.len() == 0,
            r.flow.vpin.bucket_size == cfg.vpin_bucket_size,
            r.flow.vpin.n_buckets == cfg.vpin_n_buckets,
            r.flow.vpin.finished_buckets@.len() == 0,
            r.flow.vpin.current_bucket == crate::flow::empty_bucket(),
            r.flow.ofi_threshold == cfg.ofi_threshold,
            r.position is None,
            r.closed_trades@.len() == 0,
            r.equity == cfg.initial_capital,
            fresh_engine(r, cfg),
    {
        let garch = Garch11::new(cfg.garch_omega, cfg.garch_alpha, cfg.garch_beta, cfg.bars_per_year);
        let ou = OuSignalEngine::new(cfg.ou_window);
        proof {
            assert(cfg.ofi_threshold as i64 as int == cfg.ofi_threshold as int);
        }
        let flow = FlowAnalyser::new(
            cfg.ofi_window,
            cfg.vpin_bucket_size,
            cfg.vpin_n_buckets,
            cfg.ofi_threshold as i64,
        );
        let equity: u64 = cfg.initial_capital;
        StrategyEngine { cfg, garch, ou, flow, position: None, closed_trades: Vec::new(), equity }
    }

    /// The exit ladder for the open position at this price, in fixed
    /// priority order: time stop, stop-loss, mean-reversion exit.
    pub fn check_exit(&self, price: u64, bars_held: usize) -> (r: Option<ExitReason>)
        requires
            self.wf(),
            (self.position is Some),
            price <= PRICE_CAP,
        ensures
            r == exit_check_spec(
                self.cfg,
                self.ou.params,
                self.position->0.signal.risk,
                price as int,
                bars_held as int,
            ),
    {
        let pos = match &self.position {
            Some(p) => p,
            None => {
                proof {
                    assert(false);
                }
                return None;
            },
        };
        if bars_held >= self.cfg.max_hold_bars {
            Some(ExitReason::TimeStop)
        } else if pos.signal.risk.is_stopped(price) {
            Some(ExitReason::StopLoss)
        } else if self.ou.should_exit(price, self.cfg.ou_exit_z, self.cfg.exit_prob_threshold) {
            Some(ExitReason::TakeProfit)
        } else {
            None
        }
    }

    /// Commit an entry decision: requires a flat engine; installs the
    /// position with zero bars held.
    pub fn open_position(&mut self, signal: TradeSignal)
        requires
            old(self).wf(),
            (old(self).position is None),
            signal.wf(),
        ensures
            final(self).wf(),
            *final(self) == (StrategyEngine {
                position: Some(
                    ActivePosition { signal, bars_held: 0, pnl_frac: None, exit_reason: None },
                ),
                ..*old(self)
            }),
    {
        self.position = Some(ActivePosition { signal, bars_held: 0, pnl_frac: None, exit_reason: None });
    }

    /// Close the open position at `exit_price`: realise the fee-adjusted
    /// PnL into equity, append the terminal record to the history, and
    /// return to the flat state.
    pub fn close_position(&mut self, exit_price: u64, reason: ExitReason)
        requires
            old(self).wf(),
            (old(self).position is Some),
            exit_price <= PRICE_CAP,
        ensures
            final(self).wf(),
            (final(self).position is None),
            ({
                let pos = old(self).position->0;
                let net = net_pnl_spec(
                    pos.signal.direction as int,
                    pos.signal.entry_price as int,
                    exit_price as int,
                    old(self).cfg,
                );
                &&& final(self).closed_trades@ == old(self).closed_trades@.push(
                    ActivePosition {
                        pnl_frac: Some(net as i64),
                        exit_reason: Some(reason),
                        ..pos
                    },
                )
                &&& final(self).equity == equity_after_spec(
                    old(self).equity as int,
                    pos.signal.size_frac as int,
                    old(self).cfg.max_leverage as int,
                    net,
                )
            }),
            final(self).cfg == old(self).cfg,
            final(self).garch == old(self).garch,
            final(self).ou == old(self).ou,
            final(self).flow == old(self).flow,
    {
        let pos: ActivePosition = match &self.position {
            Some(p) => *p,
            None => {
                proof {
                    assert(false);
                }
                return ;
            },
        };
        let (gross, _gross_net) = calculate_pnl(pos.signal.entry_price, exit_price, &self.cfg);
        let fees: u64 = 2 * self.cfg.taker_fee + self.cfg.slippage;
        let dir_gross: i64 = if pos.signal.direction == 1 {
            gross
        } else {
            -gross
        };
        let net: i64 = dir_gross - (fees as i64);

        // Realise the stake's PnL into equity.
        proof {
            assert(self.equity as int * pos.signal.size_frac as int
                <= 1_000_000_000_000_000_000_000_000_000) by (nonlinear_arith)
                requires
                    self.equity <= EQUITY_CAP,
                    pos.signal.size_frac <= SCALE,
            ;
            lemma_div_pos_is_pos(self.equity as int * pos.signal.size_frac as int, SCALE as int);
            lemma_div_is_ordered(
                self.equity as int * pos.signal.size_frac as int,
                1_000_000_000_000_000_000_000_000_000,
                SCALE as int,
            );
            assert((self.equity as int * pos.signal.size_frac as int / (SCALE as int))
                * (self.cfg.max_leverage as int) <= 100_000_000_000_000_000_000) by (
            nonlinear_arith)
                requires
                    0 <= self.equity as int * pos.signal.size_frac as int / (SCALE as int)
                        <= 1_000_000_000_000_000_000,
                    self.cfg.max_leverage <= 100,
            ;
        }
        let notional: u128 = (self.equity as u128) * (pos.signal.size_frac as u128) / (SCALE
            as u128) * (self.cfg.max_leverage as u128);
        let nm: u64 = if net < 0 {
            (-net) as u64
        } else {
            net as u64
        };
        proof {
            assert(notional as int * nm as int <= 200_000_000_000_000_000_000_000_000_000_000)
                by (nonlinear_arith)
                requires
                    notional <= 100_000_000_000_000_000_000,
                    nm <= 2 * PNL_CAP,
            ;
            lemma_div_pos_is_pos(notional as int * nm as int, SCALE as int);
        }
        let delta: u128 = notional * (nm as u128) / (SCALE as u128);
        let new_equity: u64 = if net >= 0 {
            let cand: u128 = (self.equity as u128) + delta;
            if cand > (EQUITY_CAP as u128) {
                EQUITY_CAP
            } else {
                cand as u64
            }
        } else {
            if delta >= (self.equity as u128) {
                0
            } else {
                self.equity - (delta as u64)
            }
        };
        proof {
            let e = self.equity as int;
            let no = notional as int;
            let ni = net as int;
            assert(no * ni == if ni >= 0 {
                no * (nm as int)
            } else {
                -(no * (nm as int))
            }) by (nonlinear_arith)
                requires
                    nm == if net < 0 { -(net as int) } else { net as int },
                    ni == net as int,
                    no >= 0,
            ;
            assert(new_equity == equity_after_spec(
                e,
                pos.signal.size_frac as int,
                self.cfg.max_leverage as int,
                ni,
            ));
        }
        let closed = ActivePosition {
            signal: pos.signal,
            bars_held: pos.bars_held,
            pnl_frac: Some(net),
            exit_reason: Some(reason),
        };
        self.closed_trades.push(closed);
        self.position = None;
        self.equity = new_equity;
    }
}

/// The whole per-bar transition as a relation between the engine state
/// before and after the bar.  Every conjunct pins one piece of the next
/// state or the returned signal as a function of the previous state and
/// the bar, so the relation admits exactly one outcome
/// (see [`lemma_on_bar_deterministic`]).
pub open spec fn on_bar_rel(
    pre: StrategyEngine,
    post: StrategyEngine,
    price: u64,
    log_return: i64,
    tick: TradeTick,
    r: Option<TradeSignal>,
) -> bool {
    let (c2, f2) = vpin_fill(
        pre.flow.vpin.current_bucket,
        pre.flow.vpin.finished_buckets@,
        tick.volume as int,
        tick.is_buy,
        pre.flow.vpin.bucket_size as int,
        pre.flow.vpin.n_buckets as int,
    );
    let s1 = pre.ou.price_buf@.push(price);
    let buf2 = if s1.len() > pre.ou.window {
        s1.subrange(1, s1.len() as int)
    } else {
        s1
    };
    &&& post.wf()
    &&& post.cfg == pre.cfg
    &&& post.garch == garch_step(pre.garch, log_return as int, 0)
    &&& post.ou.window == pre.ou.window
    &&& post.ou.price_buf@ == buf2
    &&& post.ou.params == (if buf2.len() == pre.ou.window {
        ou_fit(buf2)
    } else {
        pre.ou.params
    })
    &&& ofi_push_rel(pre.flow.ofi, post.flow.ofi, tick)
    &&& post.flow.vpin.current_bucket == c2
    &&& post.flow.vpin.finished_buckets@ == f2
    &&& post.flow.vpin.bucket_size == pre.flow.vpin.bucket_size
    &&& post.flow.vpin.n_buckets == pre.flow.vpin.n_buckets
    &&& post.flow.vpin.last_price == tick.price
    &&& post.flow.ofi_threshold == pre.flow.ofi_threshold
    &&& (r is Some) ==> (post.position is None) && r->0.wf()
    &&& (pre.position is Some) ==> ({
        let pos = pre.position->0;
        let held = if pos.bars_held < usize::MAX {
            pos.bars_held + 1
        } else {
            pos.bars_held as int
        };
        let decision = exit_check_spec(pre.cfg, post.ou.params, pos.signal.risk, price as int, held);
        &&& (r is None)
        &&& match decision {
            Option::None => {
                &&& post.position == Some(ActivePosition { bars_held: held as usize, ..pos })
                &&& post.closed_trades@ == pre.closed_trades@
                &&& post.equity == pre.equity
            },
            Option::Some(reason) => {
                let net = net_pnl_spec(
                    pos.signal.direction as int,
                    pos.signal.entry_price as int,
                    price as int,
                    pre.cfg,
                );
                &&& (post.position is None)
                &&& post.closed_trades@ == pre.closed_trades@.push(
                    ActivePosition {
                        bars_held: held as usize,
                        pnl_frac: Some(net as i64),
                        exit_reason: Some(reason),
                        ..pos
                    },
                )
                &&& post.equity == equity_after_spec(
                    pre.equity as int,
                    pos.signal.size_frac as int,
                    pre.cfg.max_leverage as int,
                    net,
                )
            },
        }
    })
    &&& (pre.position is None) ==> ({
        let vpin_now = if f2.len() == 0 {
            Option::<u64>::None
        } else {
            Option::<u64>::Some(vpin_value(f2) as u64)
        };
        &&& (post.position is None)
        &&& post.closed_trades@ == pre.closed_trades@
        &&& post.equity == pre.equity
        &&& r == entry_signal_spec(
            pre.cfg,
            post.ou.params,
            price as int,
            vpin_now,
            sqrt_floor((post.garch.sigma2 * SCALE) as nat) as int,
        )
    })
}

/// Observable equality of two engine states: every mathematical piece of
/// the state agrees, without demanding identity of the backing buffers.
pub open spec fn eq_state(a: StrategyEngine, b: StrategyEngine) -> bool {
    &&& a.position == b.position
    &&& eq_state_core(a, b)
}

/// Observable equality of everything but the position slot.
pub open spec fn eq_state_core(a: StrategyEngine, b: StrategyEngine) -> bool {
    &&& a.cfg == b.cfg
    &&& a.garch == b.garch
    &&& a.ou.window == b.ou.window
    &&& a.ou.price_buf@ == b.ou.price_buf@
    &&& a.ou.params == b.ou.params
    &&& a.flow.ofi.window == b.flow.ofi.window
    &&& a.flow.ofi.signed_vol_buf@ == b.flow.ofi.signed_vol_buf@
    &&& a.flow.ofi.abs_vol_buf@ == b.flow.ofi.abs_vol_buf@
    &&& a.flow.ofi.sum_signed == b.flow.ofi.sum_signed
    &&& a.flow.ofi.sum_abs == b.flow.ofi.sum_abs
    &&& a.flow.vpin.bucket_size == b.flow.vpin.bucket_size
    &&& a.flow.vpin.n_buckets == b.flow.vpin.n_buckets
    &&& a.flow.vpin.current_bucket == b.flow.vpin.current_bucket
    &&& a.flow.vpin.finished_buckets@ == b.flow.vpin.finished_buckets@
    &&& a.flow.vpin.last_price == b.flow.vpin.last_price
    &&& a.flow.ofi_threshold == b.flow.ofi_threshold
    &&& a.closed_trades@ == b.closed_trades@
    &&& a.equity == b.equity
}

/// The state a freshly constructed engine is in: components at their
/// initial values and equity at the configured capital.
pub open spec fn fresh_engine(e: StrategyEngine, cfg: AppConfig) -> bool {
    &&& e.wf()
    &&& e.cfg == cfg
    &&& e.garch == (Garch11 {
        omega: cfg.garch_omega,
        alpha: cfg.garch_alpha,
        beta: cfg.garch_beta,
        sigma2: (cfg.garch_omega * SCALE / (SCALE - cfg.garch_alpha - cfg.garch_beta)) as u64,
        prev_epsilon: 0,
        bars_per_year: cfg.bars_per_year,
    })
    &&& e.ou.window == cfg.ou_window
    &&& e.ou.price_buf@.len() == 0
    &&& (e.ou.params is None)
    &&& e.flow.ofi.window == cfg.ofi_window
    &&& e.flow.ofi.signed_vol_buf@.len() == 0
    &&& e.flow.ofi.abs_vol_buf@.len() == 0
    &&& e.flow.ofi.sum_signed == 0
    &&& e.flow.ofi.sum_abs == 0
    &&& e.flow.vpin.bucket_size == cfg.vpin_bucket_size
    &&& e.flow.vpin.n_buckets == cfg.vpin_n_buckets
    &&& e.flow.vpin.current_bucket == crate::flow::empty_bucket()
    &&& e.flow.vpin.finished_buckets@.len() == 0
    &&& e.flow.vpin.last_price == 0
    &&& e.flow.ofi_threshold == cfg.ofi_threshold
    &&& (e.position is None)
    &&& e.closed_trades@.len() == 0
    &&& e.equity == cfg.initial_capital
}

/// Two fresh engines of the same configuration are observably equal.
pub proof fn lemma_fresh_engine_deterministic(a: StrategyEngine, b: StrategyEngine, cfg: AppConfig)
    requires
        fresh_engine(a, cfg),
        fresh_engine(b, cfg),
    ensures
        eq_state(a, b),
{
    assert(a.ou.price_buf@ =~= b.ou.price_buf@);
    assert(a.flow.ofi.signed_vol_buf@ =~= b.flow.ofi.signed_vol_buf@);
    assert(a.flow.ofi.abs_vol_buf@ =~= b.flow.ofi.abs_vol_buf@);
    assert(a.flow.vpin.finished_buckets@ =~= b.flow.vpin.finished_buckets@);
    assert(a.closed_trades@ =~= b.closed_trades@);
}

/// Replaying one bar from one observable state admits exactly one outcome:
/// any two transitions from observably equal states with the same bar agree
/// on the emitted signal and on every observable piece of the next state.
/// With the replay loop feeding bars in a fixed order, an identical bar
/// sequence therefore yields an identical equity history and closed-trade
/// list.
pub proof fn lemma_on_bar_deterministic(
    pre1: StrategyEngine,
    post1: StrategyEngine,
    r1: Option<TradeSignal>,
    pre2: StrategyEngine,
    post2: StrategyEngine,
    r2: Option<TradeSignal>,
    price: u64,
    log_return: i64,
    tick: TradeTick,
)
    requires
        eq_state(pre1, pre2),
        on_bar_rel(pre1, post1, price, log_return, tick, r1),
        on_bar_rel(pre2, post2, price, log_return, tick, r2),
    ensures
        r1 == r2,
        eq_state(post1, post2),
{
    assert(pre1.ou.price_buf@.push(price) == pre2.ou.price_buf@.push(price));
    assert(pre1.flow.vpin.finished_buckets@ == pre2.flow.vpin.finished_buckets@);
    assert(ofi_push_rel(pre1.flow.ofi, post1.flow.ofi, tick) && ofi_push_rel(
        pre2.flow.ofi,
        post2.flow.ofi,
        tick,
    ));
    assert(post1.flow.ofi.signed_vol_buf@ == post2.flow.ofi.signed_vol_buf@);
    assert(post1.flow.ofi.sum_signed == crate::fixed::sum_i64(post1.flow.ofi.signed_vol_buf@));
    assert(post2.flow.ofi.sum_signed == crate::fixed::sum_i64(post2.flow.ofi.signed_vol_buf@));
}

impl StrategyEngine {
    /// Advance all three models with one bar, then run the position
    /// protocol: an open position is aged and the exit ladder evaluated
    /// (closing at this bar's price on the first match, and never emitting
    /// a new signal); a flat engine evaluates the gated entry and returns
    /// the signal for the caller to commit via `open_position`.
    pub fn on_bar(&mut self, price: u64, log_return: i64, tick: &TradeTick) -> (r: Option<
        TradeSignal,
    >)
        requires
            old(self).wf(),
            price <= PRICE_CAP,
            -(SCALE as int) <= log_return <= SCALE,
            tick.wf(),
        ensures
            on_bar_rel(*old(self), *final(self), price, log_return, *tick, r),
            final(self).wf(),
    {
        self.garch.update(log_return, 0);
        let _z_pushed: Option<i64> = self.ou.push(price);
        let fs: FlowSignal = self.flow.process(tick);
        match self.position {
            Some(pos) => {
                let held: usize = if pos.bars_held < usize::MAX {
                    pos.bars_held + 1
                } else {
                    pos.bars_held
                };
                self.position = Some(
                    ActivePosition {
                        signal: pos.signal,
                        bars_held: held,
                        pnl_frac: pos.pnl_frac,
                        exit_reason: pos.exit_reason,
                    },
                );
                let decision: Option<ExitReason> = self.check_exit(price, held);
                match decision {
                    Some(reason) => {
                        self.close_position(price, reason);
                    },
                    None => {},
                }
                None
            },
            None => {
                let dir: i8 = self.ou.signal(price, self.cfg.ou_entry_z);
                if dir == 0 {
                    return None;
                }
                proof {
                    assert(self.ou.params is Some);
                }
                let sigma_ou: u64 = match &self.ou.params {
                    Some(q) => q.sigma_ou,
                    None => 0,
                };
                let z: i64 = match self.ou.z_score(price) {
                    Some(zz) => zz,
                    None => 0,
                };
                let ev: EvResult = evaluate_ev(z, sigma_ou, price, self.cfg.ou_exit_z, &self.cfg);
                if !ev.is_viable {
                    return None;
                }
                proof {
                    // A viable trade has positive expected value, which a
                    // zero entry price (zero expected gain) cannot give.
                    if price == 0 {
                        let d = vstd::math::abs(z as int) - self.cfg.ou_exit_z;
                        if d >= 0 {
                            crate::tables::lemma_phi_range(d);
                        } else {
                            crate::tables::lemma_phi_range(-d);
                        }
                        let pl = SCALE - crate::risk::p_win_of(z as int, self.cfg.ou_exit_z as int);
                        vstd::arithmetic::mul::lemma_mul_nonnegative(
                            pl,
                            self.cfg.stop_loss_frac as int,
                        );
                        lemma_div_pos_is_pos(pl * self.cfg.stop_loss_frac, SCALE as int);
                        assert(crate::risk::p_win_of(z as int, self.cfg.ou_exit_z as int) * 0
                            == 0) by (nonlinear_arith);
                        assert(false);
                    }
                }
                let size: u64 = kelly_fraction(
                    ev.p_win,
                    ev.avg_win as i64,
                    ev.avg_loss as i64,
                    self.cfg.kelly_scale,
                    self.cfg.risk_per_trade,
                );
                if size == 0 {
                    return None;
                }
                let confirmed: bool = match fs.vpin {
                    None => true,
                    Some(v) => v >= self.cfg.vpin_threshold,
                };
                if !confirmed {
                    return None;
                }
                let az: i64 = if z < 0 {
                    -z
                } else {
                    z
                };
                let t: i64 = az - (self.cfg.ou_exit_z as i64);
                let travel: u64 = if t > 0 {
                    t as u64
                } else {
                    0
                };
                proof {
                    assert(travel as int * sigma_ou as int
                        <= 100_000_000_000_000_000_000_000_000_000) by (nonlinear_arith)
                        requires
                            travel <= Z_CAP,
                            sigma_ou <= crate::ou::SIGMA_OU_CAP,
                    ;
                    lemma_div_pos_is_pos(travel as int * sigma_ou as int, SCALE as int);
                }
                let mv128: u128 = (travel as u128) * (sigma_ou as u128) / (SCALE as u128);
                let tp: u64 = if dir == 1 {
                    let cand: u128 = (price as u128) + mv128;
                    if cand > (PRICE_CAP as u128) {
                        PRICE_CAP
                    } else {
                        cand as u64
                    }
                } else {
                    if mv128 > (price as u128) {
                        0
                    } else {
                        price - (mv128 as u64)
                    }
                };
                let risk: RiskLevels = if dir == 1 {
                    RiskLevels::long(price, self.cfg.stop_loss_frac, tp)
                } else {
                    RiskLevels::short(price, self.cfg.stop_loss_frac, tp)
                };
                let sigma_bar: u64 = self.garch.sigma_bar();
                Some(
                    TradeSignal {
                        direction: dir,
                        entry_price: price,
                        size_frac: size,
                        risk,
                        z_score: z,
                        ev: ev.ev,
                        vpin: fs.vpin,
                        garch_sigma_bar: sigma_bar,
                    },
                )
            },
        }
    }
}


} // verus!
