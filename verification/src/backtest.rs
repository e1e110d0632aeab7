//! The chronological event-replay loop.
//!
//! Bars are fed to the decision engine strictly in order: the first bar
//! only seeds the equity curve; each later bar contributes its log-return
//! against the previous close and a synthetic flow tick.  A signal returned
//! by the engine is committed immediately; equity is sampled once per bar
//! after processing (mark-to-close: the curve is flat while a position is
//! open and moves when it is realised).  Any position left open after the
//! last bar is force-closed at the final price with reason `ManualClose`,
//! and the metrics are computed over the closed trades and the equity
//! curve.
//!
//! The contract pins the whole run: [`replay_report_rel`] says that a
//! bar-by-bar trace from the fresh engine explains the report, and since
//! each step of a trace admits exactly one outcome
//! ([`lemma_replay_trace_deterministic`]), replaying identical bars under
//! an identical configuration yields an identical report.

use vstd::prelude::*;
use crate::fixed::SCALE;
use crate::config::{AppConfig, EQUITY_CAP};
use crate::data::{Kline, log_return_between, log_return_of, tick_of};
use crate::flow::TradeTick;
use crate::strategy::{
    StrategyEngine, ExitReason, TradeSignal, ActivePosition, on_bar_rel, eq_state, eq_state_core,
    fresh_engine, net_pnl_spec, equity_after_spec, lemma_fresh_engine_deterministic,
    lemma_on_bar_deterministic,
};
use crate::metrics::{PerfReport, compute_metrics, pnl_at, report_matches};

verus! {

/// Run parameters of the replay itself, separate from the strategy
/// configuration.
#[derive(Debug, Clone)]
pub struct BacktestConfig {
    /// Whether a driver should log each signal (the replay itself never
    /// logs).
    pub verbose: bool,
    /// Bars per year, for annualisation in the metrics.
    pub bars_per_year: u64,
}

impl Default for BacktestConfig {
    /// Quiet, with one-minute bars: 365 * 24 * 60 bars per year.
    fn default() -> (r: Self)
        ensures
            r.verbose == false,
            r.bars_per_year == 525_600,
    {
        BacktestConfig { verbose: false, bars_per_year: 525_600 }
    }
}

/// One replay step: the engine takes the bar (its log-return against the
/// previous close and its synthetic tick), and any emitted entry signal is
/// committed at once with zero bars held.
pub open spec fn replay_step_rel(
    pre: StrategyEngine,
    post: StrategyEngine,
    prev_close: u64,
    bar: Kline,
) -> bool {
    exists|mid: StrategyEngine, r: Option<TradeSignal>|
        {
            &&& #[trigger] on_bar_rel(
                pre,
                mid,
                bar.close,
                log_return_of(prev_close as int, bar.close as int) as i64,
                tick_of(bar),
                r,
            )
            &&& eq_state_core(post, mid)
            &&& post.position == match r {
                Option::None => mid.position,
                Option::Some(s) => Some(
                    ActivePosition { signal: s, bars_held: 0, pnl_frac: None, exit_reason: None },
                ),
            }
        }
}

/// The replay's bar-by-bar trace: state 0 is the fresh engine after bar 0
/// (which contributes no return), and every later state follows from its
/// predecessor by one replay step with the corresponding bar.
pub open spec fn replay_trace(
    cfg: AppConfig,
    klines: Seq<Kline>,
    states: Seq<StrategyEngine>,
) -> bool {
    &&& states.len() == klines.len()
    &&& states.len() >= 1
    &&& fresh_engine(states[0], cfg)
    &&& forall|i: int|
        1 <= i < states.len() ==> #[trigger] replay_step_rel(
            states[i - 1],
            states[i],
            klines[i - 1].close,
            klines[i],
        )
}

/// The end-of-data settlement: a dangling position is force-closed at the
/// last close with reason `ManualClose`.  Yields the final closed-trade
/// list and the final equity.
pub open spec fn settle_spec(last: StrategyEngine, last_close: u64) -> (Seq<ActivePosition>, int) {
    match last.position {
        Option::None => (last.closed_trades@, last.equity as int),
        Option::Some(pos) => {
            let net = net_pnl_spec(
                pos.signal.direction as int,
                pos.signal.entry_price as int,
                last_close as int,
                last.cfg,
            );
            (
                last.closed_trades@.push(
                    ActivePosition {
                        pnl_frac: Some(net as i64),
                        exit_reason: Some(ExitReason::ManualClose),
                        ..pos
                    },
                ),
                equity_after_spec(
                    last.equity as int,
                    pos.signal.size_frac as int,
                    last.cfg.max_leverage as int,
                    net,
                ),
            )
        },
    }
}

/// The whole replay as a relation between its inputs and the report: some
/// bar-by-bar trace from the fresh engine explains the report.  The closed
/// trades and the final equity are the trace's last state settled at the
/// last close; the equity curve has one sample per bar, the equity after
/// processing that bar (so its first sample is the initial capital); and
/// every report field is the metrics of exactly those series.
pub open spec fn replay_report_rel(
    cfg: AppConfig,
    bt_cfg: BacktestConfig,
    klines: Seq<Kline>,
    r: PerfReport,
) -> bool {
    exists|states: Seq<StrategyEngine>|
        {
            &&& #[trigger] replay_trace(cfg, klines, states)
            &&& report_matches(
                r,
                settle_spec(states.last(), klines.last().close).0,
                Seq::new(states.len(), |i: int| states[i].equity),
                cfg.initial_capital,
                settle_spec(states.last(), klines.last().close).1 as u64,
                bt_cfg.bars_per_year,
            )
        }
}

/// Replay a chronological bar sequence through a freshly constructed
/// engine and report the performance metrics.  The report is pinned by
/// [`replay_report_rel`]; equity never changes while no trade has closed.
/// A zero close resolves to safe defaults: it carries no return, admits no
/// entry, and settles an open position as a total loss.
pub fn run_backtest(klines: &Vec<Kline>, cfg: AppConfig, bt_cfg: BacktestConfig) -> (r: PerfReport)
    requires
        cfg.valid(),
        cfg.initial_capital >= 1,
        2 <= klines@.len() <= 1_000_000,
        forall|i: int| 0 <= i < klines@.len() ==> (#[trigger] klines@[i]).wf(),
        1 <= bt_cfg.bars_per_year <= SCALE,
    ensures
        replay_report_rel(cfg, bt_cfg, klines@, r),
        r.initial_equity == cfg.initial_capital,
        r.final_equity <= EQUITY_CAP,
        r.n_trades <= klines@.len(),
        r.n_trades == 0 ==> r.final_equity == cfg.initial_capital,
{
    let ghost cfg0 = cfg;
    let initial_equity: u64 = cfg.initial_capital;
    let n: usize = klines.len();
    let mut engine = StrategyEngine::new(cfg);
    let ghost mut states: Seq<StrategyEngine> = seq![engine];
    let mut equity_curve: Vec<u64> = Vec::new();
    equity_curve.push(engine.equity);
    let mut i: usize = 1;
    while i < n
        invariant
            engine.wf(),
            engine.cfg == cfg0,
            cfg0.valid(),
            cfg0.initial_capital == initial_equity,
            n == klines@.len(),
            2 <= n <= 1_000_000,
            1 <= i <= n,
            states.len() == i,
            states.last() == engine,
            replay_trace(cfg0, klines@.take(i as int), states),
            equity_curve@.len() == i,
            forall|j: int| 0 <= j < i ==> #[trigger] equity_curve@[j] == states[j].equity,
            forall|j: int| 0 <= j < klines@.len() ==> (#[trigger] klines@[j]).wf(),
            engine.closed_trades@.len() < i,
            engine.closed_trades@.len() == 0 ==> engine.equity == initial_equity,
        decreases n - i,
    {
        let ghost pre = engine;
        let ghost states0 = states;
        let prev_close: u64 = klines[i - 1].close;
        let bar: &Kline = &klines[i];
        let log_return: i64 = log_return_between(prev_close, bar.close);
        let tick: TradeTick = bar.to_tick();
        let sig_opt: Option<TradeSignal> = engine.on_bar(bar.close, log_return, &tick);
        let ghost mid = engine;
        match sig_opt {
            Some(sig) => {
                engine.open_position(sig);
            },
            None => {},
        }
        proof {
            let ki = klines@[i as int];
            assert(tick == tick_of(ki));
            assert(log_return == log_return_of(prev_close as int, ki.close as int) as i64);
            assert(on_bar_rel(
                pre,
                mid,
                ki.close,
                log_return_of(prev_close as int, ki.close as int) as i64,
                tick_of(ki),
                sig_opt,
            ));
            assert(eq_state_core(engine, mid));
            assert(replay_step_rel(pre, engine, prev_close, ki));
            states = states.push(engine);
            assert(klines@.take(i as int + 1)[i as int] == ki);
            assert(fresh_engine(states[0], cfg0));
            assert(replay_trace(cfg0, klines@.take(i as int + 1), states)) by {
                assert forall|j: int|
                    1 <= j < states.len() implies #[trigger] replay_step_rel(
                    states[j - 1],
                    states[j],
                    klines@.take(i as int + 1)[j - 1].close,
                    klines@.take(i as int + 1)[j],
                ) by {
                    if j < i {
                        assert(replay_step_rel(
                            states0[j - 1],
                            states0[j],
                            klines@.take(i as int)[j - 1].close,
                            klines@.take(i as int)[j],
                        ));
                        assert(states[j - 1] == states0[j - 1] && states[j] == states0[j]);
                        assert(klines@.take(i as int)[j - 1] == klines@.take(i as int + 1)[j - 1]);
                        assert(klines@.take(i as int)[j] == klines@.take(i as int + 1)[j]);
                    } else {
                        assert(states[j - 1] == pre && states[j] == engine);
                        assert(klines@.take(i as int + 1)[j - 1] == klines@[i - 1]);
                    }
                };
            };
        }
        equity_curve.push(engine.equity);
        i = i + 1;
    }
    proof {
        assert(klines@.take(n as int) =~= klines@);
    }
    // Force-close any dangling position at the final price.
    let ghost last_state = engine;
    if engine.position.is_some() {
        let last_price: u64 = klines[n - 1].close;
        engine.close_position(last_price, ExitReason::ManualClose);
    }
    proof {
        assert(klines@.last() == klines@[n - 1]);
        assert(engine.closed_trades@ == settle_spec(last_state, klines@.last().close).0);
        assert(engine.equity == settle_spec(last_state, klines@.last().close).1);
        assert forall|k: int|
            0 <= k < engine.closed_trades@.len() implies -(crate::risk::PNL_CAP as int) - SCALE
            <= #[trigger] pnl_at(engine.closed_trades@, k) <= crate::risk::PNL_CAP by {
            assert(engine.closed_trades@[k].pnl_frac is Some);
        };
    }
    let report = compute_metrics(
        &engine.closed_trades,
        &equity_curve,
        initial_equity,
        engine.equity,
        bt_cfg.bars_per_year,
    );
    proof {
        assert(equity_curve@ =~= Seq::new(states.len(), |j: int| states[j].equity));
        assert(report_matches(
            report,
            settle_spec(states.last(), klines@.last().close).0,
            Seq::new(states.len(), |j: int| states[j].equity),
            cfg0.initial_capital,
            settle_spec(states.last(), klines@.last().close).1 as u64,
            bt_cfg.bars_per_year,
        ));
        assert(replay_trace(cfg0, klines@, states));
        assert(replay_report_rel(cfg0, bt_cfg, klines@, report));
    }
    report
}

/// Bar-by-bar determinism, lifted over a whole trace: two traces of the
/// same bars under the same configuration agree, state by state, on every
/// observable piece of the engine — there is no hidden nondeterminism in
/// the replay.
pub proof fn lemma_replay_trace_deterministic(
    cfg: AppConfig,
    klines: Seq<Kline>,
    s1: Seq<StrategyEngine>,
    s2: Seq<StrategyEngine>,
)
    requires
        replay_trace(cfg, klines, s1),
        replay_trace(cfg, klines, s2),
    ensures
        forall|i: int| 0 <= i < klines.len() ==> eq_state(#[trigger] s1[i], s2[i]),
{
    lemma_fresh_engine_deterministic(s1[0], s2[0], cfg);
    assert forall|i: int| 0 <= i < klines.len() implies eq_state(#[trigger] s1[i], s2[i]) by {
        lemma_replay_prefix_deterministic(cfg, klines, s1, s2, i);
    };
}

/// Induction core of [`lemma_replay_trace_deterministic`].
proof fn lemma_replay_prefix_deterministic(
    cfg: AppConfig,
    klines: Seq<Kline>,
    s1: Seq<StrategyEngine>,
    s2: Seq<StrategyEngine>,
    i: int,
)
    requires
        replay_trace(cfg, klines, s1),
        replay_trace(cfg, klines, s2),
        0 <= i < klines.len(),
    ensures
        eq_state(s1[i], s2[i]),
    decreases i,
{
    if i == 0 {
        lemma_fresh_engine_deterministic(s1[0], s2[0], cfg);
    } else {
        lemma_replay_prefix_deterministic(cfg, klines, s1, s2, i - 1);
        assert(replay_step_rel(s1[i - 1], s1[i], klines[i - 1].close, klines[i]));
        assert(replay_step_rel(s2[i - 1], s2[i], klines[i - 1].close, klines[i]));
        let (mid1, r1) = choose|mid: StrategyEngine, r: Option<TradeSignal>|
            {
                &&& #[trigger] on_bar_rel(
                    s1[i - 1],
                    mid,
                    klines[i].close,
                    log_return_of(klines[i - 1].close as int, klines[i].close as int) as i64,
                    tick_of(klines[i]),
                    r,
                )
                &&& eq_state_core(s1[i], mid)
                &&& s1[i].position == match r {
                    Option::None => mid.position,
                    Option::Some(s) => Some(
                        ActivePosition {
                            signal: s,
                            bars_held: 0,
                            pnl_frac: None,
                            exit_reason: None,
                        },
                    ),
                }
            };
        let (mid2, r2) = choose|mid: StrategyEngine, r: Option<TradeSignal>|
            {
                &&& #[trigger] on_bar_rel(
                    s2[i - 1],
                    mid,
                    klines[i].close,
                    log_return_of(klines[i - 1].close as int, klines[i].close as int) as i64,
                    tick_of(klines[i]),
                    r,
                )
                &&& eq_state_core(s2[i], mid)
                &&& s2[i].position == match r {
                    Option::None => mid.position,
                    Option::Some(s) => Some(
                        ActivePosition {
                            signal: s,
                            bars_held: 0,
                            pnl_frac: None,
                            exit_reason: None,
                        },
                    ),
                }
            };
        lemma_on_bar_deterministic(
            s1[i - 1],
            mid1,
            r1,
            s2[i - 1],
            mid2,
            r2,
            klines[i].close,
            log_return_of(klines[i - 1].close as int, klines[i].close as int) as i64,
            tick_of(klines[i]),
        );
    }
}

/// Run-level determinism: any two reports that the replay contract admits
/// for the same bars and configuration agree on every field.  Together
/// with `run_backtest`'s `ensures`, replaying an identical bar sequence
/// through a fresh engine twice yields an identical report.
pub proof fn lemma_run_backtest_deterministic(
    cfg: AppConfig,
    bt_cfg: BacktestConfig,
    klines: Seq<Kline>,
    r1: PerfReport,
    r2: PerfReport,
)
    requires
        klines.len() >= 1,
        replay_report_rel(cfg, bt_cfg, klines, r1),
        replay_report_rel(cfg, bt_cfg, klines, r2),
    ensures
        r1.n_trades == r2.n_trades,
        r1.win_rate == r2.win_rate,
        r1.avg_win == r2.avg_win,
        r1.avg_loss == r2.avg_loss,
        r1.profit_factor == r2.profit_factor,
        r1.total_return == r2.total_return,
        r1.sharpe == r2.sharpe,
        r1.sortino == r2.sortino,
        r1.max_drawdown == r2.max_drawdown,
        r1.calmar == r2.calmar,
        r1.initial_equity == r2.initial_equity,
        r1.final_equity == r2.final_equity,
{
    let s1 = choose|states: Seq<StrategyEngine>|
        {
            &&& #[trigger] replay_trace(cfg, klines, states)
            &&& report_matches(
                r1,
                settle_spec(states.last(), klines.last().close).0,
                Seq::new(states.len(), |i: int| states[i].equity),
                cfg.initial_capital,
                settle_spec(states.last(), klines.last().close).1 as u64,
                bt_cfg.bars_per_year,
            )
        };
    let s2 = choose|states: Seq<StrategyEngine>|
        {
            &&& #[trigger] replay_trace(cfg, klines, states)
            &&& report_matches(
                r2,
                settle_spec(states.last(), klines.last().close).0,
                Seq::new(states.len(), |i: int| states[i].equity),
                cfg.initial_capital,
                settle_spec(states.last(), klines.last().close).1 as u64,
                bt_cfg.bars_per_year,
            )
        };
    lemma_replay_trace_deterministic(cfg, klines, s1, s2);
    assert(eq_state(s1.last(), s2.last()));
    assert(settle_spec(s1.last(), klines.last().close).0 == settle_spec(
        s2.last(),
        klines.last().close,
    ).0);
    assert(settle_spec(s1.last(), klines.last().close).1 == settle_spec(
        s2.last(),
        klines.last().close,
    ).1);
    assert(Seq::new(s1.len(), |i: int| s1[i].equity) =~= Seq::new(s2.len(), |i: int| s2[i].equity));
}

} // verus!
