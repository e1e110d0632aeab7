use mft_engine::config::AppConfig;
use mft_engine::data::Kline;
use mft_engine::flow::TradeTick;
use mft_engine::metrics::max_drawdown;
use mft_engine::strategy::{StrategyEngine, ExitReason};
use mft_engine::backtest::{BacktestConfig, run_backtest};

fn fx(x: f64) -> u64 {
    (x * 1e9).round() as u64
}

fn cfg_default() -> AppConfig {
    AppConfig {
        initial_capital: fx(1000.0),
        risk_per_trade: fx(0.01),
        max_leverage: 10,
        maker_fee: fx(0.0002),
        taker_fee: fx(0.0005),
        slippage: fx(0.0003),
        garch_omega: fx(1e-6),
        garch_alpha: fx(0.10),
        garch_beta: fx(0.85),
        ou_entry_z: fx(2.0),
        ou_exit_z: fx(0.5),
        ou_window: 120,
        ofi_window: 100,
        ofi_threshold: fx(0.3),
        vpin_bucket_size: fx(50.0),
        vpin_n_buckets: 50,
        vpin_threshold: fx(0.35),
        min_ev: fx(0.0001),
        min_p_win: fx(0.52),
        stop_loss_frac: fx(0.003),
        exit_prob_threshold: fx(0.30),
        max_hold_bars: 60,
        kelly_scale: fx(0.25),
        bars_per_year: 525_600,
    }
}

fn bar(prev_close: f64, close: f64, volume: f64, taker_buy: f64, t: i64) -> Kline {
    Kline {
        open_time: t * 60_000,
        open: fx(prev_close),
        high: fx(close.max(prev_close)),
        low: fx(close.min(prev_close)),
        close: fx(close),
        volume: fx(volume),
        close_time: t * 60_000 + 59_999,
        quote_vol: fx(volume * close),
        n_trades: 10,
        taker_buy_base_vol: fx(taker_buy),
    }
}

fn ar_path(n: usize, start: f64, noise_amp: f64) -> Vec<f64> {
    let mut prices = vec![start; n];
    for i in 1..n {
        let noise = noise_amp * (((i - 1) % 7) as f64 - 3.0);
        prices[i] = 5.0 + 0.90 * prices[i - 1] + noise;
    }
    prices
}

#[test]
fn max_drawdown_empty_curve() {
    let curve: Vec<u64> = Vec::new();
    assert_eq!(max_drawdown(&curve), 0);
}

#[test]
fn max_drawdown_flat() {
    let curve = vec![fx(100.0), fx(100.0), fx(100.0)];
    assert_eq!(max_drawdown(&curve), 0);
}

#[test]
fn max_drawdown_50_pct() {
    let curve = vec![fx(100.0), fx(120.0), fx(60.0), fx(80.0)];
    // Peak 120, trough 60: drawdown (60-120)/120 = -0.5, exactly.
    let dd = max_drawdown(&curve) as f64 / 1e9;
    assert!((dd + 0.5).abs() < 1e-9, "dd = {dd}");
}

#[test]
fn flat_price_series_stays_flat() {
    // A flat, volume-less series produces no signal and no state change.
    let cfg = cfg_default();
    let initial = cfg.initial_capital;
    let mut engine = StrategyEngine::new(cfg);
    for t in 0..4 {
        let tick = TradeTick { price: fx(100.0), volume: 0, is_buy: false, ts_ms: t };
        let sig = engine.on_bar(fx(100.0), 0, &tick);
        assert!(sig.is_none());
    }
    assert!(engine.position.is_none());
    assert_eq!(engine.closed_trades.len(), 0);
    assert_eq!(engine.equity, initial);
}

#[test]
fn one_reversion_cycle_takes_profit() {
    // A decaying path toward its equilibrium: once the window fits, the
    // price sits far above the fitted mean, a short is entered, and the
    // continued reversion triggers the mean-reversion exit with a gain.
    let mut cfg = cfg_default();
    cfg.ou_window = 20;
    cfg.max_hold_bars = 200;
    cfg.stop_loss_frac = fx(0.1);
    cfg.taker_fee = 0;
    cfg.slippage = 0;
    cfg.min_ev = 0;
    cfg.vpin_bucket_size = 1_000_000_000_000_000; // never completes
    let initial = cfg.initial_capital;
    let mut engine = StrategyEngine::new(cfg);
    let prices = ar_path(200, 100.0, 0.001);
    let mut opened = false;
    let mut i = 1usize;
    while i < prices.len() {
        let tick = TradeTick { price: fx(prices[i]), volume: fx(1.0), is_buy: false, ts_ms: i as i64 };
        let lr = mft_engine::data::log_return_between(fx(prices[i - 1]), fx(prices[i]));
        let sig = engine.on_bar(fx(prices[i]), lr, &tick);
        if let Some(s) = sig {
            assert_eq!(s.direction, -1, "expected a short against the elevated price");
            engine.open_position(s);
            opened = true;
            // One more bar: the continuation probability is negligible far
            // from equilibrium, so the exit fires at once.
            let j = i + 1;
            let tick2 = TradeTick { price: fx(prices[j]), volume: fx(1.0), is_buy: false, ts_ms: j as i64 };
            let lr2 = mft_engine::data::log_return_between(fx(prices[i]), fx(prices[j]));
            let sig2 = engine.on_bar(fx(prices[j]), lr2, &tick2);
            assert!(sig2.is_none());
            break;
        }
        i += 1;
    }
    assert!(opened, "no entry signal on the reverting path");
    assert!(engine.position.is_none(), "position should have closed");
    assert_eq!(engine.closed_trades.len(), 1);
    let trade = &engine.closed_trades[0];
    assert_eq!(trade.exit_reason, Some(ExitReason::TakeProfit));
    assert!(trade.pnl_frac.unwrap() > 0, "pnl = {:?}", trade.pnl_frac);
    assert!(engine.equity > initial, "a winning trade must raise equity");
}

#[test]
fn replay_is_deterministic() {
    // Identical bars and configuration twice: identical reports.
    let prices = ar_path(150, 100.0, 0.01);
    let mut klines: Vec<Kline> = Vec::new();
    for i in 0..prices.len() {
        let prev = if i == 0 { prices[0] } else { prices[i - 1] };
        let tb = if i % 2 == 0 { 0.8 } else { 0.2 };
        klines.push(bar(prev, prices[i], 1.0, tb, i as i64));
    }
    let r1 = run_backtest(&klines, cfg_default(), BacktestConfig::default());
    let r2 = run_backtest(&klines, cfg_default(), BacktestConfig::default());
    assert_eq!(r1.n_trades, r2.n_trades);
    assert_eq!(r1.win_rate, r2.win_rate);
    assert_eq!(r1.avg_win, r2.avg_win);
    assert_eq!(r1.avg_loss, r2.avg_loss);
    assert_eq!(r1.profit_factor, r2.profit_factor);
    assert_eq!(r1.total_return, r2.total_return);
    assert_eq!(r1.sharpe, r2.sharpe);
    assert_eq!(r1.sortino, r2.sortino);
    assert_eq!(r1.max_drawdown, r2.max_drawdown);
    assert_eq!(r1.calmar, r2.calmar);
    assert_eq!(r1.initial_equity, r2.initial_equity);
    assert_eq!(r1.final_equity, r2.final_equity);
}

#[test]
fn replay_tolerates_zero_close() {
    // A zero close carries no return and admits no entry; the run still
    // completes and reports deterministically.
    let mut klines: Vec<Kline> = Vec::new();
    for i in 0..10 {
        let close = if i == 5 { 0.0 } else { 100.0 };
        let prev = if i == 6 { 0.0 } else { 100.0 };
        klines.push(bar(prev, close, 1.0, 0.5, i as i64));
    }
    let report = run_backtest(&klines, cfg_default(), BacktestConfig::default());
    assert_eq!(report.n_trades, 0);
    assert_eq!(report.final_equity, fx(1000.0));
}

#[test]
fn replay_without_trades_keeps_equity() {
    // A short flat series never trades; equity is untouched.
    let mut klines: Vec<Kline> = Vec::new();
    for i in 0..10 {
        klines.push(bar(100.0, 100.0, 0.0, 0.0, i as i64));
    }
    let report = run_backtest(&klines, cfg_default(), BacktestConfig::default());
    assert_eq!(report.n_trades, 0);
    assert_eq!(report.initial_equity, fx(1000.0));
    assert_eq!(report.final_equity, fx(1000.0));
    assert_eq!(report.max_drawdown, 0);
}
