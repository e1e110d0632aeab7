use mft_engine::config::AppConfig;
use mft_engine::risk::{evaluate_ev, kelly_fraction, position_size, calculate_pnl, RiskLevels};

fn fx(x: f64) -> u64 {
    (x * 1e9).round() as u64
}

fn default_cfg() -> AppConfig {
    AppConfig {
        initial_capital: fx(1000.0),
        risk_per_trade: fx(0.01),
        max_leverage: 10,
        maker_fee: fx(0.0002),
        taker_fee: fx(0.0005),
        slippage: fx(0.0003),
        garch_omega: fx(1e-6),
        garch_alpha: fx(0.10),
        garch_beta: fx(0.85),
        ou_entry_z: fx(2.0),
        ou_exit_z: fx(0.5),
        ou_window: 120,
        ofi_window: 100,
        ofi_threshold: fx(0.3),
        vpin_bucket_size: fx(50.0),
        vpin_n_buckets: 50,
        vpin_threshold: fx(0.35),
        min_ev: fx(0.0001),
        min_p_win: fx(0.52),
        stop_loss_frac: fx(0.003),
        exit_prob_threshold: fx(0.30),
        max_hold_bars: 60,
        kelly_scale: fx(0.25),
        bars_per_year: 525_600,
    }
}

#[test]
fn config_validate_accepts_defaults() {
    assert!(default_cfg().validate());
    let mut bad = default_cfg();
    bad.garch_alpha = fx(0.6);
    bad.garch_beta = fx(0.5);
    assert!(!bad.validate());
}

#[test]
fn ev_positive_at_high_z() {
    let cfg = default_cfg();
    // Z = 3.0, sigma_OU = 50 price units, entry = 50000.
    let ev = evaluate_ev(fx(3.0) as i64, fx(50.0), fx(50_000.0), fx(0.5), &cfg);
    assert!(ev.is_viable, "EV = {}, fees = {}", ev.ev, ev.total_fee);
}

#[test]
fn ev_rejects_weak_signal() {
    let cfg = default_cfg();
    // Inside the exit band there is no travel and no edge.
    let ev = evaluate_ev(fx(0.2) as i64, fx(50.0), fx(50_000.0), fx(0.5), &cfg);
    assert!(!ev.is_viable);
    assert_eq!(ev.avg_win, 0);
}

#[test]
fn ev_zero_price_has_no_gain() {
    let cfg = default_cfg();
    let ev = evaluate_ev(fx(3.0) as i64, fx(50.0), 0, fx(0.5), &cfg);
    assert_eq!(ev.avg_win, 0);
}

#[test]
fn kelly_bounded_by_max_risk() {
    let frac = kelly_fraction(fx(0.6), fx(0.01) as i64, fx(0.005) as i64, fx(0.25), fx(0.01));
    assert!(frac <= fx(0.01), "Kelly fraction = {frac}");
}

#[test]
fn kelly_zero_for_nonpositive_odds() {
    assert_eq!(kelly_fraction(fx(0.6), 0, fx(0.005) as i64, fx(0.25), fx(0.01)), 0);
    assert_eq!(kelly_fraction(fx(0.6), -5, fx(0.005) as i64, fx(0.25), fx(0.01)), 0);
    assert_eq!(kelly_fraction(fx(0.6), fx(0.01) as i64, 0, fx(0.25), fx(0.01)), 0);
    // A losing edge yields zero as well.
    assert_eq!(kelly_fraction(fx(0.1), fx(0.001) as i64, fx(0.01) as i64, fx(0.25), fx(0.01)), 0);
}

#[test]
fn position_size_formula() {
    // 1000 * 0.01 * 10 / 50000 = 0.002 of the base asset.
    let q = position_size(fx(1000.0), fx(0.01), 10, fx(50_000.0));
    assert_eq!(q, fx(0.002));
    assert_eq!(position_size(fx(1000.0), fx(0.01), 10, 0), 0);
}

#[test]
fn pnl_net_of_fees() {
    let cfg = default_cfg();
    let (gross, net) = calculate_pnl(fx(100.0), fx(101.0), &cfg);
    assert_eq!(gross, fx(0.01) as i64);
    assert_eq!(net, fx(0.01) as i64 - fx(0.0013) as i64);
    let (gross_down, _) = calculate_pnl(fx(100.0), fx(99.0), &cfg);
    assert_eq!(gross_down, -(fx(0.01) as i64));
}

#[test]
fn risk_levels_stop_triggered() {
    let rl = RiskLevels::long(fx(50_000.0), fx(0.003), fx(50_300.0));
    assert!(!rl.is_stopped(fx(49_900.0)) || rl.is_stopped(fx(49_800.0)));
    assert!(rl.is_stopped(fx(49_850.0))); // 50000 * 0.997 = 49850
}

#[test]
fn risk_levels_short_and_targets() {
    let rl = RiskLevels::short(fx(100.0), fx(0.01), fx(95.0));
    assert_eq!(rl.stop_loss, fx(101.0));
    assert!(rl.is_stopped(fx(101.5)));
    assert!(!rl.is_stopped(fx(100.5)));
    assert!(rl.is_profit_taken(fx(94.0)));
    assert!(!rl.is_profit_taken(fx(96.0)));
    // Reward 5 over risk 1: ratio 5.
    assert_eq!(rl.rr_ratio(), fx(5.0));
}
