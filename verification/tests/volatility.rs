use mft_engine::fixed::SCALE;
use mft_engine::garch::{Garch11, VolRegime, garch_filter};

fn fx(x: f64) -> u64 {
    (x * 1e9).round() as u64
}

fn to_f(u: u64) -> f64 {
    u as f64 / 1e9
}

#[test]
fn garch_stationarity() {
    let g = Garch11::new(fx(1e-6), fx(0.10), fx(0.85), 525_600);
    let longrun = 1e-6 / (1.0 - 0.10 - 0.85);
    assert!((to_f(g.sigma2) - longrun).abs() < 1e-12);
}

#[test]
fn garch_update_monotonic() {
    let mut g = Garch11::new(fx(1e-6), fx(0.10), fx(0.85), 525_600);
    let spike_return: i64 = fx(0.05) as i64; // 5% shock
    g.update(spike_return, 0);
    g.update(0, 0);
    let after_shock = g.sigma2;
    g.update(0, 0);
    let after_calm = g.sigma2;
    // After a shock the variance is elevated; a calm bar decays it.
    assert!(after_shock > after_calm);
}

#[test]
fn garch_spike_decays_monotonically() {
    let mut g = Garch11::new(fx(1e-6), fx(0.10), fx(0.85), 525_600);
    g.update(fx(0.05) as i64, 0);
    g.update(0, 0);
    let mut prev = g.sigma2;
    for _ in 0..20 {
        g.update(0, 0);
        assert!(g.sigma2 <= prev);
        prev = g.sigma2;
    }
}

#[test]
fn garch_forecast_one_step_is_current() {
    let mut g = Garch11::new(fx(1e-6), fx(0.10), fx(0.85), 525_600);
    g.update(fx(0.02) as i64, 0);
    g.update(0, 0);
    assert_eq!(g.forecast_variance(1), g.sigma2);
}

#[test]
fn garch_forecast_converges_to_longrun() {
    let mut g = Garch11::new(fx(1e-6), fx(0.10), fx(0.85), 525_600);
    g.update(fx(0.05) as i64, 0);
    g.update(0, 0);
    let longrun = fx(1e-6) * 1_000_000_000 / (1_000_000_000 - fx(0.10) - fx(0.85));
    // A long horizon forgets the current shock and approaches the
    // long-run variance.
    let far = g.forecast_variance(500);
    let near = g.forecast_variance(2);
    let d_far = (far as i64 - longrun as i64).abs();
    let d_near = (near as i64 - longrun as i64).abs();
    assert!(d_far <= d_near);
}

#[test]
fn garch_regime_thresholds() {
    // Annualised sigma = sqrt(sigma2 * bars_per_year): pick sigma2 so the
    // regime lands in each band with bars_per_year = 1.
    let low = Garch11 {
        omega: 1,
        alpha: 0,
        beta: 0,
        sigma2: fx(0.1) * 1, // sqrt(0.1) ~ 0.316 < 0.40
        prev_epsilon: 0,
        bars_per_year: 1,
    };
    assert_eq!(low.regime(), VolRegime::Low);
    let normal = Garch11 { sigma2: fx(0.25), ..low.clone() }; // sqrt = 0.5
    assert_eq!(normal.regime(), VolRegime::Normal);
    let high = Garch11 { sigma2: fx(0.81), ..low }; // sqrt = 0.9
    assert_eq!(high.regime(), VolRegime::High);
}

#[test]
fn garch_filter_tracks_updates() {
    let mut g = Garch11::new(fx(1e-6), fx(0.10), fx(0.85), 525_600);
    let mut g2 = g.clone();
    let rets: Vec<i64> = vec![fx(0.01) as i64, -(fx(0.02) as i64), 0, fx(0.005) as i64];
    let vars = garch_filter(&mut g, &rets);
    assert_eq!(vars.len(), 4);
    for (i, r) in rets.iter().enumerate() {
        g2.update(*r, 0);
        assert_eq!(vars[i], g2.sigma2);
    }
}

#[test]
fn garch_estimate_from_returns_stationary() {
    let rets: Vec<i64> = (0..100).map(|i| ((i % 5) - 2) * 1_000_000i64).collect();
    let g = Garch11::estimate_from_returns(&rets, 525_600);
    assert_eq!(g.alpha, 100_000_000);
    assert_eq!(g.beta, 850_000_000);
    assert!(g.alpha + g.beta < SCALE);
    assert!(g.omega >= 1);
}
