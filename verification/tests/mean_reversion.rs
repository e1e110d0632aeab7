use mft_engine::ou::{OuParams, OuSignalEngine};

fn fx(x: f64) -> u64 {
    (x * 1e9).round() as u64
}

#[test]
fn ou_estimate_mean_reverting() {
    // Simulate an AR(1) path: X_t = 5.0 + 0.90 * X_{t-1} + eps_t.
    let mut prices = vec![100.0f64; 200];
    let seed_noise: Vec<f64> = (0..199).map(|i| 0.01 * ((i % 7) as f64 - 3.0)).collect();
    for i in 1..200 {
        prices[i] = 5.0 + 0.90 * prices[i - 1] + seed_noise[i - 1];
    }
    let units: Vec<u64> = prices.iter().map(|p| fx(*p)).collect();
    let params = OuParams::estimate(&units).expect("should fit");
    let b = params.b as f64 / 1e9;
    assert!((b - 0.90).abs() < 0.05, "b = {}", b);
    // Half-life close to -ln(2)/ln(0.90), about 6.6 bars.
    let half_life = params.half_life as f64 / 1e9;
    assert!(half_life > 5.0 && half_life < 10.0);
}

#[test]
fn p_continuation_extreme_z() {
    let mut engine = OuSignalEngine::new(60);
    // Price rising away from its mean.
    let prices: Vec<f64> = (0..59).map(|i| 100.0 + 0.1 * (i as f64)).collect();
    for p in &prices {
        engine.push(fx(*p));
    }
    let p_cont = engine.p_continuation(fx(105.0));
    // With a high Z, the continuation probability is low.
    if let Some(p) = p_cont {
        assert!((p as f64 / 1e9) < 0.5, "P(cont) = {p}");
    }
}

#[test]
fn ou_rejects_short_window() {
    let units: Vec<u64> = (0..9).map(|i| fx(100.0 + i as f64)).collect();
    assert!(OuParams::estimate(&units).is_none());
}

#[test]
fn ou_rejects_trending_series() {
    // A strictly linear trend fits with slope 1 or above: not mean-reverting.
    let units: Vec<u64> = (0..50).map(|i| fx(100.0 + (i as f64))).collect();
    assert!(OuParams::estimate(&units).is_none());
}

#[test]
fn ou_rejects_constant_series() {
    // A constant regressor has zero variance: no fit.
    let units: Vec<u64> = vec![fx(100.0); 50];
    assert!(OuParams::estimate(&units).is_none());
}

#[test]
fn ou_no_signal_without_fit() {
    let mut engine = OuSignalEngine::new(30);
    for i in 0..10 {
        engine.push(fx(100.0 + i as f64));
    }
    // The window is not full: no fit, no Z-score, no signal.
    assert!(engine.z_score(fx(100.0)).is_none());
    assert_eq!(engine.signal(fx(100.0), fx(2.0)), 0);
    assert!(!engine.should_exit(fx(100.0), fx(0.5), fx(0.3)));
    assert!(engine.last_z().is_none());
}

#[test]
fn p_continuation_decreases_with_distance() {
    // Fit a mean-reverting window, then probe prices further and further
    // from the equilibrium: the continuation probability must not rise,
    // and far out it must be below one half.
    let mut prices = vec![100.0f64; 80];
    let noise: Vec<f64> = (0..79).map(|i| 0.01 * ((i % 7) as f64 - 3.0)).collect();
    for i in 1..80 {
        prices[i] = 5.0 + 0.90 * prices[i - 1] + noise[i - 1];
    }
    let mut engine = OuSignalEngine::new(80);
    for p in &prices {
        engine.push(fx(*p));
    }
    assert!(engine.params.is_some());
    let mu = engine.params.as_ref().unwrap().mu as f64 / 1e9;
    let mut last = u64::MAX;
    for k in 0..8 {
        let probe = fx(mu + 0.05 * k as f64);
        let p = engine.p_continuation(probe).unwrap();
        assert!(p <= last, "p_continuation rose at step {k}");
        last = p;
    }
    let far = engine.p_continuation(fx(mu + 10.0)).unwrap();
    assert!((far as f64 / 1e9) < 0.5);
}
