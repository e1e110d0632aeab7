use mft_engine::flow::{OfiEngine, VpinEngine, FlowAnalyser, TradeTick};

fn buy_tick(price: f64, vol: f64) -> TradeTick {
    TradeTick {
        price: (price * 1e9).round() as u64,
        volume: (vol * 1e9).round() as u64,
        is_buy: true,
        ts_ms: 0,
    }
}

fn sell_tick(price: f64, vol: f64) -> TradeTick {
    TradeTick {
        price: (price * 1e9).round() as u64,
        volume: (vol * 1e9).round() as u64,
        is_buy: false,
        ts_ms: 0,
    }
}

#[test]
fn ofi_all_buys() {
    let mut ofi = OfiEngine::new(10);
    for _ in 0..10 {
        let v = ofi.push(&buy_tick(100.0, 1.0)) as f64 / 1e9;
        assert!((v - 1.0).abs() < 1e-9, "OFI = {v}");
    }
}

#[test]
fn ofi_balanced() {
    let mut ofi = OfiEngine::new(4);
    ofi.push(&buy_tick(100.0, 1.0));
    ofi.push(&sell_tick(100.0, 1.0));
    ofi.push(&buy_tick(100.0, 1.0));
    ofi.push(&sell_tick(100.0, 1.0));
    assert!((ofi.ofi() as f64 / 1e9).abs() < 1e-9);
}

#[test]
fn ofi_all_sells_is_minus_one() {
    let mut ofi = OfiEngine::new(8);
    for _ in 0..12 {
        ofi.push(&sell_tick(10.0, 2.5));
    }
    assert_eq!(ofi.ofi(), -1_000_000_000);
    assert!(ofi.is_full());
    assert_eq!(ofi.len(), 8);
}

#[test]
fn ofi_empty_window_is_zero() {
    let ofi = OfiEngine::new(4);
    assert_eq!(ofi.ofi(), 0);
    let mut z = OfiEngine::new(4);
    let v = z.push(&buy_tick(100.0, 0.0));
    // Zero volume keeps the window empty of volume: OFI stays 0.
    assert_eq!(v, 0);
}

#[test]
fn ofi_three_to_one_imbalance() {
    let mut ofi = OfiEngine::new(4);
    ofi.push(&buy_tick(100.0, 1.0));
    ofi.push(&buy_tick(100.0, 1.0));
    ofi.push(&buy_tick(100.0, 1.0));
    ofi.push(&sell_tick(100.0, 1.0));
    // (3 - 1) / 4 = 0.5, exactly.
    assert_eq!(ofi.ofi(), 500_000_000);
}

#[test]
fn vpin_monotonic_buys() {
    let mut vpin = VpinEngine::new(100_000_000_000, 5); // bucket of 100 units
    for i in 0..600 {
        let tick = buy_tick(100.0 + i as f64, 10.0);
        vpin.push(&tick);
    }
    let v = vpin.vpin() as f64 / 1e9;
    // All buys: maximum imbalance, VPIN = 1.0.
    assert!(v > 0.8, "VPIN = {v}");
}

#[test]
fn vpin_undefined_before_first_bucket() {
    let mut vpin = VpinEngine::new(100_000_000_000, 5);
    let r = vpin.push(&buy_tick(100.0, 10.0));
    assert!(r.is_none());
    assert_eq!(vpin.buckets_complete(), 0);
}

#[test]
fn vpin_splits_volume_across_buckets() {
    // Bucket holds 10 units; one 25-unit tick closes two buckets and
    // leaves 5 units in the open one.
    let mut vpin = VpinEngine::new(10_000_000_000, 4);
    let r = vpin.push(&buy_tick(100.0, 25.0));
    assert_eq!(vpin.buckets_complete(), 2);
    assert_eq!(r, Some(1_000_000_000));
}

#[test]
fn vpin_balanced_alternation_is_low() {
    // Strictly alternating equal buys and sells within each bucket.
    let mut vpin = VpinEngine::new(2_000_000_000, 8);
    for i in 0..64 {
        let t = if i % 2 == 0 {
            buy_tick(100.0, 1.0)
        } else {
            sell_tick(100.0, 1.0)
        };
        vpin.push(&t);
    }
    assert_eq!(vpin.vpin(), 0);
}

#[test]
fn flow_analyser_direction_thresholds() {
    let mut fa = FlowAnalyser::new(4, 1_000_000_000_000_000, 4, 300_000_000);
    let s1 = fa.process(&buy_tick(100.0, 1.0));
    assert_eq!(s1.direction, 1); // OFI = 1.0 > 0.3
    let mut fa2 = FlowAnalyser::new(4, 1_000_000_000_000_000, 4, 300_000_000);
    let s2 = fa2.process(&sell_tick(100.0, 1.0));
    assert_eq!(s2.direction, -1);
    assert!(!s2.vpin_confirmed(350_000_000)); // VPIN unknown
}
