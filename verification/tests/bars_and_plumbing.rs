use mft_engine::data::{Kline, log_return_between};
use mft_engine::live::{poll_seconds, OrderResponse, BinanceError};
use mft_engine::models::{Side, Signal, Position};
use mft_engine::executor::BinanceExecutor;

fn fx(x: f64) -> u64 {
    (x * 1e9).round() as u64
}

fn kline(open: f64, close: f64, volume: f64, taker_buy: f64) -> Kline {
    Kline {
        open_time: 0,
        open: fx(open),
        high: fx(open.max(close)),
        low: fx(open.min(close)),
        close: fx(close),
        volume: fx(volume),
        close_time: 59_999,
        quote_vol: fx(volume * close),
        n_trades: 1,
        taker_buy_base_vol: fx(taker_buy),
    }
}

#[test]
fn log_return_flat_is_zero() {
    assert_eq!(log_return_between(fx(100.0), fx(100.0)), 0);
    assert_eq!(kline(100.0, 100.0, 1.0, 0.5).log_return(), 0);
    assert_eq!(log_return_between(0, fx(100.0)), 0);
}

#[test]
fn log_return_matches_natural_log() {
    let up = kline(100.0, 105.0, 1.0, 0.5).log_return() as f64 / 1e9;
    assert!((up - 0.05f64.ln_1p()).abs() < 1e-3, "up = {up}");
    let down = kline(100.0, 95.0, 1.0, 0.5).log_return() as f64 / 1e9;
    assert!((down - (-0.05f64).ln_1p()).abs() < 1e-3, "down = {down}");
}

#[test]
fn tick_classification_by_taker_fraction() {
    let buy_bar = kline(100.0, 101.0, 10.0, 6.0);
    let t = buy_bar.to_tick();
    assert!(t.is_buy);
    assert_eq!(t.price, fx(101.0));
    assert_eq!(t.volume, fx(10.0));
    let sell_bar = kline(100.0, 101.0, 10.0, 4.0);
    assert!(!sell_bar.to_tick().is_buy);
    // Exactly one half is not a buy.
    let even_bar = kline(100.0, 101.0, 10.0, 5.0);
    assert!(!even_bar.to_tick().is_buy);
}

#[test]
fn taker_sell_volume_floors_at_zero() {
    let b = kline(100.0, 101.0, 10.0, 6.0);
    assert_eq!(b.taker_sell_vol(), fx(4.0));
    let odd = kline(100.0, 101.0, 1.0, 2.0);
    assert_eq!(odd.taker_sell_vol(), 0);
}

#[test]
fn poll_seconds_intervals() {
    assert_eq!(poll_seconds("1m"), 58);
    assert_eq!(poll_seconds("3m"), 178);
    assert_eq!(poll_seconds("5m"), 298);
    assert_eq!(poll_seconds("15m"), 898);
    assert_eq!(poll_seconds("30m"), 1798);
    assert_eq!(poll_seconds("2h"), 58);
}

#[test]
fn test_library_imports() {
    // The public types of the execution boundary construct cleanly.
    let exec = BinanceExecutor::new("key".to_string(), "secret".to_string());
    assert_eq!(exec.api_key, "key");
    let sig = Signal::new("BTCUSDT".to_string(), Side::Buy, fx(50_000.0), 0);
    assert_eq!(sig.side, Side::Buy);
    let pos = Position {
        symbol: "BTCUSDT".to_string(),
        amount: fx(0.5) as i64,
        entry_price: fx(50_000.0),
        leverage: 10,
        isolated: true,
    };
    assert_eq!(pos.leverage, 10);
    let resp = OrderResponse {
        order_id: 7,
        symbol: "BTCUSDT".to_string(),
        status: "FILLED".to_string(),
        order_type: "MARKET".to_string(),
        side: "BUY".to_string(),
        orig_qty: "0.5".to_string(),
        executed_qty: "0.5".to_string(),
        avg_price: "50000.0".to_string(),
    };
    assert_eq!(resp.order_id, 7);
    let err = BinanceError { code: -1021, msg: "timestamp".to_string() };
    assert_eq!(err.code, -1021);
}
