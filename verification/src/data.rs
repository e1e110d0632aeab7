//! OHLCV bars and their derived quantities.
//!
//! A bar yields a clamped log-return against a reference price and a
//! synthetic flow tick classified by the taker-buy volume fraction.

use vstd::prelude::*;
use vstd::arithmetic::div_mod::{lemma_div_is_ordered, lemma_div_by_multiple, lemma_div_pos_is_pos};
use crate::fixed::{SCALE, PRICE_CAP, VOL_CAP, clip, mdu};
use crate::tables::{neg_ln, neg_ln_approx};
use crate::flow::TradeTick;

verus! {

/// One OHLCV bar.  Prices and volumes are in SCALE units; timestamps are
/// Unix milliseconds.
#[derive(Debug, Clone)]
pub struct Kline {
    /// Bar open timestamp.
    pub open_time: i64,
    /// Open price.
    pub open: u64,
    /// High price.
    pub high: u64,
    /// Low price.
    pub low: u64,
    /// Close price.
    pub close: u64,
    /// Base-asset volume.
    pub volume: u64,
    /// Bar close timestamp.
    pub close_time: i64,
    /// Quote-asset volume.
    pub quote_vol: u64,
    /// Number of trades in the bar.
    pub n_trades: i64,
    /// Taker-buy base-asset volume.
    pub taker_buy_base_vol: u64,
}

/// The log-return `ln(close / open)` in SCALE units, clamped to one unit of
/// magnitude; zero for a non-positive reference price.
pub open spec fn log_return_of(open: int, close: int) -> int {
    if open <= 0 || close <= 0 {
        0
    } else if close == open {
        0
    } else if close < open {
        let ratio = close * SCALE / open;
        if ratio < 1 {
            -(SCALE as int)
        } else {
            -clip(neg_ln_approx(ratio), 0, SCALE as int)
        }
    } else {
        let ratio = open * SCALE / close;
        if ratio < 1 {
            SCALE as int
        } else {
            clip(neg_ln_approx(ratio), 0, SCALE as int)
        }
    }
}

/// Clamped log-return between two prices, computed through the tabulated
/// logarithm: `ln(c/p) = -ln(p/c)`, with the smaller price over the larger
/// always in (0, 1).
pub fn log_return_between(open: u64, close: u64) -> (r: i64)
    requires
        open <= PRICE_CAP,
        close <= PRICE_CAP,
    ensures
        r == log_return_of(open as int, close as int),
        -(SCALE as int) <= r <= SCALE,
{
    if open == 0 || close == 0 {
        return 0;
    }
    if close == open {
        return 0;
    }
    if close < open {
        proof {
            assert((close as int * SCALE as int) < open as int * SCALE as int) by (nonlinear_arith)
                requires
                    close < open,
            ;
            vstd::arithmetic::div_mod::lemma_multiply_divide_lt(
                close as int * SCALE as int,
                open as int,
                SCALE as int,
            );
            lemma_div_pos_is_pos(close as int * SCALE as int, open as int);
        }
        let ratio: u64 = mdu(close, SCALE, open);
        if ratio < 1 {
            -(SCALE as i64)
        } else {
            let nl: u64 = neg_ln(ratio);
            let c: u64 = if nl > SCALE {
                SCALE
            } else {
                nl
            };
            -(c as i64)
        }
    } else {
        proof {
            assert((open as int * SCALE as int) < close as int * SCALE as int) by (nonlinear_arith)
                requires
                    open < close,
            ;
            vstd::arithmetic::div_mod::lemma_multiply_divide_lt(
                open as int * SCALE as int,
                close as int,
                SCALE as int,
            );
            lemma_div_pos_is_pos(open as int * SCALE as int, close as int);
        }
        let ratio: u64 = mdu(open, SCALE, close);
        if ratio < 1 {
            SCALE as i64
        } else {
            let nl: u64 = neg_ln(ratio);
            let c: u64 = if nl > SCALE {
                SCALE
            } else {
                nl
            };
            c as i64
        }
    }
}

/// The synthetic flow tick of a bar: the close price, the bar volume, and
/// a buy classification exactly when the taker-buy fraction exceeds one
/// half.
pub open spec fn tick_of(k: Kline) -> TradeTick {
    TradeTick {
        price: k.close,
        volume: k.volume,
        is_buy: 2 * k.taker_buy_base_vol > k.volume,
        ts_ms: k.close_time,
    }
}

impl Kline {
    /// Range invariant of a bar.
    pub open spec fn wf(self) -> bool {
        &&& self.open <= PRICE_CAP
        &&& self.high <= PRICE_CAP
        &&& self.low <= PRICE_CAP
        &&& self.close <= PRICE_CAP
        &&& self.volume <= VOL_CAP
        &&& self.taker_buy_base_vol <= self.volume
    }

    /// Log-return of this bar: `ln(close / open)`, clamped.
    pub fn log_return(&self) -> (r: i64)
        requires
            self.wf(),
        ensures
            r == log_return_of(self.open as int, self.close as int),
            -(SCALE as int) <= r <= SCALE,
    {
        log_return_between(self.open, self.close)
    }

    /// Approximate taker-sell volume: total volume less taker-buy volume,
    /// floored at zero.
    pub fn taker_sell_vol(&self) -> (r: u64)
        ensures
            r == if self.volume >= self.taker_buy_base_vol {
                self.volume - self.taker_buy_base_vol
            } else {
                0int
            },
    {
        if self.volume >= self.taker_buy_base_vol {
            self.volume - self.taker_buy_base_vol
        } else {
            0
        }
    }

    /// Synthetic flow tick for this bar: classified as buyer-initiated
    /// exactly when the taker-buy fraction exceeds one half.
    pub fn to_tick(&self) -> (r: TradeTick)
        requires
            self.wf(),
        ensures
            r == tick_of(*self),
            r.price == self.close,
            r.volume == self.volume,
            r.is_buy == (2 * self.taker_buy_base_vol > self.volume),
            r.ts_ms == self.close_time,
            r.wf(),
    {
        let is_buy: bool = 2 * self.taker_buy_base_vol > self.volume;
        TradeTick { price: self.close, volume: self.volume, is_buy, ts_ms: self.close_time }
    }
}

} // verus!
