//! Plain trading data types shared with the execution layer.

use vstd::prelude::*;
use crate::fixed::PRICE_CAP;

verus! {

/// Order side of a signal handed to the execution layer.
#[derive(Debug, Clone, Copy, PartialEq, Eq, Structural)]
pub enum Side {
    Buy,
    Sell,
    Flat,
}

/// A directed order request for one symbol.
#[derive(Debug, Clone)]
pub struct Signal {
    /// Instrument symbol.
    pub symbol: String,
    /// Which side to trade.
    pub side: Side,
    /// Reference price, in SCALE units.
    pub price: u64,
    /// Unix timestamp in seconds.
    pub timestamp: i64,
}

/// An exchange-side position snapshot.
#[derive(Debug, Clone)]
pub struct Position {
    /// Instrument symbol.
    pub symbol: String,
    /// Signed position size, in SCALE units.
    pub amount: i64,
    /// Average entry price, in SCALE units.
    pub entry_price: u64,
    /// Leverage multiplier.
    pub leverage: u32,
    /// Whether the margin is isolated.
    pub isolated: bool,
}

impl Signal {
    /// Build a signal; the fields are stored unchanged.
    pub fn new(symbol: String, side: Side, price: u64, timestamp: i64) -> (r: Signal)
        requires
            price <= PRICE_CAP,
        ensures
            r.symbol == symbol,
            r.side == side,
            r.price == price,
            r.timestamp == timestamp,
    {
        Signal { symbol, side, price, timestamp }
    }
}

} // verus!
