//! The immutable per-run parameter set shared by all components.
//!
//! All fractional parameters are fixed-point values in [`SCALE`] units.
//! A configuration is usable only when [`AppConfig::valid`] holds; the
//! executable [`AppConfig::validate`] decides exactly that predicate, so an
//! unverified caller can check a configuration before building an engine.

use vstd::prelude::*;
use crate::fixed::{SCALE, PRICE_CAP, VOL_CAP};
use crate::ou::{OU_WINDOW_CAP, Z_CAP};
use crate::flow::{OFI_WINDOW_CAP, VPIN_WINDOW_CAP};

verus! {

/// Default maker fee rate (two basis points), in SCALE units.
pub const DEFAULT_MAKER_FEE: u64 = 200_000;

/// Default taker fee rate (five basis points), in SCALE units.
pub const DEFAULT_TAKER_FEE: u64 = 500_000;

/// Default slippage allowance (three basis points), in SCALE units.
pub const DEFAULT_SLIPPAGE: u64 = 300_000;

/// Hard cap on account equity, in SCALE units (one billion in real terms).
pub const EQUITY_CAP: u64 = 1_000_000_000_000_000_000;

/// Largest accepted leverage multiplier.
pub const LEVERAGE_CAP: u32 = 100;

/// Immutable engine configuration.
#[derive(Debug, Clone)]
pub struct AppConfig {
    /// Initial account equity.
    pub initial_capital: u64,
    /// Hard cap on the fraction of equity risked per trade.
    pub risk_per_trade: u64,
    /// Leverage multiplier applied to realised PnL.
    pub max_leverage: u32,
    /// Maker fee rate (kept for completeness; entries pay taker).
    pub maker_fee: u64,
    /// Taker fee rate per side.
    pub taker_fee: u64,
    /// Slippage allowance per round trip.
    pub slippage: u64,
    /// GARCH long-run variance weight.
    pub garch_omega: u64,
    /// GARCH shock coefficient.
    pub garch_alpha: u64,
    /// GARCH persistence coefficient.
    pub garch_beta: u64,
    /// Z-score threshold to enter a position.
    pub ou_entry_z: u64,
    /// Z-score threshold to exit a position.
    pub ou_exit_z: u64,
    /// OU estimation window, in bars.
    pub ou_window: usize,
    /// OFI rolling window, in ticks.
    pub ofi_window: usize,
    /// Minimum |OFI| for a directional flow signal.
    pub ofi_threshold: u64,
    /// Volume per VPIN bucket.
    pub vpin_bucket_size: u64,
    /// Number of VPIN buckets retained.
    pub vpin_n_buckets: usize,
    /// Minimum VPIN confirming informed flow.
    pub vpin_threshold: u64,
    /// Minimum expected value to open a position.
    pub min_ev: u64,
    /// Minimum win probability to open a position.
    pub min_p_win: u64,
    /// Hard stop-loss as a fraction of the entry price.
    pub stop_loss_frac: u64,
    /// Exit when the continuation probability falls below this.
    pub exit_prob_threshold: u64,
    /// Maximum bars a position may be held.
    pub max_hold_bars: usize,
    /// Fractional-Kelly safety multiplier.
    pub kelly_scale: u64,
    /// Annualisation factor: bars per year.
    pub bars_per_year: u64,
}

impl AppConfig {
    /// Every parameter in range; fees, fractions, probabilities and
    /// thresholds at most one; GARCH stationary; windows within their caps.
    pub open spec fn valid(self) -> bool {
        &&& self.initial_capital <= EQUITY_CAP
        &&& self.risk_per_trade <= SCALE
        &&& 1 <= self.max_leverage <= LEVERAGE_CAP
        &&& self.maker_fee <= SCALE
        &&& self.taker_fee <= SCALE
        &&& self.slippage <= SCALE
        &&& 2 * self.taker_fee + self.slippage <= SCALE
        &&& self.garch_omega <= SCALE
        &&& self.garch_alpha + self.garch_beta < SCALE
        &&& self.ou_entry_z <= Z_CAP
        &&& self.ou_exit_z <= Z_CAP
        &&& 1 <= self.ou_window <= OU_WINDOW_CAP
        &&& 1 <= self.ofi_window <= OFI_WINDOW_CAP
        &&& self.ofi_threshold <= SCALE
        &&& 1 <= self.vpin_bucket_size <= VOL_CAP
        &&& 1 <= self.vpin_n_buckets <= VPIN_WINDOW_CAP
        &&& self.vpin_threshold <= SCALE
        &&& self.min_ev <= SCALE
        &&& self.min_p_win <= SCALE
        &&& self.stop_loss_frac <= SCALE
        &&& self.exit_prob_threshold <= SCALE
        &&& 1 <= self.max_hold_bars
        &&& self.kelly_scale <= SCALE
        &&& 1 <= self.bars_per_year <= SCALE
    }

    /// Decide [`AppConfig::valid`] at run time.
    pub fn validate(&self) -> (r: bool)
        ensures
            r == self.valid(),
    {
        self.initial_capital <= EQUITY_CAP && self.risk_per_trade <= SCALE && 1
            <= self.max_leverage && self.max_leverage <= LEVERAGE_CAP && self.maker_fee <= SCALE
            && self.taker_fee <= SCALE && self.slippage <= SCALE && 2 * (self.taker_fee as u128)
            + (self.slippage as u128) <= SCALE as u128 && self.garch_omega <= SCALE
            && (self.garch_alpha as u128) + (self.garch_beta as u128) < SCALE as u128
            && self.ou_entry_z <= Z_CAP && self.ou_exit_z <= Z_CAP && 1 <= self.ou_window
            && self.ou_window <= OU_WINDOW_CAP && 1 <= self.ofi_window && self.ofi_window
            <= OFI_WINDOW_CAP && self.ofi_threshold <= SCALE && 1 <= self.vpin_bucket_size
            && self.vpin_bucket_size <= VOL_CAP && 1 <= self.vpin_n_buckets && self.vpin_n_buckets
            <= VPIN_WINDOW_CAP && self.vpin_threshold <= SCALE && self.min_ev <= SCALE
            && self.min_p_win <= SCALE && self.stop_loss_frac <= SCALE && self.exit_prob_threshold
            <= SCALE && 1 <= self.max_hold_bars && self.kelly_scale <= SCALE && 1
            <= self.bars_per_year && self.bars_per_year <= SCALE
    }
}

} // verus!
