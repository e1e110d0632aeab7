//! A mid-frequency trading decision engine for a single instrument, driven by
//! periodic OHLCV bars.
//!
//! The engine fuses a GARCH(1,1) volatility filter, an Ornstein-Uhlenbeck
//! mean-reversion signal and an order-flow/informed-trading signal into a
//! fee-aware, probability-gated entry/exit decision, and manages the lifecycle
//! of at most one open position at a time.  A chronological replay loop feeds
//! bars to the engine and reconciles equity.
//!
//! All quantities are fixed-point integers: fractional values carry
//! [`fixed::SCALE`] units per 1.0.  Every function is verified; the arithmetic
//! is proved free of overflow and the contracts pin the computed values.

pub mod fixed;
pub mod tables;
pub mod garch;
pub mod flow;
pub mod ou;
pub mod config;
pub mod risk;
pub mod strategy;
pub mod data;
pub mod metrics;
pub mod backtest;
pub mod models;
pub mod executor;
pub mod live;
