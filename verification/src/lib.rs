//! A statistical-arbitrage pair-trading core.
//!
//! The library holds the verified logic of a two-leg pair-trading engine:
//! order-size and price quantization, the rolling statistics kernel
//! (mean/std, OLS hedge ratio, AR(1) half-life and a Dickey-Fuller
//! p-value proxy), pair eligibility evaluation, the per-pair entry/exit
//! decision rules, candidate arbitration, and the two-leg order
//! coordinator expressed as a state machine over plain values.
//!
//! Monetary quantities (prices, sizes, notionals) are fixed-point
//! integers counted in atoms of 10^-9 units; statistical quantities
//! (log prices, z-scores, hedge ratios, p-values) are fixed-point
//! integers counted in micro-units of 10^-6. The host program performs
//! all venue I/O and converts between these representations and its own
//! numeric types at the boundary.

pub mod arbitrate;
pub mod config;
pub mod decide;
pub mod engine;
pub mod evaluate;
pub mod fixed;
pub mod notify;
pub mod orders;
pub mod reconcile;
pub mod regress;
pub mod state;
pub mod stats;
pub mod text;
