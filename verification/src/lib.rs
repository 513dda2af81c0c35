//! Sizing, TWAP and clip-scheduling logic of a directional arbitrage bot for
//! binary prediction markets.
pub mod decimal;
pub mod strategy;
pub mod twap;
pub mod config;
pub mod market_data;
pub mod ui;
pub mod panel;
pub mod workflow;
