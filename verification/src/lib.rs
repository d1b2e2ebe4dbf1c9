//! Decision core of a trading bot for short bitcoin markets on a prediction
//! exchange.

pub mod approvals;
pub mod auth;
pub mod backtest;
pub mod cli;
pub mod clock;
pub mod decimal;
pub mod feeds;
pub mod figure;
pub mod ids;
pub mod market;
pub mod order;
pub mod orderbook;
pub mod redeem;
pub mod sizing;
pub mod strategies;
pub mod text;
pub mod tracker;
pub mod trading;
