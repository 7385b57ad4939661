//! Trade journal core: parsing broker execution logs, rebuilding round-trip
//! trades from fills, deriving profit and loss per trade, and aggregating
//! trades into daily, period and equity-curve reports.
//!
//! All amounts are fixed-point [`decimal::Decimal`] values; every public
//! function is total and proved against a mathematical model of its result.

pub mod aggregations;
pub mod date;
pub mod decimal;
pub mod import;
pub mod models;
pub mod parser;
pub mod pnl;
pub mod repository;
pub mod sorting;
pub mod text;
pub mod trade_service;
