//! Consensus scheduling for earnings trades.
//!
//! The library reconciles conflicting earnings-date estimates from several
//! data sources into one consensus date with an explicit agreement breakdown,
//! and maps that date onto entry/exit dates for a fixed set of options-trading
//! strategies, using weekday-aware calendar arithmetic.
//!
//! The pieces: [`calendar`] holds the weekday-only date arithmetic;
//! [`sources`] the fixed provider registry and the join of a fetch round;
//! [`earnings`] the date-consensus engine; [`strategy`] the per-strategy
//! entry/exit date rules; [`backtest`] the parsing and ranking of backtest
//! rows; [`codec`] the persisted form of a consensus, with a proved round
//! trip; and [`digits`] the decimal formatting and parsing under them.

pub mod backtest;
pub mod calendar;
pub mod codec;
pub mod digits;
pub mod earnings;
pub mod sources;
pub mod strategy;
