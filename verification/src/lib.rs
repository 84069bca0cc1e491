//! Daily price history for a portfolio of securities.
//!
//! The library keeps one price series per security, merges fetched prices
//! into it, reconciles stock splits and dividends, and derives coverage
//! statistics and position timelines from it. It reads and writes no file
//! and sends no request: callers hand it texts, bytes and decoded answers,
//! and persist what it returns.
//!
//! Amounts are whole numbers of millionths and dates are days since
//! 1970-01-01, so that every rule is exact integer arithmetic.

pub mod actions;
pub mod calendar;
pub mod coverage;
pub mod fetch;
pub mod number;
pub mod order;
pub mod position;
pub mod price;
pub mod price_file;
pub mod report;
pub mod split;
pub mod store;
pub mod symbol;
pub mod sync;
pub mod text;
