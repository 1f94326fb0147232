//! Portfolio ledger engine: folds a trade ledger into positions, values
//! them in a base currency from a price snapshot and groups them for reports.
//!
//! Quantities and money are fixed-point integers with six decimals
//! (see [`fixed::SCALE`]); dates are seconds since the Unix epoch.

pub mod args;
pub mod dates;
pub mod decimal;
pub mod fixed;
pub mod ledger;
pub mod model;
pub mod position;
pub mod prices;
pub mod report;
pub mod store;
pub mod text;
pub mod tsv;
pub mod valuation;
