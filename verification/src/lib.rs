//! Verified core of the OXIS quantitative-finance toolkit: deterministic seeding,
//! calendar dates and series, currencies, option/curve identifiers and their
//! parsers, the market-data service boundary, and the REPL's completion and line
//! handling.

pub mod completion;
pub mod curve;
pub mod data;
pub mod date;
pub mod error;
pub mod ml;
pub mod money;
pub mod output;
pub mod portfolio;
pub mod pricing;
pub mod repl;
pub mod rng;
pub mod series;
pub mod stats;
pub mod stochastic;
pub mod text;
