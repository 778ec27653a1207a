//! A verified ledger settlement and query engine for digital-currency
//! transfers.
//!
//! The engine keeps three stores: currency records (one per issued unit),
//! lineage edges (which outputs descend from which inputs) and an
//! append-only exchange log (one entry per settled transfer). A settlement
//! atomically destroys the spent input units, mints the output units,
//! links them and logs the transfer; queries serve point lookups, filtered
//! paginated listings and time-windowed aggregates over the same stores.

pub mod types;
pub mod hexcodec;
pub mod ledger;
pub mod query;
pub mod response;
pub mod laws;
pub mod sqlgen;
