//! Enrichment of tabular records with official exchange rates: column
//! resolution, regex row filtering, a run-scoped rate cache, response
//! parsing, and the insertion of the rate into each row and the header.

pub mod column;
pub mod date;
pub mod enrich;
pub mod error;
pub mod filter;
pub mod rates;
pub mod text;
