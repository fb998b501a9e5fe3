//! Attribution of line coverage to the authors who last changed each line.
//!
//! The library reads per-file line coverage out of a Cobertura document,
//! joins it with per-line authorship ("blame") and keeps running per-author
//! totals.
pub mod analysis;
pub mod cobertura;
pub mod config;
pub mod coverage;
pub mod decimal;
pub mod git;
pub mod github;
pub mod jsondoc;
pub mod report;
