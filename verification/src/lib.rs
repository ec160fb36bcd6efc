//! Validation harness for a spreadsheet-calculation engine.
//!
//! The library holds the verified core of the harness: loading declarative
//! test specifications and flattening them into runnable cases and skip
//! cases, synthesizing minimal specification documents for the subject
//! binary, scanning the oracle's recalculated tabular output, and
//! reconciling actual against expected values under three execution
//! strategies.  All subprocess and file handling lives outside the library
//! and feeds it plain values.

pub mod engine;
pub mod num;
pub mod runner;
pub mod text;
pub mod types;
pub mod ui;
