//! Importer for tabular trading-card collection exports.
//!
//! The library ingests a delimited-text export (one row per owned card),
//! normalizes accepted rows into canonical `Card` values, filters token
//! prints, isolates per-row parse failures for later diagnostics, and
//! renders the accepted cards as plain-text decklist lines.

pub mod text;
pub mod records;
pub mod row;
pub mod card;
pub mod filter;
pub mod pipeline;
pub mod laws;
