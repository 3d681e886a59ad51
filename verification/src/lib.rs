//! Conversion of tabular data (CSV, JSON, spreadsheets) to Parquet: the
//! parsing, type inference, value conversion and layout rules.
pub mod analysis;
pub mod calendar;
pub mod cli;
pub mod conversion;
pub mod export;
pub mod inspect;
pub mod json;
pub mod paths;
pub mod schema;
pub mod text;
pub mod tui;
pub mod utils;
pub mod xlsx;
