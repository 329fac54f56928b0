//! A broker between a serial sensor device and a time-series store.
//!
//! Raw messages of the device are parsed into readings ([`parser`]), readings
//! are gathered over a window and summarized by measurement
//! ([`data_manipulation`], [`ingest`]), and the summaries wait in a bounded
//! buffer until the next flush takes them to the store ([`cache`]).

pub mod arduino;
pub mod cache;
pub mod clock;
pub mod config;
pub mod data_manipulation;
pub mod errors;
pub mod ingest;
pub mod json;
pub mod parser;
pub mod routes;
pub mod text;
