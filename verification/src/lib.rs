//! A verified library for filtering CSV tables.
//!
//! The library reads nothing itself: callers hand it plain values (header
//! rows, data rows, directory listings, the current directory) and it
//! computes the configured result. It covers
//!
//! * resolving a configured path pattern with an embedded `{regex}`
//!   placeholder to the best matching candidate file,
//! * retaining a configured subset of columns, in header order,
//! * filtering rows by per-column allow-lists,
//! * deduplicating rows by key columns, and
//! * the configuration model with its merge and clean-up rules.

pub mod cli;
pub mod config;
pub mod error;
pub mod folder_types;
pub mod handler;
pub mod levenshtein;
pub mod output;
pub mod paths;
pub mod prelude;
pub mod processor;
pub mod resolver;
pub mod retained;
pub mod strutil;

pub use error::Error;
