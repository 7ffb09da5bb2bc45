//! Resolves a process environment from several prioritised sources: a remote
//! parameter store, files of `KEY=value` lines, literal lines, the output of
//! helper programs, and application/target labels.
//!
//! The library holds the logic: the line format, the merge order, the key
//! extraction for hierarchical store entries and the output formats. Reading
//! files, listing the remote store and running programs is left to the caller,
//! which hands the results in as plain values.
pub mod api;
pub mod codec;
pub mod error;
pub mod options;
pub mod output;
pub mod types;

pub use error::Error;
