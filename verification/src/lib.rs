//! Format-preserving editing of a package manifest's dependency tables.
//!
//! The crate turns terse crate references (`name`, `name@req`, a local path,
//! `+feature`) into fully populated dependency records, merges them against
//! whatever the manifest already contains, computes which features become
//! transitively active, and commits the result into an in-memory document
//! model while preserving the order of untouched entries.

pub mod args;
pub mod dep;
pub mod errors;
pub mod features;
pub mod lookup;
pub mod manifest;
pub mod parse;
pub mod pipeline;
pub mod report;
pub mod resolve;
pub mod text;
