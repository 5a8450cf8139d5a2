//! Generates synthetic JSON-like documents from a small declarative schema.
//!
//! A schema is compiled into a tree of value producers, which is then sampled
//! to obtain documents. Every sampled document is described exactly by the
//! producer's shape: see `default_values::yields`.
pub mod default_values;
pub mod json;
pub mod json_utils;
pub mod schema;
