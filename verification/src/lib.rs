//! Verified core of a font catalog: classifies installed font families by
//! name-based keyword heuristics, derives an approximate weight label,
//! deduplicates the family list and assembles a sorted catalog of records.
//!
//! The host's font source is an opaque, fallible provider; the calls into it
//! stand behind trusted wrappers, and everything computed from their results
//! is verified.

pub mod catalog;
pub mod classify;
pub mod locate;
pub mod order;
pub mod provider;
