//! In-memory catalog of game records with exact and fuzzy name lookup.
//!
//! The crate normalizes display names to canonical stems, ingests raw
//! entries into immutable catalog snapshots, and answers lookup queries
//! through an exact stem index with a similarity-scan fallback. A
//! reader/writer lock lets many concurrent readers share the current
//! snapshot while a periodic refresh atomically replaces it.

pub mod matcher;
pub mod record;
pub mod snapshot;
pub mod stem;
pub mod store;
pub mod text;
