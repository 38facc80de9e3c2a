//! Fast, memory-efficient lookup of bilingual dictionary entries.
//!
//! The crate offers a write-once/read-many dictionary storage abstraction,
//! a disk-backed hash-indexed backend, a compact binary codec for entries,
//! a streaming importer for structured dictionary exports, and an aggregator
//! that fans a lookup out over several dictionaries.

pub mod cdb_dict;
pub mod codec;
pub mod database;
pub mod dictionary;
pub mod importer;
mod json;
pub mod memory;
pub mod metadata;
pub mod query;
pub mod storage;
