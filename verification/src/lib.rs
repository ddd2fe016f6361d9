//! An embedded, transactional, schema-aware fact store.
//!
//! The store persists a log of immutable assertions ("datoms") of the form
//! `(entity, attribute, value, transaction, added)` and exposes a
//! transact interface modeled on EAV stores.  The heart of the crate is the
//! transactor: the pipeline that takes structured input (entities containing
//! temporary IDs and lookup references), resolves it into a sorted, validated,
//! schema-consistent set of datom additions and retractions, updates the
//! metadata (schema, partitions), and writes the transaction atomically.

pub mod datoms;
pub mod db;
pub mod entities;
pub mod errors;
pub mod internal_types;
pub mod keyed;
pub mod laws;
pub mod metadata;
pub mod schema;
pub mod stores;
pub mod timelines;
pub mod tx;
pub mod types;
pub mod upsert_resolution;
