//! Typed field binding over a tabular entity store: query terms built from a
//! declared field list, per-batch pointer classification, per-row tuple
//! materialization, deferred structural mutation and group ordering.
//!
//! - `field`, `batch`: field access modes, batch records, resolution of a
//!   batch's fields and the three ways a row's tuple is read.
//! - `builder`, `observer`: query and observer descriptors and their checks.
//! - `group`: visiting order of grouped batches and group lifecycle.
//! - `defer`, `store`, `world`: the entity store with its deferred queue.
//! - `naming`, `create`, `relations`, `doc`, `meta`: names, paths, lookups,
//!   relationships, documentation and reflection records.
//! - `query`: matching, batching and row materialization over the store.
//! - `laws`: properties relating several operations.

pub mod ids;
pub mod field;
pub mod batch;
pub mod text;
pub mod builder;
pub mod group;
pub mod defer;
pub mod store;
pub mod world;
pub mod doc;
pub mod naming;
pub mod create;
pub mod relations;
pub mod query;
pub mod laws;
pub mod meta;
pub mod observer;
