//! Incremental code-repository knowledge graph.
//!
//! The crate keeps a property-graph representation of a source tree in step
//! with the files on disk: a tracker fingerprints files by content hash, a
//! watcher filters and debounces raw change notifications, a structural
//! parser extracts typed entities and dependency edges from source text, and
//! a synchronizer turns those into idempotent merge operations against the
//! graph store.

pub mod error;
pub mod models;
pub mod text;
pub mod digest;
pub mod tracker;
pub mod watcher;
pub mod parser;
pub mod ts_queries;
pub mod treesitter;
pub mod graph;
pub mod store;
