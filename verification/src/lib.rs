//! A read-oriented content store: a directory tree of declaratively typed
//! records is turned into an in-memory, queryable cache.
//!
//! The crate covers the typed schema/entity data model and its validation
//! rules, the tree-to-cache builder, and the query evaluator. The
//! filesystem walk, the live-reload watch loop and the network transport
//! are thin adapters that call into this crate from outside.

pub mod cache;
pub mod cli;
pub mod entity;
pub mod error;
pub mod kv;
pub mod parse;
pub mod providers;
pub mod query;
pub mod schema;
pub mod server;
