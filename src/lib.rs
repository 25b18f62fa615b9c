//! A small durable key-value store: an in-memory mapping rebuilt from an
//! append-only log of `key:value` lines, served over a message transport by a
//! per-connection state machine.
pub mod client;
pub mod error;
pub mod handler;
pub mod kv_store;
pub mod messages;
pub mod record;

pub use error::KVStoreError;
pub use kv_store::KVStore;
pub use messages::{Request, Response};
