//! Session persistence on a clustered key-value store with native per-key
//! expiry.
//!
//! The crate holds the rules of the adapter: which commands each storage
//! operation issues, and what each reply means. Connections and the round
//! trips themselves belong to the caller, who hands the replies back.
//!
//! - [`adapter`]: the storage operations, each as a request and the meaning of
//!   its exchange.
//! - [`command`]: the commands and requests as plain values.
//! - [`reply`]: the backend's answers and how they are read.
//! - [`error`]: the one error of all operations.
//! - [`wire`]: requests as values of the client library.
//! - [`keyspace`]: a model of the store, and an in-memory store that follows it.
//! - [`laws`]: what holds of the adapter on that model.

pub mod adapter;
pub mod command;
pub mod error;
pub mod keyspace;
pub mod laws;
pub mod reply;
pub mod wire;

pub use adapter::SessionRedisClusterPool;
pub use command::{Command, Request};
pub use error::SessionError;
pub use keyspace::Keyspace;
pub use reply::Reply;
