//! A log-structured key-value store: string keys map to string values
//! through durable set/get/remove operations backed by an append-only
//! record log, an in-memory index, and size-triggered compaction.

use vstd::prelude::*;

pub mod codec;
pub mod config;
pub mod engine;
pub mod files;
pub mod sled_engine;
pub mod thread_pool;
pub mod index;
pub mod store;
pub mod protocol;
pub mod server;

verus! {

/// The error kinds every engine operation reports.
#[derive(Debug, Clone, PartialEq, Eq)]
pub enum KvsError {
    FileListEmpty,
    WrongEngine,
    SerializationError(String),
    IOError(String),
    NonExistantKey,
    ThreadPoolBuildError(String),
    Other,
}

} // verus!
