//! Storage backends for a content-addressed backup store: the backend
//! contract, a read-only HTTP backend and a local cache layered over a remote.

pub mod backend;
pub mod data;
pub mod error;
pub mod http;
pub mod local_cache;
pub mod path;
pub mod time;
pub mod traversal;
pub mod walk;

pub use backend::{Backend, BackendThread, Batch, Lock, Metadata};
pub use error::Error;
pub use http::{DirectoryEntry, HttpReadOnly, HttpReadOnlyThread, NoLock, Response};
pub use local_cache::{CombinedLocks, LocalCache, LocalCacheThread};
pub use time::Timestamp;
pub use walk::{Step, Walk};
