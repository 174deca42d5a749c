//! Minimal snapshot store for durable state managers.
//!
//! `minisnap` serializes a full copy of application state to disk and restores
//! it. It complements systems with a write-ahead log (WAL) by enabling fast
//! recovery.
//!
//! - **Explicit snapshotting**: you control when snapshots are created.
//! - **Atomic writes**: snapshots are written to a temporary file and
//!   atomically renamed.
//! - **Sequence tracking**: each snapshot is associated with a logical sequence
//!   number (e.g., the last applied WAL index).
//! - **File-based recovery**: each snapshot is a separate numbered file, so the
//!   latest completed snapshot can be restored without any other file.
//!
//! This crate holds the decisions and does no I/O. [`SnapStore::create`] gives
//! a [`task::CreateTask`], which says step by step what has to be done on the
//! disk and is told how each step went. [`SnapStore::restore`] picks the latest
//! snapshot from the listing of a directory and gives a [`task::RestoreTask`],
//! which turns what was decoded into the state and its sequence number.
//!
//! How paths are written depends on the system, so they are carried through as
//! they are. A task hands out the directory and the name of its snapshot file,
//! and an entry of a listing comes with its own path. Names are byte strings.
//!
//! - [`store`]: the store
//! - [`task`]: storing and restoring, step by step
//! - [`listing`]: which entry of a directory is the latest snapshot
//! - [`name`]: the names of snapshot files
//! - [`decimal`], [`path`]: sequence numbers and file names as bytes
//! - [`codec`]: what the store asks of a codec
//! - [`disk`]: what becomes of the files of the directory, and the laws of
//!   storing and restoring

/// Codec trait and codecs for snapshot serialization.
pub mod codec;
pub mod decimal;
pub mod disk;
mod error;
pub mod listing;
pub mod name;
pub mod path;
pub mod store;
pub mod task;

pub use crate::codec::json::JsonCodec;
pub use crate::codec::rmp::RmpCodec;
pub use crate::codec::Codec;
pub use crate::error::{
    join_result, CodecError, ErrorPath, MiniSnapError, PersistFailure, Result,
    UNKNOWN_PATH,
};
pub use crate::store::SnapStore;
