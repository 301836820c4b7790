//! The errors of the storage.

use vstd::prelude::*;

verus! {

/// What can go wrong with files and chunks.
#[derive(Debug, Clone, PartialEq, Eq)]
pub enum StorageError {
    Io(String),
    Db(String),
    /// The data is not what its hash says.
    IntegrityFailure { expected: String, actual: String },
    FileNotFound(String),
    ChunkNotFound(String),
    NoPeersForChunk(String),
    Serialization(String),
    Network(String),
    Timeout(String),
    /// The download was stopped.
    Cancelled,
}

} // verus!
