//! The file storage: chunks on disk, who has which, how they are fetched.

pub mod chunk_store;
pub mod chunker;
pub mod error;
pub mod events;
pub mod fetch;
pub mod index;
pub mod integrity;
pub mod manager;
pub mod transfer;

pub use chunk_store::ChunkStore;
pub use error::StorageError;
