//! What nodes think of each other.

pub mod error;
pub mod events;
pub mod reports;
pub mod score;
pub mod sync;

pub use error::ReputationError;
