//! The records that a node keeps.

pub mod chunks;
pub mod messages;
