//! Helpers that the other modules share.

pub mod bytes;
pub mod clock;
pub mod frame;
pub mod hex;
pub mod table;
pub mod text;
