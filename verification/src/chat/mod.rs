//! The public chat and private messages.

pub mod private_chat;
pub mod public_chat;
