//! A peer-to-peer messenger and file network: the node's data model, its
//! protocols and the rules that its services follow.

pub mod chat;
pub mod crypto;
pub mod db;
pub mod discovery;
pub mod network;
pub mod node;
pub mod reputation;
pub mod storage;
pub mod util;
