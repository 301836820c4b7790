//! Connections between nodes: limits, links, routing of messages.

pub mod conn_guard;
pub mod connection;
pub mod error;
pub mod rate_limit;
pub mod router;
pub mod transport;
