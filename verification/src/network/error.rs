//! The errors of the network modules.

use vstd::prelude::*;

verus! {

/// What can go wrong with connections.
#[derive(Debug, Clone, PartialEq, Eq)]
pub enum NetworkError {
    Io(String),
    Connection(String),
    Bind(String),
    Disconnected,
    Protocol(String),
    Serialization(String),
    PeerNotFound(String),
    RateLimited,
}

} // verus!
