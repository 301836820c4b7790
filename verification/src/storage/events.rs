//! What the storage tells about peers.

use vstd::prelude::*;

use crate::node::identity::NodeId;

verus! {

/// What a peer has sent.
#[derive(Debug, Clone, PartialEq, Eq)]
pub enum ChunkEvent {
    /// A chunk that is what its hash says.
    Valid { peer: NodeId, size_bytes: i64 },
    /// One that is not.
    Bad { peer: NodeId },
}

} // verus!
