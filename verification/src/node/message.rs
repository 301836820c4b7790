//! The messages of the node protocol.

use vstd::prelude::*;

use crate::node::identity::NodeId;
use crate::node::peer::PeerInfo;

verus! {

/// A message between two nodes.
#[derive(Debug, Clone, PartialEq, Eq)]
pub enum NetworkMessage {
    /// A node tells of itself.
    Announce { peer: PeerInfo },
    /// A node asks for known nodes.
    GetPeers,
    /// The known nodes.
    Peers { peers: Vec<PeerInfo> },
    /// A message to the public chat.
    ChatMessage {
        from: NodeId,
        text: String,
        timestamp: i64,
        /// The sender's running number, by which copies are told.
        seq: u64,
        signature: String,
    },
    /// Reputations as the sender sees them, signed.
    ReputationSync {
        from: NodeId,
        signed_payload: Vec<u8>,
        signature: String,
        signer: String,
    },
    /// A signed complaint about a node.
    ReputationReport {
        target: NodeId,
        signed_payload: Vec<u8>,
        signature: String,
        signer: String,
    },
    /// Asks whether the other side is there.
    Ping,
    /// The answer to that.
    Pong,
}

} // verus!
