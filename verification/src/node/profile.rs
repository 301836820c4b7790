//! The signed profile of a user.

use vstd::prelude::*;

use crate::node::identity::NodeId;

verus! {

/// A profile as it is spread over the network.
#[derive(Debug, Clone, PartialEq, Eq)]
pub struct Profile {
    pub id: NodeId,
    pub name: String,
    /// The picture in base64.
    pub avatar: Option<String>,
    pub status: String,
    pub description: Option<String>,
    /// The name in the internal zone.
    pub dns_name: Option<String>,
    pub updated_at: i64,
    /// The signature of the whole profile in hexadecimal.
    pub signature: Option<String>,
}

} // verus!
