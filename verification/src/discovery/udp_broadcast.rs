//! Discovery by broadcast, where multicast names do not get through.

use vstd::prelude::*;

use crate::discovery::peer_list::{changes_members, upserted, PeerList};
use crate::node::addr::IpAddr;
use crate::node::identity::NodeId;
use crate::node::peer::{PeerInfo, PeerView};

verus! {

/// The port that broadcasts go to.
pub const BROADCAST_PORT: u16 = 7701;

/// The seconds between broadcasts.
pub const BROADCAST_INTERVAL_SECS: u64 = 5;

/// The port on which broadcasts are heard: the one above the node's own.
pub fn listen_port(base_port: u16) -> (r: u16)
    requires
        base_port < u16::MAX,
    ensures
        r == base_port + 1,
{
    base_port + 1
}

/// What became of a broadcast.
#[derive(Debug, Clone, Copy, PartialEq, Eq, Structural)]
pub enum Heard {
    /// It was our own.
    Own,
    /// It was entered; whether the node was not known before, and whether the members
    /// of the list have changed.
    Entered { new: bool, changed: bool },
}

/// A node as it is entered after a broadcast: with the address that it came from, and
/// as seen now.
pub open spec fn heard_as(peer: PeerView, from_ip: IpAddr, now: i64) -> PeerView {
    PeerView { ip: from_ip, last_seen: now, ..peer }
}

/// Enters the node that a broadcast tells of, unless it is we.
pub fn hear(list: &mut PeerList, my_id: &NodeId, peer: PeerInfo, from_ip: IpAddr, now: i64) -> (r:
    Heard)
    ensures
        if peer.id@ == my_id@ {
            final(list)@ == old(list)@ && r == Heard::Own
        } else {
            &&& final(list)@ == upserted(old(list)@, heard_as(peer@, from_ip, now))
            &&& r == (Heard::Entered {
                new: !old(list)@.contains_key(peer.id@),
                changed: changes_members(old(list)@, heard_as(peer@, from_ip, now)),
            })
        },
{
    if peer.id.same(my_id) {
        return Heard::Own;
    }
    let known: bool = list.contains(&peer.id);
    let ghost said = peer@;
    let mut peer: PeerInfo = peer;
    peer.ip = from_ip;
    peer.last_seen = now;
    assert(peer@ =~= heard_as(said, from_ip, now));
    let changed: bool = list.upsert(peer);
    Heard::Entered { new: !known, changed }
}

/// A node that was heard is entered where its broadcast came from, as seen now, and
/// otherwise as it said.
pub proof fn law_heard_node_is_where_it_was_heard(peer: PeerView, from_ip: IpAddr, now: i64)
    ensures
        heard_as(peer, from_ip, now).ip == from_ip,
        heard_as(peer, from_ip, now).last_seen == now,
        heard_as(peer, from_ip, now) == (PeerView {
            ip: heard_as(peer, from_ip, now).ip,
            last_seen: heard_as(peer, from_ip, now).last_seen,
            ..peer
        }),
{
}

/// Broadcasts go to one port, every five seconds.
pub proof fn law_broadcasts()
    ensures
        BROADCAST_PORT == 7701,
        BROADCAST_INTERVAL_SECS == 5,
{
}

} // verus!
