//! Links to other nodes: the handshake, what is read and sent, signs of life.

use vstd::prelude::*;

use crate::network::error::NetworkError;
use crate::network::rate_limit::{RateLimiter, TEMP_BLOCK_NANOS};
use crate::node::addr::SocketAddr;
use crate::node::identity::{lists_names, NodeId};
use crate::node::message::NetworkMessage;
use crate::node::peer::PeerInfo;
use crate::util::table::Table;

verus! {

/// The nanoseconds between pings.
pub const PING_INTERVAL_NANOS: u64 = 15_000_000_000;

/// After how many nanoseconds without a pong a link is closed.
pub const PONG_TIMEOUT_NANOS: u64 = 30_000_000_000;

/// How many messages wait for a link.
pub const INBOUND_BUFFER: usize = 256;

/// What a link tells of.
#[derive(Debug, PartialEq, Eq)]
pub enum ConnectionEvent {
    /// The link stands.
    Connected { peer_info: PeerInfo, addr: SocketAddr },
    /// The link is closed.
    Disconnected { peer_id: NodeId },
    /// A message has come.
    Message { from: NodeId, message: NetworkMessage },
}

/// The open links: where each connected node is.
pub struct Connections {
    table: Table<SocketAddr>,
}

impl View for Connections {
    type V = Map<Seq<char>, SocketAddr>;

    closed spec fn view(&self) -> Map<Seq<char>, SocketAddr> {
        self.table@
    }
}

impl Connections {
    /// No links.
    pub fn new() -> (r: Connections)
        ensures
            r@ == Map::<Seq<char>, SocketAddr>::empty(),
    {
        Connections { table: Table::new() }
    }

    /// Enters a link. A node has one link: a new one takes the place of the old.
    pub fn register(&mut self, peer_id: &NodeId, addr: SocketAddr)
        ensures
            final(self)@ == old(self)@.insert(peer_id@, addr),
    {
        self.table.insert(peer_id.0.clone(), addr);
    }

    /// Takes a link out.
    pub fn unregister(&mut self, peer_id: &NodeId)
        ensures
            final(self)@ == old(self)@.remove(peer_id@),
    {
        self.table.remove(peer_id.as_str());
    }

    /// Whether there is a link to the address already.
    pub fn is_connected_to(&self, addr: SocketAddr) -> (r: bool)
        ensures
            r == exists|k: Seq<char>| #[trigger] self@.contains_key(k) && self@[k] == addr,
    {
        let n: usize = self.table.len();
        let ghost names = self.table.names();
        let mut i: usize = 0;
        while i < n
            invariant
                i <= n,
                n == names.len(),
                names == self.table.names(),
                self.table@.dom() == names.to_set(),
                forall|j: int| 0 <= j < i ==> self.table@[#[trigger] names[j]] != addr,
            decreases n - i,
        {
            if *self.table.value_at(i) == addr {
                assert(self@.contains_key(names[i as int]));
                return true;
            }
            i = i + 1;
        }
        assert forall|k: Seq<char>| #[trigger] self@.contains_key(k) implies self@[k] != addr by {
            assert(names.to_set().contains(k));
            let j: int = choose|j: int| 0 <= j < names.len() && names[j] == k;
            assert(names[j] == k);
        }
        false
    }

    /// Whether a message to the node can be sent: there has to be a link.
    pub fn send_target(&self, peer_id: &NodeId) -> (r: Result<(), NetworkError>)
        ensures
            match r {
                Ok(()) => self@.contains_key(peer_id@),
                Err(NetworkError::PeerNotFound(m)) => !self@.contains_key(peer_id@) && m@
                    == peer_id@,
                Err(_) => false,
            },
    {
        if self.table.contains(peer_id.as_str()) {
            Ok(())
        } else {
            Err(NetworkError::PeerNotFound(peer_id.0.clone()))
        }
    }

    /// The connected nodes.
    pub fn connected_peers(&self) -> (r: Vec<NodeId>)
        ensures
            lists_names(r@, self@.dom()),
    {
        let n: usize = self.table.len();
        let ghost names = self.table.names();
        let mut out: Vec<NodeId> = Vec::new();
        let mut i: usize = 0;
        while i < n
            invariant
                i <= n,
                n == names.len(),
                names == self.table.names(),
                out@.len() == i,
                forall|j: int| 0 <= j < i ==> (#[trigger] out@[j])@ == names[j],
            decreases n - i,
        {
            out.push(NodeId(self.table.name_at(i).clone()));
            i = i + 1;
        }
        proof {
            assert forall|j: int| 0 <= j < out@.len() implies self@.dom().contains(
                (#[trigger] out@[j])@,
            ) by {
                assert(names.contains(names[j]));
                assert(names.to_set().contains(names[j]));
            }
            assert forall|k: Seq<char>| #[trigger] self@.dom().contains(k) implies exists|j: int|
                0 <= j < out@.len() && (#[trigger] out@[j])@ == k by {
                assert(names.to_set().contains(k));
                let j: int = choose|j: int| 0 <= j < names.len() && names[j] == k;
                assert(out@[j]@ == k);
            }
        }
        out
    }

    /// The connected nodes but one.
    pub fn recipients_except(&self, exclude: &NodeId) -> (r: Vec<NodeId>)
        ensures
            lists_names(r@, self@.dom().remove(exclude@)),
    {
        let all: Vec<NodeId> = self.connected_peers();
        let mut out: Vec<NodeId> = Vec::new();
        let ghost mut picked: Seq<int> = Seq::empty();
        let mut i: usize = 0;
        while i < all.len()
            invariant
                i <= all@.len(),
                picked.len() == out@.len(),
                forall|x: int|
                    0 <= x < picked.len() ==> {
                        &&& 0 <= #[trigger] picked[x] < i
                        &&& out@[x]@ == all@[picked[x]]@
                        &&& out@[x]@ != exclude@
                    },
                forall|x: int, y: int|
                    0 <= x < y < picked.len() ==> #[trigger] picked[x] < #[trigger] picked[y],
                forall|j: int|
                    0 <= j < i && (#[trigger] all@[j])@ != exclude@ ==> picked.contains(j),
            decreases all@.len() - i,
        {
            if !all[i].same(exclude) {
                let ghost before = picked;
                out.push(all[i].clone());
                proof {
                    picked = picked.push(i as int);
                    assert forall|j: int|
                        0 <= j < i + 1 && (#[trigger] all@[j])@ != exclude@ implies picked.contains(
                        j,
                    ) by {
                        if j < i {
                            let x: int = choose|x: int| 0 <= x < before.len() && before[x] == j;
                            assert(picked[x] == j);
                        } else {
                            assert(picked[before.len() as int] == j);
                        }
                    }
                }
            }
            i = i + 1;
        }
        proof {
            let rest = self@.dom().remove(exclude@);
            assert forall|x: int| 0 <= x < out@.len() implies rest.contains(
                (#[trigger] out@[x])@,
            ) by {
                assert(all@[picked[x]]@ == out@[x]@);
            }
            assert forall|x: int, y: int| 0 <= x < y < out@.len() implies (#[trigger] out@[x])@
                != (#[trigger] out@[y])@ by {
                assert(picked[x] < picked[y]);
                assert(all@[picked[x]]@ != all@[picked[y]]@);
            }
            assert forall|k: Seq<char>| #[trigger] rest.contains(k) implies exists|x: int|
                0 <= x < out@.len() && (#[trigger] out@[x])@ == k by {
                assert(self@.dom().contains(k));
                let j: int = choose|j: int| 0 <= j < all@.len() && (#[trigger] all@[j])@ == k;
                let x: int = choose|x: int| 0 <= x < picked.len() && picked[x] == j;
                assert(out@[x]@ == k);
            }
        }
        out
    }

    /// How many nodes are connected.
    pub fn peer_count(&self) -> (n: usize)
        ensures
            n == self@.len(),
    {
        self.table.len()
    }

    /// Whether the node is connected.
    pub fn is_connected(&self, peer_id: &NodeId) -> (r: bool)
        ensures
            r == self@.contains_key(peer_id@),
    {
        self.table.contains(peer_id.as_str())
    }
}

/// The node at the other end, by its first message: it has to say who it is.
pub fn handshake_peer(first: NetworkMessage) -> (r: Result<PeerInfo, NetworkError>)
    ensures
        match first {
            NetworkMessage::Announce { peer } => r == Ok::<PeerInfo, NetworkError>(peer),
            _ => r matches Err(NetworkError::Protocol(m)) && m@
                == "Expected Announce as first message"@,
        },
{
    match first {
        NetworkMessage::Announce { peer } => Ok(peer),
        _ => Err(NetworkError::Protocol("Expected Announce as first message".to_owned())),
    }
}

/// The state of a link.
pub struct Link {
    /// The node at the other end.
    pub node: NodeId,
    /// When it last gave a sign of life.
    pub last_pong: u64,
    /// When anything last came from it.
    pub last_seen: u64,
}

/// Something that happens to a link.
#[derive(Debug, PartialEq, Eq)]
pub enum LinkEvent {
    /// A frame has come: the message in it, or nothing where it cannot be read.
    Frame(Option<NetworkMessage>),
    /// No more frames can be read.
    ReceiveFailed,
    /// A message is to be sent; nothing where it cannot be serialised.
    Outgoing(Option<Vec<u8>>),
    /// A message could not be sent.
    SendFailed,
    /// It is time for a ping.
    PingDue,
}

/// What is done about it.
#[derive(Debug, PartialEq, Eq)]
pub enum LinkAction {
    /// Nothing.
    Wait,
    /// The event goes to the router.
    Deliver(ConnectionEvent),
    /// The message is dropped, for its sender sends too often.
    Limit,
    /// The bytes go out.
    Send(Vec<u8>),
    /// A ping goes out.
    SendPing,
    /// The link is closed.
    Close,
}

impl Link {
    /// The link to a node after the handshake.
    pub fn established(node: NodeId, now: u64) -> (r: Link)
        ensures
            r == (Link { node, last_pong: now, last_seen: now }),
    {
        Link { node, last_pong: now, last_seen: now }
    }

    /// Whether a ping that is due finds the link without signs of life for too long.
    pub open spec fn silent(&self, now: u64) -> bool {
        now > self.last_pong && now - self.last_pong > PONG_TIMEOUT_NANOS
    }

    /// Takes an event. A pong is a sign of life; any other message goes to the router
    /// if the limiter lets it through; a ping goes out unless there was no sign of life
    /// for too long. The limiter is asked about messages that can be read and are no
    /// pongs, and about nothing else.
    pub fn step(
        &mut self,
        event: LinkEvent,
        limiter: &mut RateLimiter,
        now: u64,
        has_token: bool,
    ) -> (r: LinkAction)
        requires
            now <= u64::MAX - TEMP_BLOCK_NANOS,
        ensures
            final(limiter).rate_limit() == old(limiter).rate_limit(),
            final(limiter).burst_limit() == old(limiter).burst_limit(),
            final(self).node == old(self).node,
            final(self).last_seen == (if event is Frame {
                now
            } else {
                old(self).last_seen
            }),
            final(self).last_pong == (if event == LinkEvent::Frame(Some(NetworkMessage::Pong)) {
                now
            } else {
                old(self).last_pong
            }),
            match event {
                LinkEvent::Frame(Some(message)) => if message == NetworkMessage::Pong {
                    r == LinkAction::Wait && final(limiter)@ == old(limiter)@
                } else {
                    &&& final(limiter)@ == old(limiter)@.insert(
                        old(self).node@,
                        old(limiter).record(old(self).node@).after_message(now, has_token),
                    )
                    &&& if !old(limiter).record(old(self).node@).blocked_at(now) && has_token {
                        r == LinkAction::Deliver(
                            ConnectionEvent::Message { from: old(self).node, message },
                        )
                    } else {
                        r == LinkAction::Limit
                    }
                },
                LinkEvent::Frame(None) => r == LinkAction::Wait && final(limiter)@ == old(limiter)@,
                LinkEvent::ReceiveFailed => r == LinkAction::Close && final(limiter)@ == old(
                    limiter,
                )@,
                LinkEvent::Outgoing(Some(bytes)) => r == LinkAction::Send(bytes) && final(limiter)@
                    == old(limiter)@,
                LinkEvent::Outgoing(None) => r == LinkAction::Wait && final(limiter)@ == old(
                    limiter,
                )@,
                LinkEvent::SendFailed => r == LinkAction::Close && final(limiter)@ == old(limiter)@,
                LinkEvent::PingDue => {
                    &&& final(limiter)@ == old(limiter)@
                    &&& r == (if old(self).silent(now) {
                        LinkAction::Close
                    } else {
                        LinkAction::SendPing
                    })
                },
            },
    {
        match event {
            LinkEvent::Frame(Some(message)) => {
                self.last_seen = now;
                if let NetworkMessage::Pong = message {
                    self.last_pong = now;
                    return LinkAction::Wait;
                }
                if limiter.check(&self.node, now, has_token) {
                    LinkAction::Deliver(
                        ConnectionEvent::Message { from: self.node.clone(), message },
                    )
                } else {
                    LinkAction::Limit
                }
            },
            LinkEvent::Frame(None) => {
                self.last_seen = now;
                LinkAction::Wait
            },
            LinkEvent::ReceiveFailed => LinkAction::Close,
            LinkEvent::Outgoing(Some(bytes)) => LinkAction::Send(bytes),
            LinkEvent::Outgoing(None) => LinkAction::Wait,
            LinkEvent::SendFailed => LinkAction::Close,
            LinkEvent::PingDue => {
                if now > self.last_pong && now - self.last_pong > PONG_TIMEOUT_NANOS {
                    LinkAction::Close
                } else {
                    LinkAction::SendPing
                }
            },
        }
    }
}

/// A link whose other end answers each ping before the next one is due is never closed
/// for silence.
pub proof fn law_answering_link_stays_open(link: Link, now: u64)
    requires
        link.last_pong <= now,
        now - link.last_pong <= PING_INTERVAL_NANOS,
    ensures
        !link.silent(now),
{
}

/// A link counts as silent just where more than thirty seconds have gone by since the last
/// sign of life, whatever else has come over it.
pub proof fn law_silent_after_half_a_minute(link: Link, now: u64)
    ensures
        link.silent(now) <==> now > link.last_pong + 30_000_000_000,
{
}

/// Pings go out every fifteen seconds.
pub proof fn law_ping_interval()
    ensures
        PING_INTERVAL_NANOS == 15_000_000_000,
{
}

/// Up to 256 messages wait for a link.
pub proof fn law_waiting_messages()
    ensures
        INBOUND_BUFFER == 256,
{
}

} // verus!
