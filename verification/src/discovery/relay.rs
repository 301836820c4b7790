//! Relay nodes: tunnels between nodes that cannot reach each other.
//!
//! A node keeps a control connection to a relay and registers its name there. Who
//! wants to reach it opens a tunnel; the relay tells the node, the node connects
//! back, and the relay pipes bytes between the two.

use std::collections::HashMap;

use vstd::prelude::*;

use crate::discovery::service::{
    law_service_port_is_moved_up, offset_addr, service_text, ServiceAddrError,
};
use crate::node::identity::NodeId;
use crate::util::table::Table;
use crate::util::text::{decimal, trim_text};

verus! {

/// How far the relay service's port is above the node's.
pub const RELAY_PORT_OFFSET: u16 = 6;

/// The longest frame, in bytes.
pub const MAX_FRAME: usize = 64 * 1024;

/// A frame of the relay protocol.
#[derive(Debug, PartialEq, Eq)]
pub enum RelayFrame {
    /// A node registers its name: this is its control connection.
    Register { node_id: NodeId },
    /// The relay tells a registered node of a tunnel.
    Incoming { session: u64, from: NodeId },
    /// The first end of a tunnel to the node `to`.
    Open { session: u64, from: NodeId, to: NodeId },
    /// The second end of a tunnel.
    Accept { session: u64 },
    /// The tunnel stands: from now on there are raw bytes.
    Ready,
    /// The node is not registered, or does not answer.
    Unreachable,
    Ping,
    Pong,
    /// A frame of a later version.
    Unknown,
}

/// The address of a node's relay service.
pub fn service_addr(base_addr: &str) -> (r: Result<String, ServiceAddrError>)
    ensures
        match r {
            Ok(t) => service_text(base_addr@, RELAY_PORT_OFFSET) == Ok::<
                Seq<char>,
                ServiceAddrError,
            >(t@),
            Err(e) => service_text(base_addr@, RELAY_PORT_OFFSET) == Err::<
                Seq<char>,
                ServiceAddrError,
            >(e),
        },
{
    offset_addr(base_addr, RELAY_PORT_OFFSET)
}

/// What a connection is, by its first frame.
#[derive(Debug, PartialEq, Eq)]
pub enum Role {
    Control { node_id: NodeId },
    FirstEnd { session: u64, from: NodeId, to: NodeId },
    SecondEnd { session: u64 },
    /// A connection that is closed.
    Refused,
}

/// What a connection is, by its first frame.
pub fn role_of(first: RelayFrame) -> (r: Role)
    ensures
        r == (match first {
            RelayFrame::Register { node_id } => Role::Control { node_id },
            RelayFrame::Open { session, from, to } => Role::FirstEnd { session, from, to },
            RelayFrame::Accept { session } => Role::SecondEnd { session },
            _ => Role::Refused,
        }),
{
    match first {
        RelayFrame::Register { node_id } => Role::Control { node_id },
        RelayFrame::Open { session, from, to } => Role::FirstEnd { session, from, to },
        RelayFrame::Accept { session } => Role::SecondEnd { session },
        _ => Role::Refused,
    }
}

/// The state of a relay: which nodes are registered, each under the number of its
/// control connection, and which sessions wait for their second end, each with the number
/// of its first end.
pub struct RelayState {
    registry: Table<u64>,
    pending: HashMap<u64, u64>,
}

/// What is done for the first end of a tunnel.
#[derive(Debug, PartialEq, Eq)]
pub enum OpenStep {
    /// The node is not registered: the first end is told so.
    Refuse,
    /// The frame goes out over the control connection with this number, and the first
    /// end waits. A first end that waited for the same session waits no longer.
    Notify { control: u64, frame: RelayFrame, replaced: Option<u64> },
}

impl RelayState {
    /// The registered nodes with the numbers of their control connections.
    pub closed spec fn registered(&self) -> Map<Seq<char>, u64> {
        self.registry@
    }

    /// The sessions that wait for their second end, with the numbers of their first ends.
    pub closed spec fn waiting(&self) -> Map<u64, u64> {
        self.pending@
    }

    /// The first end of a session, if the session waits.
    pub open spec fn first_end(&self, session: u64) -> Option<u64> {
        if self.waiting().contains_key(session) {
            Some(self.waiting()[session])
        } else {
            None
        }
    }

    /// Whether the state is this one after a node has registered.
    pub open spec fn registers(&self, after: &RelayState, node: Seq<char>, control: u64) -> bool {
        &&& after.registered() == self.registered().insert(node, control)
        &&& after.waiting() == self.waiting()
    }

    /// Whether the state is this one after a control connection of a node has ended.
    pub open spec fn releases(&self, after: &RelayState, node: Seq<char>, control: u64) -> bool {
        &&& after.registered() == (if self.registered().contains_pair(node, control) {
            self.registered().remove(node)
        } else {
            self.registered()
        })
        &&& after.waiting() == self.waiting()
    }

    /// Whether the state is this one after the first end of a session has come.
    pub open spec fn parks(&self, after: &RelayState, session: u64, end: u64) -> bool {
        &&& after.registered() == self.registered()
        &&& after.waiting() == self.waiting().insert(session, end)
    }

    /// Whether the state is this one after a session was taken out.
    pub open spec fn settles(&self, after: &RelayState, session: u64) -> bool {
        &&& after.registered() == self.registered()
        &&& after.waiting() == self.waiting().remove(session)
    }

    /// A relay that no node has registered with.
    pub fn new() -> (r: RelayState)
        ensures
            r.registered() == Map::<Seq<char>, u64>::empty(),
            r.waiting() == Map::<u64, u64>::empty(),
    {
        RelayState { registry: Table::new(), pending: HashMap::new() }
    }

    /// Registers a node under its control connection. A new connection takes the place
    /// of an old one.
    pub fn register(&mut self, node: &NodeId, control: u64)
        ensures
            old(self).registers(&*final(self), node@, control),
    {
        self.registry.insert(node.0.clone(), control);
    }

    /// The control connection that a node is registered under.
    pub fn control_of(&self, node: &NodeId) -> (r: Option<u64>)
        ensures
            r == (if self.registered().contains_key(node@) {
                Some(self.registered()[node@])
            } else {
                None
            }),
    {
        match self.registry.get(node.as_str()) {
            Some(c) => Some(*c),
            None => None,
        }
    }

    /// Takes a node out after a control connection of it has ended, if that is the one that
    /// it is registered under. A node that has connected anew stays.
    pub fn release(&mut self, node: &NodeId, control: u64)
        ensures
            old(self).releases(&*final(self), node@, control),
    {
        if let Some(registered) = self.control_of(node) {
            if registered == control {
                self.registry.remove(node.as_str());
            }
        }
    }

    /// Takes the first end of a tunnel: a node that is registered is told, and the
    /// session waits for its second end.
    pub fn open(&mut self, session: u64, end: u64, from: &NodeId, to: &NodeId) -> (r: OpenStep)
        ensures
            match r {
                OpenStep::Refuse => {
                    &&& !old(self).registered().contains_key(to@)
                    &&& final(self).registered() == old(self).registered()
                    &&& final(self).waiting() == old(self).waiting()
                },
                OpenStep::Notify { control, frame, replaced } => {
                    &&& old(self).registered().contains_key(to@)
                    &&& control == old(self).registered()[to@]
                    &&& frame == (RelayFrame::Incoming { session, from: *from })
                    &&& replaced == old(self).first_end(session)
                    &&& old(self).parks(&*final(self), session, end)
                },
            },
    {
        broadcast use vstd::std_specs::hash::group_hash_axioms;

        match self.control_of(to) {
            None => OpenStep::Refuse,
            Some(control) => {
                let replaced: Option<u64> = self.pending.insert(session, end);
                let frame: RelayFrame = RelayFrame::Incoming { session, from: from.clone() };
                OpenStep::Notify { control, frame, replaced }
            },
        }
    }

    /// Takes a session out: its second end has come, or nobody waits for it any more.
    /// Gives out the number of the first end, if the session was waiting.
    pub fn settle(&mut self, session: u64) -> (end: Option<u64>)
        ensures
            end == old(self).first_end(session),
            old(self).settles(&*final(self), session),
    {
        broadcast use vstd::std_specs::hash::group_hash_axioms;

        self.pending.remove(&session)
    }
}

/// Why a tunnel does not stand.
#[derive(Debug, Clone, Copy, PartialEq, Eq, Structural)]
pub enum TunnelError {
    /// The other node cannot be reached through this relay.
    PeerUnreachable,
    /// The relay has answered with a frame that does not belong here.
    UnexpectedReply,
}

/// What the relay's answer means to the first end of a tunnel.
pub fn open_reply(reply: &RelayFrame) -> (r: Result<(), TunnelError>)
    ensures
        r == (match *reply {
            RelayFrame::Ready => Ok::<(), TunnelError>(()),
            RelayFrame::Unreachable => Err(TunnelError::PeerUnreachable),
            _ => Err(TunnelError::UnexpectedReply),
        }),
{
    match reply {
        RelayFrame::Ready => Ok(()),
        RelayFrame::Unreachable => Err(TunnelError::PeerUnreachable),
        _ => Err(TunnelError::UnexpectedReply),
    }
}

/// What the relay's answer means to the second end of a tunnel.
pub fn accept_reply(reply: &RelayFrame) -> (r: Result<(), TunnelError>)
    ensures
        r == (match *reply {
            RelayFrame::Ready => Ok::<(), TunnelError>(()),
            _ => Err(TunnelError::UnexpectedReply),
        }),
{
    match reply {
        RelayFrame::Ready => Ok(()),
        _ => Err(TunnelError::UnexpectedReply),
    }
}

/// What a registered node does on a frame of its control connection.
#[derive(Debug, PartialEq, Eq)]
pub enum ControlStep {
    /// Connect back as the second end of a tunnel.
    ConnectBack { session: u64, from: NodeId },
    /// Answer that we are there.
    AnswerPong,
    /// Nothing.
    Ignore,
}

/// What a registered node does on a frame of its control connection.
pub fn control_step(frame: RelayFrame) -> (r: ControlStep)
    ensures
        r == (match frame {
            RelayFrame::Incoming { session, from } => ControlStep::ConnectBack { session, from },
            RelayFrame::Ping => ControlStep::AnswerPong,
            _ => ControlStep::Ignore,
        }),
{
    match frame {
        RelayFrame::Incoming { session, from } => ControlStep::ConnectBack { session, from },
        RelayFrame::Ping => ControlStep::AnswerPong,
        _ => ControlStep::Ignore,
    }
}

/// Sessions are independent: of two that wait, the second end of each finds its own first
/// end, and finds it once.
pub proof fn law_sessions_are_independent(
    start: RelayState,
    one: RelayState,
    both: RelayState,
    rest: RelayState,
    session: u64,
    end: u64,
    other_session: u64,
    other_end: u64,
)
    requires
        session != other_session,
        start.parks(&one, session, end),
        one.parks(&both, other_session, other_end),
        both.settles(&rest, session),
    ensures
        both.first_end(session) == Some(end),
        rest.first_end(other_session) == Some(other_end),
        rest.first_end(session) is None,
{
}

/// A node is registered until its control connection ends, and no longer.
pub proof fn law_registration_ends_with_its_connection(
    start: RelayState,
    joined: RelayState,
    later: RelayState,
    node: Seq<char>,
    control: u64,
)
    requires
        start.registers(&joined, node, control),
        joined.releases(&later, node, control),
    ensures
        joined.registered().contains_pair(node, control),
        !later.registered().contains_key(node),
{
}

/// A node that connects anew before its old connection has ended stays registered under
/// the new one when the old one ends.
pub proof fn law_reconnect_stays_registered(
    start: RelayState,
    joined: RelayState,
    rejoined: RelayState,
    later: RelayState,
    node: Seq<char>,
    old_control: u64,
    new_control: u64,
)
    requires
        old_control != new_control,
        start.registers(&joined, node, old_control),
        joined.registers(&rejoined, node, new_control),
        rejoined.releases(&later, node, old_control),
    ensures
        later.registered().contains_pair(node, new_control),
{
}

/// What happens to one node or one session leaves the others alone: a registration, or the
/// end of one, changes no other node's and no session; a first end, or a settled session,
/// changes no other session and no registration.
pub proof fn law_relay_steps_are_local(
    before: RelayState,
    after: RelayState,
    node: Seq<char>,
    number: u64,
    session: u64,
    other: Seq<char>,
    other_session: u64,
)
    requires
        other != node,
        other_session != session,
    ensures
        before.registers(&after, node, number) ==> {
            &&& after.registered().contains_pair(node, number)
            &&& after.registered().contains_key(other) == before.registered().contains_key(other)
            &&& after.registered()[other] == before.registered()[other]
            &&& after.waiting() == before.waiting()
        },
        before.releases(&after, node, number) ==> {
            &&& after.registered().contains_key(other) == before.registered().contains_key(other)
            &&& before.registered().contains_key(other) ==> after.registered()[other]
                == before.registered()[other]
            &&& before.registered().contains_pair(node, number)
                <==> before.registered().contains_key(node) && !after.registered().contains_key(node)
            &&& after.registered().contains_key(node) ==> after.registered()[node]
                == before.registered()[node]
            &&& after.waiting() == before.waiting()
        },
        before.parks(&after, session, number) ==> {
            &&& after.first_end(session) == Some(number)
            &&& after.first_end(other_session) == before.first_end(other_session)
            &&& after.registered() == before.registered()
        },
        before.settles(&after, session) ==> {
            &&& after.first_end(session) is None
            &&& after.first_end(other_session) == before.first_end(other_session)
            &&& after.registered() == before.registered()
        },
{
}

/// The first end of a session is found just where the session waits.
pub proof fn law_first_end_is_who_waits(state: RelayState, session: u64, end: u64)
    ensures
        state.first_end(session) == Some(end) <==> state.waiting().contains_pair(session, end),
        state.first_end(session) is None <==> !state.waiting().contains_key(session),
{
}

/// The relay service of a node listens at its host, six ports above it.
pub proof fn law_relay_service_is_six_ports_up(host: Seq<char>, port: u16)
    ensures
        port <= 65529 ==> service_text(
            host + seq![':'] + decimal(port as nat),
            RELAY_PORT_OFFSET,
        ) == Ok::<Seq<char>, ServiceAddrError>(
            trim_text(host) + seq![':'] + decimal((port + 6) as nat),
        ),
        port > 65529 ==> service_text(
            host + seq![':'] + decimal(port as nat),
            RELAY_PORT_OFFSET,
        ) == Err::<Seq<char>, ServiceAddrError>(ServiceAddrError::PortTooLarge),
{
    law_service_port_is_moved_up(host, port, RELAY_PORT_OFFSET);
}

/// Frames have up to 64 kibibytes.
pub proof fn law_longest_relay_frame()
    ensures
        MAX_FRAME == 0x1_0000,
{
}

} // verus!
