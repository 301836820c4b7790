//! Where the events of connections go: into the list of nodes, back to the sender, to
//! subscribers.

use vstd::prelude::*;

use crate::discovery::peer_list::{
    changes_members, is_stub, law_changes_are_told_rightly, upserted, PeerList,
};
use crate::network::connection::ConnectionEvent;
use crate::node::identity::NodeId;
use crate::node::message::NetworkMessage;
use crate::node::peer::{peer_views, PeerInfo, PeerView};

verus! {

/// The kinds of messages that can be subscribed to.
#[derive(Debug, Clone, Copy, PartialEq, Eq, Structural)]
pub enum MessageKind {
    /// Who there is.
    Discovery,
    /// The public chat.
    Chat,
    /// Reputations and complaints.
    Reputation,
    /// Signs of life.
    Keepalive,
    /// Everything.
    All,
}

/// What a subscriber gets.
#[derive(Debug, Clone, PartialEq, Eq)]
pub struct RouterEvent {
    pub from: NodeId,
    pub message: NetworkMessage,
}

/// The kind of a message.
pub open spec fn kind_of(msg: NetworkMessage) -> MessageKind {
    match msg {
        NetworkMessage::Announce { .. } => MessageKind::Discovery,
        NetworkMessage::GetPeers => MessageKind::Discovery,
        NetworkMessage::Peers { .. } => MessageKind::Discovery,
        NetworkMessage::ChatMessage { .. } => MessageKind::Chat,
        NetworkMessage::ReputationSync { .. } => MessageKind::Reputation,
        NetworkMessage::ReputationReport { .. } => MessageKind::Reputation,
        NetworkMessage::Ping => MessageKind::Keepalive,
        NetworkMessage::Pong => MessageKind::Keepalive,
    }
}

/// The kind of a message. No message is of the kind `All`.
pub fn classify_message(msg: &NetworkMessage) -> (r: MessageKind)
    ensures
        r == kind_of(*msg),
        r != MessageKind::All,
{
    match msg {
        NetworkMessage::Announce { .. } => MessageKind::Discovery,
        NetworkMessage::GetPeers => MessageKind::Discovery,
        NetworkMessage::Peers { .. } => MessageKind::Discovery,
        NetworkMessage::ChatMessage { .. } => MessageKind::Chat,
        NetworkMessage::ReputationSync { .. } => MessageKind::Reputation,
        NetworkMessage::ReputationReport { .. } => MessageKind::Reputation,
        NetworkMessage::Ping => MessageKind::Keepalive,
        NetworkMessage::Pong => MessageKind::Keepalive,
    }
}

/// What is to be done about an event.
#[derive(Debug, PartialEq, Eq)]
pub struct RouterStep {
    /// A message to send.
    pub send: Option<(NodeId, NetworkMessage)>,
    /// A message for subscribers.
    pub dispatch: Option<(MessageKind, RouterEvent)>,
    /// Whether the members of the list have changed.
    pub changed: bool,
}

/// The list after a sign of life of a node that is in it.
pub open spec fn touched(m: Map<Seq<char>, PeerView>, from: Seq<char>, now: i64) -> Map<
    Seq<char>,
    PeerView,
> {
    if m.contains_key(from) {
        upserted(m, PeerView { last_seen: now, ..m[from] })
    } else {
        m
    }
}

/// Whether that changes the members of the list.
pub open spec fn touch_changes(m: Map<Seq<char>, PeerView>, from: Seq<char>, now: i64) -> bool {
    m.contains_key(from) && changes_members(m, PeerView { last_seen: now, ..m[from] })
}

/// The list after some nodes were told to us: those that are in it stay as they are.
pub open spec fn introduced(m: Map<Seq<char>, PeerView>, told: Seq<PeerView>) -> Map<
    Seq<char>,
    PeerView,
>
    decreases told.len(),
{
    if told.len() == 0 {
        m
    } else {
        let before = introduced(m, told.drop_last());
        if before.contains_key(told.last().id) {
            before
        } else {
            upserted(before, told.last())
        }
    }
}

/// Whether one of the nodes that were told to us was not in the list.
pub open spec fn introduces(m: Map<Seq<char>, PeerView>, told: Seq<PeerView>) -> bool
    decreases told.len(),
{
    told.len() > 0 && (introduces(m, told.drop_last()) || !introduced(
        m,
        told.drop_last(),
    ).contains_key(told.last().id))
}

/// The list after an event.
pub open spec fn list_after(
    m: Map<Seq<char>, PeerView>,
    event: ConnectionEvent,
    now: i64,
) -> Map<Seq<char>, PeerView> {
    match event {
        ConnectionEvent::Connected { peer_info, .. } => upserted(m, peer_info@),
        ConnectionEvent::Disconnected { peer_id } => m.remove(peer_id@),
        ConnectionEvent::Message { from, message } => match message {
            NetworkMessage::Peers { peers } => introduced(
                touched(m, from@, now),
                peer_views(peers@),
            ),
            _ => touched(m, from@, now),
        },
    }
}

/// Whether an event changes the members of the list.
pub open spec fn event_changes(
    m: Map<Seq<char>, PeerView>,
    event: ConnectionEvent,
    now: i64,
) -> bool {
    match event {
        ConnectionEvent::Connected { peer_info, .. } => changes_members(m, peer_info@),
        ConnectionEvent::Disconnected { peer_id } => m.contains_key(peer_id@),
        ConnectionEvent::Message { from, message } => match message {
            NetworkMessage::Peers { peers } => touch_changes(m, from@, now) || introduces(
                touched(m, from@, now),
                peer_views(peers@),
            ),
            _ => touch_changes(m, from@, now),
        },
    }
}

/// Enters the nodes that were told to us and are not in the list, and tells whether
/// there were any.
fn introduce(list: &mut PeerList, peers: &Vec<PeerInfo>) -> (changed: bool)
    ensures
        final(list)@ == introduced(old(list)@, peer_views(peers@)),
        changed == introduces(old(list)@, peer_views(peers@)),
{
    let ghost told = peer_views(peers@);
    let ghost m = list@;
    let mut changed: bool = false;
    let mut i: usize = 0;
    assert(told.take(0).len() == 0);
    while i < peers.len()
        invariant
            i <= peers@.len(),
            told == peer_views(peers@),
            list@ == introduced(m, told.take(i as int)),
            changed == introduces(m, told.take(i as int)),
        decreases peers@.len() - i,
    {
        let p: &PeerInfo = &peers[i];
        assert(told[i as int] == p@);
        assert(told.take(i + 1).drop_last() =~= told.take(i as int));
        assert(told.take(i + 1).last() == p@);
        if !list.contains(&p.id) {
            list.upsert(p.clone());
            changed = true;
        }
        i = i + 1;
    }
    assert(told.take(i as int) =~= told);
    changed
}

/// Takes an event of a connection. A node that has connected is entered and asked whom
/// it knows; one that is gone is taken out; a message is a sign of life of its sender.
/// A ping is answered and goes no further; nodes that a message tells of are entered;
/// all messages but pings go to subscribers.
pub fn handle_event(list: &mut PeerList, event: ConnectionEvent, now: i64) -> (r: RouterStep)
    ensures
        final(list)@ == list_after(old(list)@, event, now),
        r.changed == event_changes(old(list)@, event, now),
        match event {
            ConnectionEvent::Connected { peer_info, .. } => {
                &&& r.send matches Some((to, msg)) && to@ == peer_info.id@ && msg
                    == NetworkMessage::GetPeers
                &&& r.dispatch is None
            },
            ConnectionEvent::Disconnected { .. } => r.send is None && r.dispatch is None,
            ConnectionEvent::Message { from, message } => if message == NetworkMessage::Ping {
                &&& r.send == Some((from, NetworkMessage::Pong))
                &&& r.dispatch is None
            } else {
                &&& r.send is None
                &&& r.dispatch == Some((kind_of(message), RouterEvent { from, message }))
            },
        },
{
    match event {
        ConnectionEvent::Connected { peer_info, addr: _ } => {
            let to: NodeId = peer_info.id.clone();
            let changed: bool = list.upsert(peer_info);
            RouterStep { send: Some((to, NetworkMessage::GetPeers)), dispatch: None, changed }
        },
        ConnectionEvent::Disconnected { peer_id } => {
            let changed: bool = list.remove(&peer_id);
            RouterStep { send: None, dispatch: None, changed }
        },
        ConnectionEvent::Message { from, message } => {
            let mut changed: bool = false;
            let ghost m = list@;
            if let Some(peer) = list.get(&from) {
                let ghost said = peer@;
                let mut peer: PeerInfo = peer;
                peer.last_seen = now;
                assert(peer@ =~= (PeerView { last_seen: now, ..said }));
                changed = list.upsert(peer);
            }
            if let NetworkMessage::Ping = message {
                return RouterStep {
                    send: Some((from, NetworkMessage::Pong)),
                    dispatch: None,
                    changed,
                };
            }
            if let NetworkMessage::Peers { peers } = &message {
                let new_nodes: bool = introduce(list, peers);
                changed = changed || new_nodes;
            }
            let kind: MessageKind = classify_message(&message);
            RouterStep { send: None, dispatch: Some((kind, RouterEvent { from, message })), changed }
        },
    }
}

/// Who has subscribed to what. Subscribers are numbers.
pub struct Subscribers {
    pub discovery: Vec<u64>,
    pub chat: Vec<u64>,
    pub reputation: Vec<u64>,
    pub keepalive: Vec<u64>,
    pub all: Vec<u64>,
}

/// The members of `s` that are not in `gone`.
pub open spec fn without(s: Seq<u64>, gone: Seq<u64>) -> Seq<u64> {
    s.filter(|x: u64| !gone.contains(x))
}

impl Subscribers {
    /// The subscribers of a kind in the order in which they came.
    pub open spec fn of(&self, kind: MessageKind) -> Seq<u64> {
        match kind {
            MessageKind::Discovery => self.discovery@,
            MessageKind::Chat => self.chat@,
            MessageKind::Reputation => self.reputation@,
            MessageKind::Keepalive => self.keepalive@,
            MessageKind::All => self.all@,
        }
    }

    /// Nobody has subscribed.
    pub fn new() -> (r: Subscribers)
        ensures
            forall|k: MessageKind| #[trigger] r.of(k) == Seq::<u64>::empty(),
    {
        Subscribers {
            discovery: Vec::new(),
            chat: Vec::new(),
            reputation: Vec::new(),
            keepalive: Vec::new(),
            all: Vec::new(),
        }
    }

    /// Adds a subscriber of a kind.
    pub fn subscribe(&mut self, kind: MessageKind, subscriber: u64)
        ensures
            forall|k: MessageKind| #[trigger]
                final(self).of(k) == (if k == kind {
                    old(self).of(k).push(subscriber)
                } else {
                    old(self).of(k)
                }),
    {
        match kind {
            MessageKind::Discovery => self.discovery.push(subscriber),
            MessageKind::Chat => self.chat.push(subscriber),
            MessageKind::Reputation => self.reputation.push(subscriber),
            MessageKind::Keepalive => self.keepalive.push(subscriber),
            MessageKind::All => self.all.push(subscriber),
        }
    }

    /// Who gets a message of a kind: the subscribers of that kind, then those of
    /// everything.
    pub fn targets(&self, kind: MessageKind) -> (r: Vec<u64>)
        ensures
            r@ == self.of(kind) + self.of(MessageKind::All),
    {
        let first: &Vec<u64> = match kind {
            MessageKind::Discovery => &self.discovery,
            MessageKind::Chat => &self.chat,
            MessageKind::Reputation => &self.reputation,
            MessageKind::Keepalive => &self.keepalive,
            MessageKind::All => &self.all,
        };
        let mut out: Vec<u64> = Vec::new();
        push_all(&mut out, first);
        push_all(&mut out, &self.all);
        assert(Seq::<u64>::empty() + self.of(kind) =~= self.of(kind));
        out
    }

    /// Takes out the subscribers of a kind, and of everything, that are gone.
    pub fn drop_gone(&mut self, kind: MessageKind, gone: &Vec<u64>)
        ensures
            forall|k: MessageKind| #[trigger]
                final(self).of(k) == (if k == kind || k == MessageKind::All {
                    without(old(self).of(k), gone@)
                } else {
                    old(self).of(k)
                }),
    {
        match kind {
            MessageKind::Discovery => {
                self.discovery = filtered(&self.discovery, gone);
            },
            MessageKind::Chat => {
                self.chat = filtered(&self.chat, gone);
            },
            MessageKind::Reputation => {
                self.reputation = filtered(&self.reputation, gone);
            },
            MessageKind::Keepalive => {
                self.keepalive = filtered(&self.keepalive, gone);
            },
            MessageKind::All => {},
        }
        self.all = filtered(&self.all, gone);
    }
}

/// Appends numbers.
fn push_all(out: &mut Vec<u64>, more: &Vec<u64>)
    ensures
        final(out)@ == old(out)@ + more@,
{
    let ghost before = out@;
    let mut i: usize = 0;
    assert(before + more@.take(0) =~= before);
    while i < more.len()
        invariant
            i <= more@.len(),
            out@ == before + more@.take(i as int),
        decreases more@.len() - i,
    {
        out.push(more[i]);
        assert(out@ =~= before + more@.take(i + 1));
        i = i + 1;
    }
    assert(more@.take(i as int) =~= more@);
}

/// Whether a number is in a list.
fn has_number(list: &Vec<u64>, x: u64) -> (r: bool)
    ensures
        r == list@.contains(x),
{
    let mut i: usize = 0;
    while i < list.len()
        invariant
            i <= list@.len(),
            forall|j: int| 0 <= j < i ==> list@[j] != x,
        decreases list@.len() - i,
    {
        if list[i] == x {
            return true;
        }
        i = i + 1;
    }
    false
}

/// The numbers that are not in another list.
fn filtered(list: &Vec<u64>, gone: &Vec<u64>) -> (r: Vec<u64>)
    ensures
        r@ == without(list@, gone@),
{
    let ghost p = |x: u64| !gone@.contains(x);
    let mut out: Vec<u64> = Vec::new();
    let mut i: usize = 0;
    proof {
        reveal(Seq::filter);
    }
    while i < list.len()
        invariant
            i <= list@.len(),
            p == (|x: u64| !gone@.contains(x)),
            out@ == list@.take(i as int).filter(p),
        decreases list@.len() - i,
    {
        proof {
            reveal(Seq::filter);
            assert(list@.take(i + 1).drop_last() =~= list@.take(i as int));
        }
        if !has_number(gone, list[i]) {
            out.push(list[i]);
        }
        i = i + 1;
    }
    assert(list@.take(i as int) =~= list@);
    out
}

/// A message that tells of nodes leaves those that are in the list as they are: their
/// entries come from themselves.
pub proof fn law_introduction_keeps_known_nodes(
    m: Map<Seq<char>, PeerView>,
    told: Seq<PeerView>,
    id: Seq<char>,
)
    requires
        m.contains_key(id),
        m[id].id == id,
        !is_stub(id),
    ensures
        introduced(m, told).contains_key(id),
        introduced(m, told)[id] == m[id],
    decreases told.len(),
{
    if told.len() > 0 {
        law_introduction_keeps_known_nodes(m, told.drop_last(), id);
    }
}

/// Each message is of one kind, by what it is about: who there is, the chat, reputations, or
/// signs of life.
pub proof fn law_messages_have_their_kinds(msg: NetworkMessage)
    ensures
        kind_of(msg) == MessageKind::Discovery <==> msg is Announce || msg is GetPeers
            || msg is Peers,
        kind_of(msg) == MessageKind::Chat <==> msg is ChatMessage,
        kind_of(msg) == MessageKind::Reputation <==> msg is ReputationSync
            || msg is ReputationReport,
        kind_of(msg) == MessageKind::Keepalive <==> msg is Ping || msg is Pong,
        kind_of(msg) != MessageKind::All,
{
}

/// A sign of life of a node in the list sets when it was seen, and nothing else of its entry,
/// and leaves the other known nodes as they are; one of a node that is not in the list changes
/// nothing.
pub proof fn law_sign_of_life_is_noted(
    m: Map<Seq<char>, PeerView>,
    from: Seq<char>,
    now: i64,
    other: Seq<char>,
)
    requires
        forall|k: Seq<char>| #[trigger] m.contains_key(k) ==> m[k].id == k,
        other != from,
    ensures
        !m.contains_key(from) ==> touched(m, from, now) == m && !touch_changes(m, from, now),
        m.contains_key(from) ==> touched(m, from, now).contains_pair(
            from,
            PeerView { last_seen: now, ..m[from] },
        ),
        m.contains_key(other) && !is_stub(other) ==> touched(m, from, now).contains_pair(
            other,
            m[other],
        ),
        !m.contains_key(other) ==> !touched(m, from, now).contains_key(other),
        touch_changes(m, from, now) <==> touched(m, from, now).dom() != m.dom(),
{
    if m.contains_key(from) {
        law_changes_are_told_rightly(m, PeerView { last_seen: now, ..m[from] });
    }
}

/// Nodes that are told are entered one after the other: each as it is told where it is not in
/// the list by then, which counts as a change; nothing happens where it is.
pub proof fn law_unknown_nodes_are_introduced(
    m: Map<Seq<char>, PeerView>,
    told: Seq<PeerView>,
    peer: PeerView,
)
    ensures
        introduced(m, seq![]) == m,
        !introduces(m, seq![]),
        introduced(m, told).contains_key(peer.id) ==> introduced(m, told.push(peer)) == introduced(
            m,
            told,
        ) && introduces(m, told.push(peer)) == introduces(m, told),
        !introduced(m, told).contains_key(peer.id) ==> introduced(m, told.push(peer)) == upserted(
            introduced(m, told),
            peer,
        ) && introduces(m, told.push(peer)),
{
    let more = told.push(peer);
    assert(more.drop_last() =~= told);
    assert(more.last() == peer);
}

/// Every node that is told is in the list afterwards, stubs aside.
pub proof fn law_every_told_node_is_introduced(
    m: Map<Seq<char>, PeerView>,
    told: Seq<PeerView>,
    i: int,
)
    requires
        0 <= i < told.len(),
        !is_stub(told[i].id),
        forall|k: Seq<char>| #[trigger] m.contains_key(k) ==> m[k].id == k,
    ensures
        introduced(m, told).contains_key(told[i].id),
        forall|k: Seq<char>| #[trigger]
            introduced(m, told).contains_key(k) ==> introduced(m, told)[k].id == k,
    decreases told.len(),
{
    let head = told.drop_last();
    lemma_introduced_consistent(m, head);
    if i < told.len() - 1 {
        assert(head[i] == told[i]);
        law_every_told_node_is_introduced(m, head, i);
    }
}

/// Every entry stands under its own name whatever is told.
proof fn lemma_introduced_consistent(m: Map<Seq<char>, PeerView>, told: Seq<PeerView>)
    requires
        forall|k: Seq<char>| #[trigger] m.contains_key(k) ==> m[k].id == k,
    ensures
        forall|k: Seq<char>| #[trigger]
            introduced(m, told).contains_key(k) ==> introduced(m, told)[k].id == k,
    decreases told.len(),
{
    if told.len() > 0 {
        lemma_introduced_consistent(m, told.drop_last());
    }
}

/// What an event does to the list: a node that has connected is entered as it said, one that
/// is gone is taken out and nobody else, and every message is a sign of life of its sender;
/// one that tells of nodes introduces them besides. Whether the members change is told
/// accordingly.
pub proof fn law_events_and_the_list(m: Map<Seq<char>, PeerView>, event: ConnectionEvent, now: i64)
    ensures
        event matches ConnectionEvent::Connected { peer_info, .. } ==> list_after(m, event, now)
            == upserted(m, peer_info@) && (event_changes(m, event, now) == changes_members(
            m,
            peer_info@,
        )),
        event matches ConnectionEvent::Disconnected { peer_id } ==> {
            &&& !list_after(m, event, now).contains_key(peer_id@)
            &&& forall|k: Seq<char>|
                k != peer_id@ ==> (#[trigger] list_after(m, event, now).contains_key(k)
                    <==> m.contains_key(k)) && (m.contains_key(k) ==> list_after(m, event, now)[k]
                    == m[k])
            &&& event_changes(m, event, now) <==> m.contains_key(peer_id@)
        },
        event matches ConnectionEvent::Message { from, message } ==> !(message is Peers)
            ==> list_after(m, event, now) == touched(m, from@, now) && event_changes(m, event, now)
            == touch_changes(m, from@, now),
        event matches ConnectionEvent::Message { from, message } ==> message matches NetworkMessage::Peers {
            peers,
        } ==> {
            let t = touched(m, from@, now);
            &&& list_after(m, event, now) == introduced(t, peer_views(peers@))
            &&& event_changes(m, event, now) <==> touch_changes(m, from@, now) || introduces(
                t,
                peer_views(peers@),
            )
        },
{
}

/// Each kind has its own subscribers.
pub proof fn law_kinds_have_their_own_subscribers(s: Subscribers)
    ensures
        s.of(MessageKind::Discovery) == s.discovery@,
        s.of(MessageKind::Chat) == s.chat@,
        s.of(MessageKind::Reputation) == s.reputation@,
        s.of(MessageKind::Keepalive) == s.keepalive@,
        s.of(MessageKind::All) == s.all@,
{
}

/// Subscribers who are gone are taken out, each time they occur; the others stay, each time,
/// in their order.
pub proof fn law_only_gone_subscribers_go(s: Seq<u64>, x: u64, gone: Seq<u64>)
    ensures
        without(seq![], gone) == Seq::<u64>::empty(),
        gone.contains(x) ==> without(s.push(x), gone) == without(s, gone),
        !gone.contains(x) ==> without(s.push(x), gone) == without(s, gone).push(x),
{
    reveal(Seq::filter);
    assert(s.push(x).drop_last() =~= s);
}

} // verus!
