//! The public chat. One node relays for all: the one whose name comes first among the
//! known nodes. The others keep a connection to it.

use vstd::prelude::*;
use vstd::utf8::encode_utf8;

use crate::discovery::bootstrap::{is_real, is_real_id};
use crate::discovery::peer_list::{
    changes_members, is_stub, is_stub_id, lists_all, upserted, PeerList,
};
use crate::node::addr::IpAddr;
use crate::node::identity::{lists_names, NodeId};
use crate::node::peer::{peer_views, PeerInfo, PeerProfile, PeerView};
use crate::util::clock::unix_now;
use crate::util::table::Table;
use crate::util::text::{
    is_text_before, lemma_text_before_total, lemma_text_before_transitive,
    lemma_text_before_irreflexive, same_text, text_before,
};

verus! {

/// The longest packet, in bytes.
pub const MAX_MESSAGE_LEN: usize = 65536;

/// How many messages are remembered to tell copies.
pub const DEDUP_WINDOW: usize = 256;

/// How many messages are kept to show.
pub const HISTORY_LEN: usize = 100;

/// The seconds between pings to the relay.
pub const PING_INTERVAL_SECS: u64 = 15;

/// A message of the chat.
#[derive(Debug, PartialEq, Eq)]
pub struct ChatMessage {
    pub from: NodeId,
    pub from_name: String,
    pub text: String,
    pub timestamp: i64,
    /// The sender's running number.
    pub seq: u64,
    pub signature: Option<String>,
}

impl Clone for ChatMessage {
    fn clone(&self) -> (r: ChatMessage)
        ensures
            r == *self,
    {
        let signature: Option<String> = match &self.signature {
            Some(s) => Some(s.clone()),
            None => None,
        };
        ChatMessage {
            from: self.from.clone(),
            from_name: self.from_name.clone(),
            text: self.text.clone(),
            timestamp: self.timestamp,
            seq: self.seq,
            signature,
        }
    }
}

impl ChatMessage {
    /// An unsigned message of this moment.
    pub fn new(from: NodeId, from_name: String, text: String, seq: u64) -> (r: ChatMessage)
        ensures
            r.from == from,
            r.from_name == from_name,
            r.text == text,
            r.seq == seq,
            r.signature is None,
    {
        ChatMessage::at(from, from_name, text, seq, unix_now())
    }

    /// An unsigned message of the given moment.
    pub fn at(from: NodeId, from_name: String, text: String, seq: u64, timestamp: i64) -> (r:
        ChatMessage)
        ensures
            r == (ChatMessage { from, from_name, text, timestamp, seq, signature: None }),
    {
        ChatMessage { from, from_name, text, timestamp, seq, signature: None }
    }

    /// What tells the message from others: its sender and the sender's number.
    pub open spec fn key(&self) -> (Seq<char>, u64) {
        (self.from@, self.seq)
    }
}

/// A packet of the chat.
#[derive(Debug, PartialEq, Eq)]
pub enum ChatPacket {
    Message(ChatMessage),
    /// What was said before.
    History { messages: Vec<ChatMessage> },
    /// A node says who it is, and where its own chat service listens.
    Hello { node_id: NodeId, name: String, chat_port: u16 },
    ProfileUpdate(PeerProfile),
    Ping,
    Pong,
    /// A packet of a later version.
    Unknown,
}

/// What is done about a packet of a connection that stands.
#[derive(Debug, PartialEq, Eq)]
pub enum PacketStep {
    Take(ChatMessage),
    TakeProfile(PeerProfile),
    AnswerPong,
    Ignore,
}

/// What is done about a packet of a connection that stands.
pub fn packet_step(packet: ChatPacket) -> (r: PacketStep)
    ensures
        r == (match packet {
            ChatPacket::Message(m) => PacketStep::Take(m),
            ChatPacket::ProfileUpdate(p) => PacketStep::TakeProfile(p),
            ChatPacket::Ping => PacketStep::AnswerPong,
            _ => PacketStep::Ignore,
        }),
{
    match packet {
        ChatPacket::Message(m) => PacketStep::Take(m),
        ChatPacket::ProfileUpdate(p) => PacketStep::TakeProfile(p),
        ChatPacket::Ping => PacketStep::AnswerPong,
        _ => PacketStep::Ignore,
    }
}

/// Who a client is, by its first packet. Nothing else will do.
pub fn greeting(first: ChatPacket) -> (r: Option<(NodeId, String, u16)>)
    ensures
        r == (match first {
            ChatPacket::Hello { node_id, name, chat_port } => Some((node_id, name, chat_port)),
            _ => None,
        }),
{
    match first {
        ChatPacket::Hello { node_id, name, chat_port } => Some((node_id, name, chat_port)),
        _ => None,
    }
}

/// What is known of the chat.
#[verifier::ext_equal]
pub struct ChatView {
    pub me: PeerView,
    pub chat_port: u16,
    /// The last messages, the oldest first.
    pub history: Seq<ChatMessage>,
    /// The last messages' keys, the oldest first.
    pub seen: Seq<(Seq<char>, u64)>,
    /// The number of our last message.
    pub counter: u64,
    /// The relay, unless that is we.
    pub relay: Option<Seq<char>>,
    /// Whether there is a connection to the relay.
    pub linked: bool,
    /// The clients with the numbers of their connections.
    pub clients: Map<Seq<char>, u64>,
    pub profiles: Map<Seq<char>, PeerProfile>,
    pub my_profile: Option<PeerProfile>,
    /// The number of the last connection to a relay.
    pub generation: u64,
}

/// The state of the chat.
pub struct PublicChat {
    my_peer: PeerInfo,
    chat_port: u16,
    history: Vec<ChatMessage>,
    seen: Vec<(String, u64)>,
    counter: u64,
    relay: Option<NodeId>,
    linked: bool,
    clients: Table<u64>,
    profiles: Table<PeerProfile>,
    my_profile: Option<PeerProfile>,
    generation: u64,
}

/// The keys of a list.
pub open spec fn key_texts(s: Seq<(String, u64)>) -> Seq<(Seq<char>, u64)> {
    s.map_values(|k: (String, u64)| (k.0@, k.1))
}

impl View for PublicChat {
    type V = ChatView;

    closed spec fn view(&self) -> ChatView {
        ChatView {
            me: self.my_peer@,
            chat_port: self.chat_port,
            history: self.history@,
            seen: key_texts(self.seen@),
            counter: self.counter,
            relay: match self.relay {
                Some(id) => Some(id@),
                None => None,
            },
            linked: self.linked,
            clients: self.clients@,
            profiles: self.profiles@,
            my_profile: self.my_profile,
            generation: self.generation,
        }
    }
}

/// The kept messages with one more: the oldest goes where there are enough.
pub open spec fn remembered(history: Seq<ChatMessage>, msg: ChatMessage) -> Seq<ChatMessage> {
    if history.len() >= HISTORY_LEN {
        history.drop_first().push(msg)
    } else {
        history.push(msg)
    }
}

/// The kept messages with some more.
pub open spec fn remembered_all(history: Seq<ChatMessage>, more: Seq<ChatMessage>) -> Seq<
    ChatMessage,
>
    decreases more.len(),
{
    if more.len() == 0 {
        history
    } else {
        remembered(remembered_all(history, more.drop_last()), more.last())
    }
}

/// The remembered keys with one more: the oldest goes where there are too many.
pub open spec fn noted(seen: Seq<(Seq<char>, u64)>, key: (Seq<char>, u64)) -> Seq<(Seq<char>, u64)> {
    if seen.push(key).len() > DEDUP_WINDOW {
        seen.push(key).drop_first()
    } else {
        seen.push(key)
    }
}

/// Whether the names are those of the table, each once.
pub open spec fn lists_keys(names: Seq<Seq<char>>, m: Map<Seq<char>, PeerProfile>) -> bool {
    &&& names.no_duplicates()
    &&& names.to_set() == m.dom()
}

/// Whether the profiles are those of the table: one for each name.
pub open spec fn lists_profiles(s: Seq<PeerProfile>, m: Map<Seq<char>, PeerProfile>) -> bool {
    exists|names: Seq<Seq<char>>| #[trigger]
        lists_keys(names, m) && s == names.map_values(|k: Seq<char>| m[k])
}

/// The packets that carry profiles.
pub open spec fn profile_packets(s: Seq<PeerProfile>) -> Seq<ChatPacket> {
    s.map_values(|p: PeerProfile| ChatPacket::ProfileUpdate(p))
}

impl ChatView {
    /// Whether each profile is kept under the name of the node that it describes.
    pub open spec fn profiles_named(self) -> bool {
        forall|k: Seq<char>| #[trigger]
            self.profiles.contains_key(k) ==> self.profiles[k].node_id@ == k
    }

    /// Whether the packets are what a client is told first: what was said before; then,
    /// for each name that a profile is known of, that profile; last our own one, if there
    /// is one.
    pub open spec fn welcomed_by(self, packets: Seq<ChatPacket>) -> bool {
        &&& packets.len() > 0
        &&& packets[0] matches ChatPacket::History { messages } && messages@ == self.history
        &&& exists|known: Seq<PeerProfile>| #[trigger]
            lists_profiles(known, self.profiles) && packets.skip(1) == profile_packets(known) + (
            match self.my_profile {
                Some(p) => seq![ChatPacket::ProfileUpdate(p)],
                None => seq![],
            })
    }

    /// Whether what is kept is within its bounds and no key is there twice.
    pub open spec fn bounded(self) -> bool {
        &&& self.history.len() <= HISTORY_LEN
        &&& self.seen.len() <= DEDUP_WINDOW
        &&& self.seen.no_duplicates()
    }

    /// The state after a message. A copy of one that is remembered changes nothing.
    pub open spec fn after(self, msg: ChatMessage) -> ChatView {
        if self.seen.contains(msg.key()) {
            self
        } else {
            ChatView {
                history: remembered(self.history, msg),
                seen: noted(self.seen, msg.key()),
                ..self
            }
        }
    }

    /// The state after some messages.
    pub open spec fn after_all(self, msgs: Seq<ChatMessage>) -> ChatView
        decreases msgs.len(),
    {
        if msgs.len() == 0 {
            self
        } else {
            self.after_all(msgs.drop_last()).after(msgs.last())
        }
    }

    /// The name that we show: that of our profile if it has one, else that of our node.
    pub open spec fn shown_name(self) -> Seq<char> {
        match self.my_profile {
            Some(p) => if p.name@.len() > 0 {
                p.name@
            } else {
                self.me.name
            },
            None => self.me.name,
        }
    }
}

/// A message that we send: the message, to whom it goes at once, and whether it goes to
/// the relay.
#[derive(Debug, PartialEq, Eq)]
pub struct Sending {
    pub message: ChatMessage,
    /// The clients that get it, or nothing if it was a copy.
    pub clients: Option<Vec<NodeId>>,
    pub route: SendRoute,
}

/// Where a message that we send goes besides our clients.
#[derive(Debug, Clone, Copy, PartialEq, Eq, Structural)]
pub enum SendRoute {
    /// We are the relay.
    WeRelay,
    /// To the relay.
    ToRelay,
    /// Nowhere: there is no connection to the relay yet.
    LocalOnly,
}

impl PublicChat {
    /// A chat in which nothing has been said. Until a relay is elected it is we.
    pub fn new(my_peer: PeerInfo, chat_port: u16) -> (r: PublicChat)
        ensures
            r@ == (ChatView {
                me: my_peer@,
                chat_port,
                history: Seq::empty(),
                seen: Seq::empty(),
                counter: 0,
                relay: None,
                linked: false,
                clients: Map::empty(),
                profiles: Map::empty(),
                my_profile: None,
                generation: 0,
            }),
            r@.bounded(),
            r@.profiles_named(),
    {
        let r: PublicChat = PublicChat {
            my_peer,
            chat_port,
            history: Vec::new(),
            seen: Vec::new(),
            counter: 0,
            relay: None,
            linked: false,
            clients: Table::new(),
            profiles: Table::new(),
            my_profile: None,
            generation: 0,
        };
        assert(key_texts(r.seen@) =~= Seq::empty());
        r
    }

    /// The last `n` messages, or all of them, the oldest first.
    pub fn recent(&self, n: usize) -> (r: Vec<ChatMessage>)
        ensures
            r@ == (if n < self@.history.len() {
                self@.history.skip(self@.history.len() - n)
            } else {
                self@.history
            }),
    {
        let start: usize = if n < self.history.len() {
            self.history.len() - n
        } else {
            0
        };
        copy_messages(&self.history, start)
    }

    /// The profiles that are known, one for each name.
    pub fn get_profiles(&self) -> (r: Vec<PeerProfile>)
        ensures
            lists_profiles(r@, self@.profiles),
    {
        let n: usize = self.profiles.len();
        let ghost names = self.profiles.names();
        let mut out: Vec<PeerProfile> = Vec::new();
        let mut i: usize = 0;
        while i < n
            invariant
                i <= n,
                n == names.len(),
                names == self.profiles.names(),
                out@.len() == i,
                forall|j: int| 0 <= j < i ==> (#[trigger] out@[j]) == self.profiles@[names[j]],
            decreases n - i,
        {
            out.push(self.profiles.value_at(i).clone());
            i = i + 1;
        }
        proof {
            let m = self@.profiles;
            assert(lists_keys(names, m));
            assert(out@ =~= names.map_values(|k: Seq<char>| m[k]));
        }
        out
    }

    /// The clients but one.
    fn clients_except(&self, node: &NodeId) -> (r: Vec<NodeId>)
        ensures
            lists_names(r@, self@.clients.dom().remove(node@)),
    {
        let n: usize = self.clients.len();
        let ghost names = self.clients.names();
        let mut out: Vec<NodeId> = Vec::new();
        let ghost mut picked: Seq<int> = Seq::empty();
        let mut i: usize = 0;
        while i < n
            invariant
                i <= n,
                n == names.len(),
                names == self.clients.names(),
                picked.len() == out@.len(),
                forall|x: int|
                    0 <= x < picked.len() ==> {
                        &&& 0 <= #[trigger] picked[x] < i
                        &&& out@[x]@ == names[picked[x]]
                        &&& names[picked[x]] != node@
                    },
                forall|x: int, y: int|
                    0 <= x < y < picked.len() ==> #[trigger] picked[x] < #[trigger] picked[y],
                forall|j: int| 0 <= j < i && #[trigger] names[j] != node@ ==> picked.contains(j),
            decreases n - i,
        {
            let name: NodeId = NodeId(self.clients.name_at(i).clone());
            if !name.same(node) {
                let ghost before = picked;
                out.push(name);
                proof {
                    picked = picked.push(i as int);
                    assert forall|j: int|
                        0 <= j < i + 1 && #[trigger] names[j] != node@ implies picked.contains(
                        j,
                    ) by {
                        if j < i {
                            let x: int = choose|x: int| 0 <= x < before.len() && before[x] == j;
                            assert(picked[x] == j);
                        } else {
                            assert(picked[before.len() as int] == j);
                        }
                    }
                }
            }
            i = i + 1;
        }
        proof {
            let rest = self@.clients.dom().remove(node@);
            assert forall|x: int| 0 <= x < out@.len() implies rest.contains(
                (#[trigger] out@[x])@,
            ) by {
                assert(names[picked[x]] == out@[x]@);
                assert(names.to_set().contains(names[picked[x]]));
            }
            assert forall|x: int, y: int| 0 <= x < y < out@.len() implies (#[trigger] out@[x])@
                != (#[trigger] out@[y])@ by {
                assert(picked[x] < picked[y]);
                assert(names[picked[x]] != names[picked[y]]);
            }
            assert forall|k: Seq<char>| #[trigger] rest.contains(k) implies exists|x: int|
                0 <= x < out@.len() && (#[trigger] out@[x])@ == k by {
                assert(names.to_set().contains(k));
                let j: int = choose|j: int| 0 <= j < names.len() && names[j] == k;
                assert(names[j] != node@);
                let x: int = choose|x: int| 0 <= x < picked.len() && picked[x] == j;
                assert(out@[x]@ == k);
            }
        }
        out
    }

    /// Whether the key is remembered.
    fn has_seen(&self, from: &NodeId, seq: u64) -> (r: bool)
        ensures
            r == self@.seen.contains((from@, seq)),
    {
        let ghost keys = key_texts(self.seen@);
        let mut i: usize = 0;
        while i < self.seen.len()
            invariant
                i <= self.seen@.len(),
                keys == key_texts(self.seen@),
                forall|j: int| 0 <= j < i ==> #[trigger] keys[j] != (from@, seq),
            decreases self.seen@.len() - i,
        {
            assert(keys[i as int] == (self.seen@[i as int].0@, self.seen@[i as int].1));
            if self.seen[i].1 == seq && same_text(self.seen[i].0.as_str(), from.as_str()) {
                return true;
            }
            i = i + 1;
        }
        false
    }

    /// Takes a message. A copy of one that is remembered is dropped; any other is kept,
    /// shown, and goes to all clients but its sender.
    pub fn handle_incoming(&mut self, msg: &ChatMessage) -> (r: Option<Vec<NodeId>>)
        ensures
            final(self)@ == old(self)@.after(*msg),
            old(self)@.bounded() ==> final(self)@.bounded(),
            match r {
                None => old(self)@.seen.contains(msg.key()),
                Some(to) => !old(self)@.seen.contains(msg.key()) && lists_names(
                    to@,
                    old(self)@.clients.dom().remove(msg.from@),
                ),
            },
    {
        if self.has_seen(&msg.from, msg.seq) {
            return None;
        }
        let ghost v = self@;
        self.seen.push((msg.from.0.clone(), msg.seq));
        assert(key_texts(self.seen@) =~= v.seen.push(msg.key()));
        if self.seen.len() > DEDUP_WINDOW {
            self.seen.remove(0);
            assert(key_texts(self.seen@) =~= v.seen.push(msg.key()).drop_first());
        }
        self.remember(msg.clone());
        assert(self@ =~= v.after(*msg));
        proof {
            if v.bounded() {
                law_bounds_are_kept(v, *msg);
            }
        }
        Some(self.clients_except(&msg.from))
    }

    /// Keeps a message to show.
    fn remember(&mut self, msg: ChatMessage)
        ensures
            final(self)@ == (ChatView {
                history: remembered(old(self)@.history, msg),
                ..old(self)@
            }),
    {
        let ghost h = self.history@;
        if self.history.len() >= HISTORY_LEN {
            self.history.remove(0);
            assert(self.history@ =~= h.drop_first());
        }
        self.history.push(msg);
        assert(self@ =~= (ChatView { history: remembered(old(self)@.history, msg), ..old(self)@ }));
    }

    /// Takes what the relay says was said before.
    pub fn merge_history(&mut self, messages: Vec<ChatMessage>)
        ensures
            final(self)@ == (ChatView {
                history: remembered_all(old(self)@.history, messages@),
                ..old(self)@
            }),
            old(self)@.bounded() ==> final(self)@.bounded(),
    {
        let ghost v = self@;
        let mut i: usize = 0;
        assert(messages@.take(0).len() == 0);
        assert(self@ =~= (ChatView { history: remembered_all(v.history, messages@.take(0)), ..v }));
        while i < messages.len()
            invariant
                i <= messages@.len(),
                self@ == (ChatView {
                    history: remembered_all(v.history, messages@.take(i as int)),
                    ..v
                }),
                v.bounded() ==> self@.bounded(),
            decreases messages@.len() - i,
        {
            assert(messages@.take(i + 1).drop_last() =~= messages@.take(i as int));
            self.remember(messages[i].clone());
            i = i + 1;
        }
        assert(messages@.take(i as int) =~= messages@);
    }

    /// Takes the first packet of the relay. It should tell what was said before; any other
    /// packet is passed over.
    pub fn take_first_from_relay(&mut self, first: ChatPacket)
        ensures
            final(self)@ == (match first {
                ChatPacket::History { messages } => ChatView {
                    history: remembered_all(old(self)@.history, messages@),
                    ..old(self)@
                },
                _ => old(self)@,
            }),
            old(self)@.bounded() ==> final(self)@.bounded(),
    {
        match first {
            ChatPacket::History { messages } => self.merge_history(messages),
            _ => {},
        }
    }

    /// Takes what a node says about itself. Its name goes into the list of nodes too,
    /// if it has told one; the profile goes to all clients but the node itself.
    pub fn handle_profile_update(&mut self, list: &mut PeerList, profile: &PeerProfile) -> (r: (
        Vec<NodeId>,
        bool,
    ))
        ensures
            final(self)@ == (ChatView {
                profiles: old(self)@.profiles.insert(profile.node_id@, *profile),
                ..old(self)@
            }),
            old(self)@.profiles_named() ==> final(self)@.profiles_named(),
            lists_names(r.0@, old(self)@.clients.dom().remove(profile.node_id@)),
            ({
                let id = profile.node_id@;
                let m = old(list)@;
                if profile.name@.len() > 0 && m.contains_key(id) && m[id].name != profile.name@ {
                    &&& final(list)@ == upserted(m, PeerView { name: profile.name@, ..m[id] })
                    &&& r.1 == changes_members(m, PeerView { name: profile.name@, ..m[id] })
                } else {
                    final(list)@ == m && !r.1
                }
            }),
    {
        let ghost v = self@;
        self.profiles.insert(profile.node_id.0.clone(), profile.clone());
        assert(self@ =~= (ChatView {
            profiles: v.profiles.insert(profile.node_id@, *profile),
            ..v
        }));
        let mut changed: bool = false;
        if !profile.name.as_str().is_empty() {
            if let Some(peer) = list.get(&profile.node_id) {
                if !same_text(peer.name.as_str(), profile.name.as_str()) {
                    let ghost said = peer@;
                    let mut peer: PeerInfo = peer;
                    peer.name = profile.name.clone();
                    assert(peer@ =~= (PeerView { name: profile.name@, ..said }));
                    changed = list.upsert(peer);
                }
            }
        }
        (self.clients_except(&profile.node_id), changed)
    }

    /// Sets our own profile. It goes to all clients, and to the relay if there is a
    /// connection to it.
    pub fn set_profile(&mut self, profile: PeerProfile) -> (r: (Vec<NodeId>, bool))
        ensures
            final(self)@ == (ChatView { my_profile: Some(profile), ..old(self)@ }),
            lists_names(r.0@, old(self)@.clients.dom()),
            r.1 == old(self)@.linked,
    {
        let ghost v = self@;
        self.my_profile = Some(profile);
        assert(self@ =~= (ChatView { my_profile: Some(profile), ..v }));
        let n: usize = self.clients.len();
        let ghost names = self.clients.names();
        let mut out: Vec<NodeId> = Vec::new();
        let mut i: usize = 0;
        while i < n
            invariant
                i <= n,
                n == names.len(),
                names == self.clients.names(),
                out@.len() == i,
                forall|j: int| 0 <= j < i ==> (#[trigger] out@[j])@ == names[j],
            decreases n - i,
        {
            out.push(NodeId(self.clients.name_at(i).clone()));
            i = i + 1;
        }
        proof {
            assert forall|j: int| 0 <= j < out@.len() implies v.clients.dom().contains(
                (#[trigger] out@[j])@,
            ) by {
                assert(names.to_set().contains(names[j]));
            }
            assert forall|k: Seq<char>| #[trigger] v.clients.dom().contains(k) implies exists|j: int|
                0 <= j < out@.len() && (#[trigger] out@[j])@ == k by {
                assert(names.to_set().contains(k));
                let j: int = choose|j: int| 0 <= j < names.len() && names[j] == k;
                assert(out@[j]@ == k);
            }
        }
        (out, self.linked)
    }

    /// The name that we show.
    pub fn my_name(&self) -> (r: String)
        ensures
            r@ == self@.shown_name(),
    {
        match &self.my_profile {
            Some(p) => if p.name.as_str().is_empty() {
                self.my_peer.name.clone()
            } else {
                p.name.clone()
            },
            None => self.my_peer.name.clone(),
        }
    }

    /// Whether there is a number left for a message of ours.
    pub fn has_numbers_left(&self) -> (r: bool)
        ensures
            r == (self@.counter < u64::MAX),
    {
        self.counter < u64::MAX
    }

    /// Says something: a message with our next number, which we show at once.
    pub fn send(&mut self, text: String, timestamp: i64) -> (r: Sending)
        requires
            old(self)@.counter < u64::MAX,
        ensures
            r.message.from@ == old(self)@.me.id,
            r.message.from_name@ == old(self)@.shown_name(),
            r.message.text == text,
            r.message.timestamp == timestamp,
            r.message.seq == old(self)@.counter + 1,
            r.message.signature is None,
            final(self)@ == (ChatView {
                counter: (old(self)@.counter + 1) as u64,
                ..old(self)@
            }).after(r.message),
            old(self)@.bounded() ==> final(self)@.bounded(),
            r.clients is None <==> old(self)@.seen.contains(r.message.key()),
            r.clients matches Some(to) ==> lists_names(
                to@,
                old(self)@.clients.dom().remove(old(self)@.me.id),
            ),
            r.route == (if old(self)@.relay is None {
                SendRoute::WeRelay
            } else if old(self)@.linked {
                SendRoute::ToRelay
            } else {
                SendRoute::LocalOnly
            }),
    {
        let ghost v = self@;
        self.counter = self.counter + 1;
        assert(self@ =~= (ChatView { counter: (v.counter + 1) as u64, ..v }));
        let name: String = self.my_name();
        let message: ChatMessage = ChatMessage::at(
            self.my_peer.id.clone(),
            name,
            text,
            self.counter,
            timestamp,
        );
        let clients: Option<Vec<NodeId>> = self.handle_incoming(&message);
        let route: SendRoute = if self.relay.is_none() {
            SendRoute::WeRelay
        } else if self.linked {
            SendRoute::ToRelay
        } else {
            SendRoute::LocalOnly
        };
        Sending { message, clients, route }
    }

    /// What a client is told first.
    pub fn welcome(&self) -> (r: Vec<ChatPacket>)
        ensures
            self@.welcomed_by(r@),
    {
        let mut out: Vec<ChatPacket> = Vec::new();
        out.push(ChatPacket::History { messages: copy_messages(&self.history, 0) });
        let profiles: Vec<PeerProfile> = self.get_profiles();
        let mut i: usize = 0;
        while i < profiles.len()
            invariant
                i <= profiles@.len(),
                out@.len() == 1 + i,
                out@[0] matches ChatPacket::History { messages } && messages@ == self@.history,
                forall|j: int|
                    0 <= j < i ==> out@[j + 1] == ChatPacket::ProfileUpdate(
                        #[trigger] profiles@[j],
                    ),
            decreases profiles@.len() - i,
        {
            out.push(ChatPacket::ProfileUpdate(profiles[i].clone()));
            i = i + 1;
        }
        let ghost listed = out@;
        assert(listed.skip(1) =~= profile_packets(profiles@));
        if let Some(p) = &self.my_profile {
            out.push(ChatPacket::ProfileUpdate(p.clone()));
            assert(out@.skip(1) =~= listed.skip(1).push(out@.last()));
        }
        assert(out@.skip(1) =~= profile_packets(profiles@) + (match self@.my_profile {
            Some(p) => seq![ChatPacket::ProfileUpdate(p)],
            None => seq![],
        }));
        out
    }

    /// What we tell the relay first.
    pub fn hello(&self) -> (r: ChatPacket)
        ensures
            r matches ChatPacket::Hello { node_id, name, chat_port } && node_id@ == self@.me.id
                && name@ == self@.shown_name() && chat_port == self@.chat_port,
    {
        ChatPacket::Hello {
            node_id: self.my_peer.id.clone(),
            name: self.my_name(),
            chat_port: self.chat_port,
        }
    }

    /// Our own profile, if there is one.
    pub fn own_profile(&self) -> (r: Option<PeerProfile>)
        ensures
            r == self@.my_profile,
    {
        match &self.my_profile {
            Some(p) => Some(p.clone()),
            None => None,
        }
    }

    /// Enters a client with the number of its connection.
    pub fn add_client(&mut self, node: &NodeId, connection: u64)
        ensures
            final(self)@ == (ChatView {
                clients: old(self)@.clients.insert(node@, connection),
                ..old(self)@
            }),
    {
        let ghost v = self@;
        self.clients.insert(node.0.clone(), connection);
        assert(self@ =~= (ChatView { clients: v.clients.insert(node@, connection), ..v }));
    }

    /// Takes a client out.
    pub fn remove_client(&mut self, node: &NodeId)
        ensures
            final(self)@ == (ChatView {
                clients: old(self)@.clients.remove(node@),
                ..old(self)@
            }),
    {
        let ghost v = self@;
        self.clients.remove(node.as_str());
        assert(self@ =~= (ChatView { clients: v.clients.remove(node@), ..v }));
    }

    /// The connection of a client.
    pub fn client_connection(&self, node: &NodeId) -> (r: Option<u64>)
        ensures
            r == (if self@.clients.contains_key(node@) {
                Some(self@.clients[node@])
            } else {
                None
            }),
    {
        match self.clients.get(node.as_str()) {
            Some(c) => Some(*c),
            None => None,
        }
    }

    /// Whether the relay is the given node.
    fn relay_is(&self, node: &NodeId) -> (r: bool)
        ensures
            r == (self@.relay == Some(node@)),
    {
        match &self.relay {
            Some(id) => id.same(node),
            None => false,
        }
    }

    /// What is to be done about the relay, now that these nodes are known. Where we are
    /// elected we give up any connection to a relay; else we keep the connection to the
    /// elected one if it lives, or else connect to it.
    pub fn relay_step(&mut self, peers: &Vec<PeerInfo>, link_alive: bool) -> (r: RelayStep)
        ensures
            ({
                let views = peer_views(peers@);
                let v = old(self)@;
                if views.len() == 0 {
                    r is Idle && final(self)@ == v
                } else if elected(v.me.id, views) == v.me.id {
                    &&& r is WeRelay
                    &&& final(self)@ == (if v.relay is Some {
                        ChatView { relay: None, linked: false, ..v }
                    } else {
                        v
                    })
                } else if v.relay == Some(elected(v.me.id, views)) && v.linked && link_alive {
                    r is Keep && final(self)@ == v
                } else {
                    &&& final(self)@ == v
                    &&& r matches RelayStep::Connect(p) && p@.id == elected(v.me.id, views)
                        && views.contains(p@)
                }
            }),
            forall|i: int|
                0 <= i < peers@.len() && encode_utf8((#[trigger] peers@[i]).id@).len() == 64
                    ==> match r {
                    RelayStep::WeRelay => !text_before(peers@[i].id@, old(self)@.me.id),
                    RelayStep::Connect(p) => !text_before(peers@[i].id@, p.id@) && text_before(
                        p.id@,
                        old(self)@.me.id,
                    ) && encode_utf8(p.id@).len() == 64,
                    RelayStep::Keep => old(self)@.relay matches Some(n) && !text_before(
                        peers@[i].id@,
                        n,
                    ) && text_before(n, old(self)@.me.id),
                    RelayStep::Idle => false,
                },
    {
        if peers.len() == 0 {
            return RelayStep::Idle;
        }
        let ghost v = self@;
        let ghost views = peer_views(peers@);
        proof {
            assert forall|i: int|
                0 <= i < peers@.len() && encode_utf8((#[trigger] peers@[i]).id@).len()
                    == 64 implies {
                let e = elected(v.me.id, views);
                &&& !text_before(peers@[i].id@, e)
                &&& e == v.me.id || text_before(e, v.me.id) && encode_utf8(e).len() == 64
            } by {
                assert(views[i] == peers@[i]@);
                law_every_known_node_is_a_candidate(v.me.id, views, i);
            }
        }
        let choice: Option<usize> = elect(&self.my_peer.id, peers);
        match choice {
            None => {
                if self.relay.is_some() {
                    self.relay = None;
                    self.linked = false;
                    assert(self@ =~= (ChatView { relay: None, linked: false, ..v }));
                }
                RelayStep::WeRelay
            },
            Some(i) => {
                let peer: &PeerInfo = &peers[i];
                assert(views[i as int] == peer@);
                if self.relay_is(&peer.id) && self.linked && link_alive {
                    return RelayStep::Keep;
                }
                let chosen: PeerInfo = peer.clone();
                assert(views[i as int] == chosen@);
                RelayStep::Connect(chosen)
            },
        }
    }

    /// Notes that the connection to the elected relay stands, and gives it a number.
    pub fn relay_connected(&mut self, relay: NodeId) -> (generation: u64)
        ensures
            generation == (if old(self)@.generation == u64::MAX {
                0
            } else {
                (old(self)@.generation + 1) as u64
            }),
            final(self)@ == (ChatView {
                relay: Some(relay@),
                linked: true,
                generation,
                ..old(self)@
            }),
    {
        let ghost v = self@;
        self.generation = if self.generation == u64::MAX {
            0
        } else {
            self.generation + 1
        };
        self.relay = Some(relay);
        self.linked = true;
        assert(self@ =~= (ChatView {
            relay: Some(relay@),
            linked: true,
            generation: self.generation,
            ..v
        }));
        self.generation
    }

    /// Notes that a ping over the connection with the given number has failed. That of
    /// an older connection says nothing about the one that stands.
    pub fn ping_failed(&mut self, generation: u64)
        ensures
            final(self)@ == (if old(self)@.generation == generation {
                ChatView { linked: false, ..old(self)@ }
            } else {
                old(self)@
            }),
    {
        let ghost v = self@;
        if self.generation == generation {
            self.linked = false;
            assert(self@ =~= (ChatView { linked: false, ..v }));
        }
    }
}

/// A copy of messages from a place on.
fn copy_messages(messages: &Vec<ChatMessage>, start: usize) -> (r: Vec<ChatMessage>)
    requires
        start <= messages@.len(),
    ensures
        r@ == messages@.skip(start as int),
        start == 0 ==> r@ == messages@,
{
    let mut out: Vec<ChatMessage> = Vec::new();
    let mut i: usize = start;
    while i < messages.len()
        invariant
            start <= i <= messages@.len(),
            out@ == messages@.subrange(start as int, i as int),
        decreases messages@.len() - i,
    {
        out.push(messages[i].clone());
        assert(out@ =~= messages@.subrange(start as int, i + 1));
        i = i + 1;
    }
    assert(out@ =~= messages@.skip(start as int));
    out
}

/// What is to be done about the relay.
#[derive(Debug, PartialEq, Eq)]
pub enum RelayStep {
    /// No node is known.
    Idle,
    /// We are the relay.
    WeRelay,
    /// The connection to the relay lives.
    Keep,
    /// Connect to this node.
    Connect(PeerInfo),
}

/// The first of the given names that none comes before.
pub open spec fn first_name(names: Seq<Seq<char>>) -> Seq<char>
    decreases names.len(),
{
    if names.len() <= 1 {
        names[0]
    } else if text_before(names.last(), first_name(names.drop_last())) {
        names.last()
    } else {
        first_name(names.drop_last())
    }
}

/// The names of the known nodes among some.
pub open spec fn real_names(peers: Seq<PeerView>) -> Seq<Seq<char>>
    decreases peers.len(),
{
    if peers.len() == 0 {
        seq![]
    } else if is_real(peers.last().id) {
        real_names(peers.drop_last()).push(peers.last().id)
    } else {
        real_names(peers.drop_last())
    }
}

/// Who relays: of the known nodes and ourselves the one whose name comes first. Where
/// no node is known, only stubs, the first stub is asked to.
pub open spec fn elected(me: Seq<char>, peers: Seq<PeerView>) -> Seq<char> {
    if real_names(peers).len() == 0 {
        peers[0].id
    } else {
        first_name(real_names(peers).push(me))
    }
}

/// Elects the relay: a place in the list, or nothing where it is we.
fn elect(me: &NodeId, peers: &Vec<PeerInfo>) -> (r: Option<usize>)
    requires
        peers@.len() > 0,
    ensures
        match r {
            None => elected(me@, peer_views(peers@)) == me@,
            Some(i) => i < peers@.len() && peers@[i as int].id@ == elected(me@, peer_views(peers@))
                && elected(me@, peer_views(peers@)) != me@,
        },
{
    let ghost views = peer_views(peers@);
    let mut best: Option<usize> = None;
    let mut i: usize = 0;
    assert(views.take(0).len() == 0);
    while i < peers.len()
        invariant
            i <= peers@.len(),
            views == peer_views(peers@),
            match best {
                None => real_names(views.take(i as int)).len() == 0,
                Some(b) => {
                    &&& b < i
                    &&& real_names(views.take(i as int)).len() > 0
                    &&& peers@[b as int].id@ == first_name(real_names(views.take(i as int)))
                },
            },
        decreases peers@.len() - i,
    {
        let p: &PeerInfo = &peers[i];
        assert(views[i as int] == p@);
        assert(views.take(i + 1).drop_last() =~= views.take(i as int));
        assert(views.take(i + 1).last() == p@);
        let ghost n0 = real_names(views.take(i as int));
        if is_real_id(&p.id) {
            assert(n0.push(p.id@).drop_last() =~= n0);
            match best {
                None => {
                    best = Some(i);
                },
                Some(b) => {
                    if is_text_before(p.id.as_str(), peers[b].id.as_str()) {
                        best = Some(i);
                    }
                },
            }
        }
        i = i + 1;
    }
    assert(views.take(i as int) =~= views);
    assert(views[0] == peers@[0]@);
    match best {
        None => if peers[0].id.same(me) {
            None
        } else {
            Some(0)
        },
        Some(b) => {
            assert(real_names(views).push(me@).drop_last() =~= real_names(views));
            if is_text_before(me.as_str(), peers[b].id.as_str()) || peers[b].id.same(me) {
                None
            } else {
                Some(b)
            }
        },
    }
}

/// Whether a stub stands for a client: it has the client's address and, on the machine
/// itself, the port of the client's chat service.
pub open spec fn stands_for(entry: PeerView, ip: IpAddr, chat_port: u16) -> bool {
    &&& entry.ip == ip
    &&& is_stub(entry.id)
    &&& !(ip.loopback() && entry.chat_port != chat_port)
}

/// The entry of a client that a stub stood for.
pub open spec fn upgraded(stub: PeerView, id: Seq<char>, name: Seq<char>, chat_port: u16) -> PeerView {
    PeerView { id, name, chat_port, ..stub }
}

/// The entry of a client after it has said who it is: its name, if it has told one, and
/// the port of its chat service.
pub open spec fn updated(entry: PeerView, name: Seq<char>, chat_port: u16) -> PeerView {
    PeerView {
        name: if name.len() > 0 {
            name
        } else {
            entry.name
        },
        chat_port,
        ..entry
    }
}

/// What became of the entry of a client.
#[derive(Debug, PartialEq, Eq)]
pub enum ClientEntry {
    /// The client has taken the place of the stub with this name.
    Upgraded(NodeId),
    /// The client's entry was brought up to date. That may have changed the members of
    /// the list.
    Updated { changed: bool },
    /// There was nothing to change.
    Unchanged,
}

/// Brings the list up to date after a client has said who it is. A stub that stands for
/// the client becomes the client; else the client's own entry is brought up to date. Of
/// several stubs that stand for it one is taken.
pub fn enter_client(
    list: &mut PeerList,
    ip: IpAddr,
    node_id: &NodeId,
    name: &String,
    chat_port: u16,
) -> (r: ClientEntry)
    ensures
        ({
            let m = old(list)@;
            let id = node_id@;
            match r {
                ClientEntry::Upgraded(stub) => {
                    &&& m.contains_key(stub@)
                    &&& stands_for(m[stub@], ip, chat_port)
                    &&& final(list)@ == upserted(
                        m.remove(stub@),
                        upgraded(m[stub@], id, name@, chat_port),
                    )
                },
                ClientEntry::Updated { changed } => {
                    &&& forall|k: Seq<char>| #[trigger]
                        m.contains_key(k) ==> !stands_for(m[k], ip, chat_port)
                    &&& m.contains_key(id)
                    &&& updated(m[id], name@, chat_port) != m[id]
                    &&& final(list)@ == upserted(m, updated(m[id], name@, chat_port))
                    &&& changed == changes_members(m, updated(m[id], name@, chat_port))
                },
                ClientEntry::Unchanged => {
                    &&& forall|k: Seq<char>| #[trigger]
                        m.contains_key(k) ==> !stands_for(m[k], ip, chat_port)
                    &&& m.contains_key(id) ==> updated(m[id], name@, chat_port) == m[id]
                    &&& final(list)@ == m
                },
            }
        }),
{
    let peers: Vec<PeerInfo> = list.all();
    let ghost views = peer_views(peers@);
    let ghost m = list@;
    let mut i: usize = 0;
    while i < peers.len()
        invariant
            i <= peers@.len(),
            views == peer_views(peers@),
            lists_all(views, m),
            list@ == m,
            m == old(list)@,
            forall|k: Seq<char>| #[trigger] m.contains_key(k) ==> m[k].id == k,
            forall|j: int| 0 <= j < i ==> !stands_for(#[trigger] views[j], ip, chat_port),
        decreases peers@.len() - i,
    {
        let p: &PeerInfo = &peers[i];
        assert(views[i as int] == p@);
        assert(m.contains_key(p.id@));
        if p.ip == ip && is_stub_id(&p.id) && !(ip.is_loopback() && p.chat_port != chat_port) {
            let mut known: PeerInfo = p.clone();
            known.id = node_id.clone();
            known.name = name.clone();
            known.chat_port = chat_port;
            assert(known@ =~= upgraded(p@, node_id@, name@, chat_port));
            list.remove(&p.id);
            list.upsert(known);
            return ClientEntry::Upgraded(p.id.clone());
        }
        i = i + 1;
    }
    assert forall|k: Seq<char>| #[trigger] m.contains_key(k) implies !stands_for(
        m[k],
        ip,
        chat_port,
    ) by {
        let j: int = choose|j: int| 0 <= j < views.len() && #[trigger] views[j] == m[k];
        assert(!stands_for(views[j], ip, chat_port));
    }
    if let Some(p) = list.get(node_id) {
        let ghost said = p@;
        let mut p: PeerInfo = p;
        let mut differs: bool = false;
        if !name.as_str().is_empty() && !same_text(p.name.as_str(), name.as_str()) {
            p.name = name.clone();
            differs = true;
        }
        if p.chat_port != chat_port {
            p.chat_port = chat_port;
            differs = true;
        }
        assert(p@ =~= updated(said, name@, chat_port));
        if differs {
            let changed: bool = list.upsert(p);
            return ClientEntry::Updated { changed };
        }
        assert(p@ =~= said);
    }
    ClientEntry::Unchanged
}

/// A message keeps what is kept within its bounds, and no key is remembered twice.
pub proof fn law_bounds_are_kept(v: ChatView, msg: ChatMessage)
    requires
        v.bounded(),
    ensures
        v.after(msg).bounded(),
{
    if !v.seen.contains(msg.key()) {
        let pushed = v.seen.push(msg.key());
        assert(pushed.no_duplicates()) by {
            assert forall|i: int, j: int|
                0 <= i < pushed.len() && 0 <= j < pushed.len() && i != j implies pushed[i]
                != pushed[j] by {
                if i < v.seen.len() {
                    assert(v.seen.contains(v.seen[i]));
                }
                if j < v.seen.len() {
                    assert(v.seen.contains(v.seen[j]));
                }
            }
        }
        assert(pushed.drop_first().no_duplicates());
    }
}

/// A message that comes a second time right away changes nothing.
pub proof fn law_copy_changes_nothing(v: ChatView, msg: ChatMessage, copy: ChatMessage)
    requires
        v.bounded(),
        copy.key() == msg.key(),
    ensures
        v.after(msg).seen.contains(copy.key()),
        v.after(msg).after(copy) == v.after(msg),
{
    let pushed = v.seen.push(msg.key());
    if !v.seen.contains(msg.key()) {
        assert(noted(v.seen, msg.key()).last() == msg.key());
        let n = noted(v.seen, msg.key());
        assert(n[n.len() - 1] == msg.key());
    }
}

/// A message is remembered until as many others as the window holds have come: a copy
/// that comes before that changes nothing.
pub proof fn law_window_remembers(
    v: ChatView,
    msg: ChatMessage,
    more: Seq<ChatMessage>,
    copy: ChatMessage,
)
    requires
        v.bounded(),
        !v.seen.contains(msg.key()),
        more.len() < DEDUP_WINDOW,
        copy.key() == msg.key(),
    ensures
        ({
            let later = v.after(msg).after_all(more);
            &&& later.seen.contains(msg.key())
            &&& later.after(copy) == later
        }),
{
    lemma_window(v, msg, more);
}

/// A client is told of each node that a profile is known of once, before our own profile,
/// even where our own is among the known ones.
pub proof fn law_welcome_tells_each_profile_once(v: ChatView, packets: Seq<ChatPacket>, k: Seq<char>)
    requires
        v.welcomed_by(packets),
        v.profiles_named(),
        v.profiles.contains_key(k),
    ensures
        packets.len() == 1 + v.profiles.len() + (if v.my_profile is Some {
            1int
        } else {
            0
        }),
        v.my_profile matches Some(p) ==> packets.last() == ChatPacket::ProfileUpdate(p),
        exists|i: int|
            1 <= i <= v.profiles.len() && #[trigger] packets[i] == ChatPacket::ProfileUpdate(
                v.profiles[k],
            ),
        forall|i: int, j: int|
            1 <= i < j <= v.profiles.len() ==> #[trigger] packets[i] != #[trigger] packets[j],
{
    let known = choose|known: Seq<PeerProfile>| #[trigger]
        lists_profiles(known, v.profiles) && packets.skip(1) == profile_packets(known) + (
        match v.my_profile {
            Some(p) => seq![ChatPacket::ProfileUpdate(p)],
            None => seq![],
        });
    let m = v.profiles;
    let names = choose|names: Seq<Seq<char>>| #[trigger]
        lists_keys(names, m) && known == names.map_values(|k: Seq<char>| m[k]);
    names.unique_seq_to_set();
    let rest = packets.skip(1);
    assert(packets.len() == 1 + rest.len());
    assert forall|i: int| 1 <= i <= names.len() implies #[trigger] packets[i]
        == ChatPacket::ProfileUpdate(m[names[i - 1]]) by {
        assert(packets[i] == rest[i - 1]);
        assert(known[i - 1] == m[names[i - 1]]);
    }
    assert(names.to_set().contains(k));
    let at: int = choose|at: int| 0 <= at < names.len() && names[at] == k;
    assert(packets[at + 1] == ChatPacket::ProfileUpdate(m[k]));
    assert forall|i: int, j: int| 1 <= i < j <= v.profiles.len() implies #[trigger] packets[i]
        != #[trigger] packets[j] by {
        assert(names.to_set().contains(names[i - 1]));
        assert(names.to_set().contains(names[j - 1]));
        assert(m.contains_key(names[i - 1]) && m.contains_key(names[j - 1]));
    }
    if v.my_profile is Some {
        assert(packets.last() == rest.last());
    }
}

/// A message that was new stands among the keys no further from the end than others have
/// come since.
proof fn lemma_window(v: ChatView, msg: ChatMessage, more: Seq<ChatMessage>) -> (place: int)
    requires
        v.bounded(),
        !v.seen.contains(msg.key()),
        more.len() < DEDUP_WINDOW,
    ensures
        ({
            let later = v.after(msg).after_all(more);
            &&& later.bounded()
            &&& 0 <= place < later.seen.len()
            &&& later.seen[place] == msg.key()
            &&& later.seen.len() - 1 - place <= more.len()
        }),
    decreases more.len(),
{
    law_bounds_are_kept(v, msg);
    if more.len() == 0 {
        v.after(msg).seen.len() - 1
    } else {
        let before = v.after(msg).after_all(more.drop_last());
        let place: int = lemma_window(v, msg, more.drop_last());
        law_bounds_are_kept(before, more.last());
        if before.seen.contains(more.last().key()) {
            place
        } else {
            assert(before.seen.push(more.last().key())[place] == msg.key());
            if before.seen.len() + 1 > DEDUP_WINDOW {
                place - 1
            } else {
                place
            }
        }
    }
}

/// The first name is one of the names, and none comes before it.
proof fn lemma_first_name(names: Seq<Seq<char>>)
    requires
        names.len() > 0,
    ensures
        names.contains(first_name(names)),
        forall|i: int| 0 <= i < names.len() ==> !text_before(#[trigger] names[i], first_name(names)),
    decreases names.len(),
{
    if names.len() == 1 {
        lemma_text_before_irreflexive(names[0]);
        assert(names[0] == first_name(names));
    } else {
        let head = names.drop_last();
        lemma_first_name(head);
        let f = first_name(head);
        let last = names.last();
        assert(names[names.len() - 1] == last);
        let j: int = choose|j: int| 0 <= j < head.len() && head[j] == f;
        assert(names[j] == f);
        lemma_text_before_irreflexive(last);
        assert forall|i: int| 0 <= i < names.len() implies !text_before(
            #[trigger] names[i],
            first_name(names),
        ) by {
            if i < head.len() {
                assert(head[i] == names[i]);
                if text_before(last, f) && text_before(names[i], last) {
                    lemma_text_before_transitive(names[i], last, f);
                }
            }
        }
    }
}

/// The relay is, of the known nodes and ourselves, the one whose name no other comes
/// before.
pub proof fn law_relay_has_the_first_name(me: Seq<char>, peers: Seq<PeerView>)
    requires
        real_names(peers).len() > 0,
    ensures
        real_names(peers).push(me).contains(elected(me, peers)),
        forall|name: Seq<char>| #[trigger]
            real_names(peers).push(me).contains(name) ==> !text_before(name, elected(me, peers)),
{
    let names = real_names(peers).push(me);
    lemma_first_name(names);
    assert forall|name: Seq<char>| #[trigger] names.contains(name) implies !text_before(
        name,
        elected(me, peers),
    ) by {
        let i: int = choose|i: int| 0 <= i < names.len() && names[i] == name;
        assert(!text_before(names[i], first_name(names)));
    }
}

/// Nodes that know the same nodes, each other among them, elect the same relay: what
/// counts is which names there are, not in what order or by whom they are known.
pub proof fn law_same_names_elect_same_relay(
    me_a: Seq<char>,
    peers_a: Seq<PeerView>,
    me_b: Seq<char>,
    peers_b: Seq<PeerView>,
)
    requires
        real_names(peers_a).len() > 0,
        real_names(peers_b).len() > 0,
        real_names(peers_a).push(me_a).to_set() == real_names(peers_b).push(me_b).to_set(),
    ensures
        elected(me_a, peers_a) == elected(me_b, peers_b),
{
    let a = real_names(peers_a).push(me_a);
    let b = real_names(peers_b).push(me_b);
    lemma_first_name(a);
    lemma_first_name(b);
    let x = first_name(a);
    let y = first_name(b);
    assert(a.to_set().contains(x));
    assert(b.to_set().contains(y));
    assert(b.to_set().contains(x));
    assert(a.to_set().contains(y));
    if x != y {
        let i: int = choose|i: int| 0 <= i < b.len() && b[i] == x;
        assert(!text_before(b[i], y));
        let j: int = choose|j: int| 0 <= j < a.len() && a[j] == y;
        assert(!text_before(a[j], x));
        lemma_text_before_total(x, y);
    }
}

/// Every node of the list whose name has 64 bytes is a candidate, and no other node is.
proof fn lemma_candidates(peers: Seq<PeerView>)
    ensures
        forall|i: int|
            0 <= i < peers.len() && encode_utf8((#[trigger] peers[i]).id).len() == 64
                ==> real_names(peers).contains(peers[i].id),
        forall|n: int|
            0 <= n < real_names(peers).len() ==> encode_utf8(#[trigger] real_names(peers)[n]).len()
                == 64 && exists|i: int|
                0 <= i < peers.len() && (#[trigger] peers[i]).id == real_names(peers)[n],
    decreases peers.len(),
{
    if peers.len() > 0 {
        let head = peers.drop_last();
        let before = real_names(head);
        let names = real_names(peers);
        lemma_candidates(head);
        assert(peers.last() == peers[peers.len() - 1]);
        assert forall|i: int|
            0 <= i < peers.len() && encode_utf8((#[trigger] peers[i]).id).len()
                == 64 implies names.contains(peers[i].id) by {
            if i < head.len() {
                assert(head[i] == peers[i]);
                let n: int = choose|n: int| 0 <= n < before.len() && before[n] == peers[i].id;
                assert(names[n] == peers[i].id);
            } else {
                assert(names[names.len() - 1] == peers[i].id);
            }
        }
        assert forall|n: int| 0 <= n < names.len() implies encode_utf8(#[trigger] names[n]).len()
            == 64 && exists|i: int| 0 <= i < peers.len() && (#[trigger] peers[i]).id == names[n] by {
            if n < before.len() {
                assert(names[n] == before[n]);
                let i: int = choose|i: int| 0 <= i < head.len() && (#[trigger] head[i]).id == before[n];
                assert(peers[i].id == names[n]);
            } else {
                assert(peers[peers.len() - 1].id == names[n]);
            }
        }
    }
}

/// Every node of the list whose name has 64 bytes is a candidate, whatever its address.
/// Where there is one, the relay is we or such a node, and neither the name of such a node
/// nor ours comes before the relay's.
pub proof fn law_every_known_node_is_a_candidate(me: Seq<char>, peers: Seq<PeerView>, i: int)
    requires
        0 <= i < peers.len(),
        encode_utf8(peers[i].id).len() == 64,
    ensures
        elected(me, peers) == me || exists|j: int|
            0 <= j < peers.len() && (#[trigger] peers[j]).id == elected(me, peers) && encode_utf8(
                peers[j].id,
            ).len() == 64,
        !text_before(peers[i].id, elected(me, peers)),
        !text_before(me, elected(me, peers)),
        elected(me, peers) == peers[i].id || elected(me, peers) == me || text_before(
            elected(me, peers),
            peers[i].id,
        ),
        elected(me, peers) == me || text_before(elected(me, peers), me),
{
    let names = real_names(peers).push(me);
    lemma_candidates(peers);
    lemma_first_name(names);
    let e = elected(me, peers);
    let n: int = choose|n: int|
        0 <= n < real_names(peers).len() && real_names(peers)[n] == peers[i].id;
    assert(names[n] == peers[i].id);
    assert(names[names.len() - 1] == me);
    let k: int = choose|k: int| 0 <= k < names.len() && names[k] == e;
    if k < real_names(peers).len() {
        assert(real_names(peers)[k] == e);
    }
    if e != peers[i].id {
        lemma_text_before_total(e, peers[i].id);
    }
    if e != me {
        lemma_text_before_total(e, me);
    }
}

/// Where no node of the list has a name of 64 bytes, the first one of the list is asked to
/// relay.
pub proof fn law_first_stub_relays_alone(me: Seq<char>, peers: Seq<PeerView>)
    requires
        peers.len() > 0,
        forall|i: int| 0 <= i < peers.len() ==> encode_utf8((#[trigger] peers[i]).id).len() != 64,
    ensures
        elected(me, peers) == peers[0].id,
{
    lemma_candidates(peers);
    if real_names(peers).len() > 0 {
        assert(encode_utf8(real_names(peers)[0]).len() == 64);
    }
}

/// What is kept to show is the end of all that was said: the last hundred messages, or all
/// of them, in the order in which they came.
pub proof fn law_history_is_the_last_hundred(history: Seq<ChatMessage>, more: Seq<ChatMessage>)
    requires
        history.len() <= 100,
    ensures
        ({
            let all = history + more;
            remembered_all(history, more) == (if all.len() > 100 {
                all.skip(all.len() - 100)
            } else {
                all
            })
        }),
    decreases more.len(),
{
    if more.len() == 0 {
        assert(history + more =~= history);
    } else {
        let head = more.drop_last();
        law_history_is_the_last_hundred(history, head);
        let all = history + more;
        assert(all =~= (history + head).push(more.last()));
        let before = remembered_all(history, head);
        if all.len() > 100 {
            assert(remembered(before, more.last()) =~= all.skip(all.len() - 100));
        } else {
            assert(remembered(before, more.last()) =~= all);
        }
    }
}

/// One message more is kept as the last one, and pushes out the oldest only where there
/// were a hundred.
pub proof fn law_message_is_kept_last(history: Seq<ChatMessage>, msg: ChatMessage)
    requires
        history.len() <= 100,
    ensures
        remembered(history, msg) == (if history.len() == 100 {
            history.push(msg).skip(1)
        } else {
            history.push(msg)
        }),
{
    if history.len() == 100 {
        assert(history.push(msg).skip(1) =~= history.drop_first().push(msg));
    }
}

/// The keys that are remembered are the last ones, 256 of them at most, in the order in
/// which they came.
pub proof fn law_keys_are_the_last_ones(seen: Seq<(Seq<char>, u64)>, key: (Seq<char>, u64))
    requires
        seen.len() <= 256,
    ensures
        noted(seen, key) == (if seen.len() == 256 {
            seen.push(key).skip(1)
        } else {
            seen.push(key)
        }),
{
    assert(seen.push(key).skip(1) =~= seen.push(key).drop_first());
}

/// A message is taken just where none with its sender and its number is remembered,
/// whatever else it says. It is then the last one that is kept and remembered, and nothing
/// else changes.
pub proof fn law_only_copies_are_dropped(v: ChatView, msg: ChatMessage)
    requires
        v.bounded(),
    ensures
        v.history.len() <= 100,
        v.seen.len() <= 256,
        v.seen.contains((msg.from@, msg.seq)) ==> v.after(msg) == v,
        !v.seen.contains((msg.from@, msg.seq)) ==> {
            let w = v.after(msg);
            &&& w.history.len() > 0
            &&& w.history.last() == msg
            &&& w.history.len() == (if v.history.len() == 100 {
                100
            } else {
                v.history.len() + 1
            })
            &&& w.history.drop_last() == v.history.skip(v.history.len() + 1 - w.history.len())
            &&& w.seen.len() > 0
            &&& w.seen.last() == (msg.from@, msg.seq)
            &&& w.seen.len() == (if v.seen.len() == 256 {
                256
            } else {
                v.seen.len() + 1
            })
            &&& w.seen.drop_last() == v.seen.skip(v.seen.len() + 1 - w.seen.len())
            &&& w == (ChatView { history: w.history, seen: w.seen, ..v })
        },
{
    if !v.seen.contains((msg.from@, msg.seq)) {
        let w = v.after(msg);
        assert(w.history.drop_last() =~= v.history.skip(v.history.len() + 1 - w.history.len()));
        assert(w.seen.drop_last() =~= v.seen.skip(v.seen.len() + 1 - w.seen.len()));
        assert(w =~= (ChatView { history: w.history, seen: w.seen, ..v }));
    }
}

/// Messages are taken one after the other.
pub proof fn law_messages_are_taken_in_order(
    v: ChatView,
    msgs: Seq<ChatMessage>,
    msg: ChatMessage,
)
    ensures
        v.after_all(seq![]) == v,
        v.after_all(seq![msg]) == v.after(msg),
        v.after_all(msgs.push(msg)) == v.after_all(msgs).after(msg),
{
    assert(msgs.push(msg).drop_last() =~= msgs);
    assert(seq![msg].drop_last() =~= seq![]);
    reveal_with_fuel(ChatView::after_all, 2);
}

/// We show the name of our profile where it has one, and that of our node in every other
/// case.
pub proof fn law_profile_name_is_shown(v: ChatView)
    ensures
        v.my_profile matches Some(p) ==> p.name@.len() > 0 ==> v.shown_name() == p.name@,
        v.my_profile matches Some(p) ==> p.name@.len() == 0 ==> v.shown_name() == v.me.name,
        v.my_profile is None ==> v.shown_name() == v.me.name,
{
}

/// A stub at the address of a client stands for it. Only on the machine itself must the
/// port of the chat service be the client's too; nothing else of the entry counts.
pub proof fn law_stub_at_the_address_stands_for_the_client(
    entry: PeerView,
    ip: IpAddr,
    chat_port: u16,
)
    ensures
        !ip.loopback() ==> (stands_for(entry, ip, chat_port) <==> entry.ip == ip
            && "stub-"@.is_prefix_of(entry.id)),
        ip.loopback() ==> (stands_for(entry, ip, chat_port) <==> entry.ip == ip
            && "stub-"@.is_prefix_of(entry.id) && entry.chat_port == chat_port),
{
}

/// A client that takes the place of a stub has the name, the title and the chat port that
/// it told, and everything else as the stub had it. A client with an entry of its own gets
/// the title that it told, unless that is empty, and the chat port; nothing else changes.
pub proof fn law_client_entry_is_what_it_told(
    entry: PeerView,
    id: Seq<char>,
    name: Seq<char>,
    chat_port: u16,
)
    ensures
        ({
            let e = upgraded(entry, id, name, chat_port);
            &&& e.id == id && e.name == name && e.chat_port == chat_port
            &&& e.ip == entry.ip && e.port == entry.port
            &&& e.services == entry.services && e.last_seen == entry.last_seen
        }),
        ({
            let e = updated(entry, name, chat_port);
            &&& e.chat_port == chat_port
            &&& name.len() > 0 ==> e.name == name
            &&& name.len() == 0 ==> e.name == entry.name
            &&& e.id == entry.id && e.ip == entry.ip && e.port == entry.port
            &&& e.services == entry.services && e.last_seen == entry.last_seen
        }),
{
}

/// The profiles that are given out are those of all names, each once.
pub proof fn law_every_profile_is_given_out(
    s: Seq<PeerProfile>,
    m: Map<Seq<char>, PeerProfile>,
    k: Seq<char>,
)
    requires
        lists_profiles(s, m),
        m.contains_key(k),
    ensures
        s.len() == m.len(),
        s.contains(m[k]),
        forall|p: PeerProfile| #[trigger]
            s.contains(p) ==> exists|n: Seq<char>| m.contains_key(n) && #[trigger] m[n] == p,
{
    let names = choose|names: Seq<Seq<char>>| #[trigger]
        lists_keys(names, m) && s == names.map_values(|k: Seq<char>| m[k]);
    names.unique_seq_to_set();
    assert(names.to_set().contains(k));
    let at: int = choose|at: int| 0 <= at < names.len() && names[at] == k;
    assert(s[at] == m[k]);
    assert forall|p: PeerProfile| #[trigger] s.contains(p) implies exists|n: Seq<char>|
        m.contains_key(n) && #[trigger] m[n] == p by {
        let i: int = choose|i: int| 0 <= i < s.len() && s[i] == p;
        assert(names.to_set().contains(names[i]));
        assert(m[names[i]] == p);
    }
}

/// A client is told first what was said before, all of it.
pub proof fn law_welcome_starts_with_what_was_said(v: ChatView, packets: Seq<ChatPacket>)
    requires
        v.welcomed_by(packets),
    ensures
        packets.len() >= 1,
        packets[0] matches ChatPacket::History { messages } && messages@ == v.history,
        forall|i: int| 1 <= i < packets.len() ==> (#[trigger] packets[i]) is ProfileUpdate,
{
    let known = choose|known: Seq<PeerProfile>| #[trigger]
        lists_profiles(known, v.profiles) && packets.skip(1) == profile_packets(known) + (
        match v.my_profile {
            Some(p) => seq![ChatPacket::ProfileUpdate(p)],
            None => seq![],
        });
    let rest = packets.skip(1);
    let told = profile_packets(known);
    assert forall|i: int| 1 <= i < packets.len() implies (
    #[trigger] packets[i]) is ProfileUpdate by {
        assert(packets[i] == rest[i - 1]);
        if i - 1 < told.len() {
            assert(rest[i - 1] == told[i - 1]);
            assert(told[i - 1] == ChatPacket::ProfileUpdate(known[i - 1]));
        } else if let Some(p) = v.my_profile {
            let last = seq![ChatPacket::ProfileUpdate(p)];
            assert(rest == told + last);
            assert(rest.len() == packets.len() - 1);
            assert(rest.len() == told.len() + 1);
            assert(rest[told.len() as int] == last[0]);
        }
    }
}

/// Keys are compared by the sender and the number.
pub proof fn law_keys_are_compared_whole(s: Seq<(String, u64)>, m: ChatMessage, i: int)
    requires
        0 <= i < s.len(),
    ensures
        key_texts(s).len() == s.len(),
        key_texts(s)[i] == (s[i].0@, s[i].1),
        m.key() == (m.from@, m.seq),
{
}

/// The limits of the chat: packets of up to 64 kibibytes, a ping every fifteen seconds.
pub proof fn law_limits_of_the_chat()
    ensures
        MAX_MESSAGE_LEN == 0x1_0000,
        PING_INTERVAL_SECS == 15,
        HISTORY_LEN == 100,
        DEDUP_WINDOW == 256,
{
}

} // verus!
