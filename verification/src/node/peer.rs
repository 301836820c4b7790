//! What is known of a peer.

use vstd::prelude::*;

use crate::node::addr::{addr_string, addr_text, IpAddr};
use crate::node::identity::NodeId;
use crate::util::text::option_string;

verus! {

/// A service that a node offers.
#[derive(Debug, Clone, Copy, PartialEq, Eq, Structural)]
pub enum Service {
    Chat,
    Storage,
    Web,
    Bootstrap,
}

/// An entry for a node of the network.
#[derive(Debug, PartialEq, Eq)]
pub struct PeerInfo {
    /// The node.
    pub id: NodeId,
    /// Its name for people.
    pub name: String,
    pub ip: IpAddr,
    pub port: u16,
    /// The port of its chat service, mostly `port` plus two.
    pub chat_port: u16,
    /// The services that it offers.
    pub services: Vec<Service>,
    /// When it was last seen, in seconds of Unix time.
    pub last_seen: i64,
}

/// An entry as contracts speak of it.
#[verifier::ext_equal]
pub struct PeerView {
    pub id: Seq<char>,
    pub name: Seq<char>,
    pub ip: IpAddr,
    pub port: u16,
    pub chat_port: u16,
    pub services: Seq<Service>,
    pub last_seen: i64,
}

impl View for PeerInfo {
    type V = PeerView;

    open spec fn view(&self) -> PeerView {
        PeerView {
            id: self.id@,
            name: self.name@,
            ip: self.ip,
            port: self.port,
            chat_port: self.chat_port,
            services: self.services@,
            last_seen: self.last_seen,
        }
    }
}

/// A copy of a list of services.
fn copy_services(s: &Vec<Service>) -> (r: Vec<Service>)
    ensures
        r@ == s@,
{
    let mut out: Vec<Service> = Vec::new();
    let mut i: usize = 0;
    while i < s.len()
        invariant
            i <= s@.len(),
            out@ == s@.take(i as int),
        decreases s@.len() - i,
    {
        out.push(s[i]);
        i = i + 1;
    }
    assert(s@.take(i as int) =~= s@);
    out
}

impl Clone for PeerInfo {
    fn clone(&self) -> (r: PeerInfo)
        ensures
            r@ == self@,
    {
        PeerInfo {
            id: self.id.clone(),
            name: self.name.clone(),
            ip: self.ip,
            port: self.port,
            chat_port: self.chat_port,
            services: copy_services(&self.services),
            last_seen: self.last_seen,
        }
    }
}

/// The entries of a list, as contracts speak of them.
pub open spec fn peer_views(s: Seq<PeerInfo>) -> Seq<PeerView> {
    s.map_values(|p: PeerInfo| p@)
}

/// Whether an entry last seen then counts as alive now: it was seen less than a
/// minute ago.
pub open spec fn alive(last_seen: i64, now: i64) -> bool {
    now - last_seen < 60
}

impl PeerInfo {
    /// Where the node listens.
    pub fn addr(&self) -> (r: String)
        ensures
            r@ == addr_text(self.ip, self.port),
    {
        addr_string(&self.ip, self.port)
    }

    /// Where the node's chat service listens.
    pub fn chat_addr(&self) -> (r: String)
        ensures
            r@ == addr_text(self.ip, self.chat_port),
    {
        addr_string(&self.ip, self.chat_port)
    }

    /// Whether the node was seen less than a minute ago.
    pub fn is_alive(&self, now: i64) -> (r: bool)
        requires
            i64::MIN <= now - self.last_seen <= i64::MAX,
        ensures
            r == alive(self.last_seen, now),
    {
        now - self.last_seen < 60
    }
}

/// What nodes tell each other about themselves when they connect.
#[derive(Debug, PartialEq, Eq)]
pub struct PeerProfile {
    pub node_id: NodeId,
    pub name: String,
    pub description: String,
    /// One of `online`, `away`, `busy`, `offline`.
    pub status: String,
    /// The X25519 public key in hexadecimal, or nothing for a node that takes no
    /// private messages.
    pub enc_pubkey: Option<String>,
}

/// A profile as contracts speak of it.
#[verifier::ext_equal]
pub struct ProfileView {
    pub node_id: Seq<char>,
    pub name: Seq<char>,
    pub description: Seq<char>,
    pub status: Seq<char>,
    pub enc_pubkey: Option<Seq<char>>,
}

impl View for PeerProfile {
    type V = ProfileView;

    open spec fn view(&self) -> ProfileView {
        ProfileView {
            node_id: self.node_id@,
            name: self.name@,
            description: self.description@,
            status: self.status@,
            enc_pubkey: option_string(self.enc_pubkey),
        }
    }
}

impl Clone for PeerProfile {
    fn clone(&self) -> (r: PeerProfile)
        ensures
            r == *self,
    {
        let enc_pubkey: Option<String> = match &self.enc_pubkey {
            Some(k) => Some(k.clone()),
            None => None,
        };
        PeerProfile {
            node_id: self.node_id.clone(),
            name: self.name.clone(),
            description: self.description.clone(),
            status: self.status.clone(),
            enc_pubkey,
        }
    }
}

impl PeerProfile {
    /// The profile of a node that has told its name only.
    pub fn new(node_id: NodeId, name: String) -> (r: PeerProfile)
        ensures
            r@ == (ProfileView {
                node_id: node_id@,
                name: name@,
                description: Seq::empty(),
                status: "online"@,
                enc_pubkey: None,
            }),
    {
        PeerProfile {
            node_id,
            name,
            description: String::new(),
            status: "online".to_owned(),
            enc_pubkey: None,
        }
    }
}

/// A node counts as alive through the first sixty seconds after it was seen, and not from
/// the sixtieth on; one seen later than now is alive.
pub proof fn law_alive_for_a_minute(last_seen: i64, now: i64)
    ensures
        now <= last_seen + 59 ==> alive(last_seen, now),
        now >= last_seen + 60 ==> !alive(last_seen, now),
{
}

/// Entries and profiles are compared whole: everything that is known of a node counts.
pub proof fn law_entries_are_seen_whole(p: PeerInfo, list: Seq<PeerInfo>, i: int)
    requires
        0 <= i < list.len(),
    ensures
        p@.id == p.id@,
        p@.name == p.name@,
        p@.ip == p.ip,
        p@.port == p.port,
        p@.chat_port == p.chat_port,
        p@.services == p.services@,
        p@.last_seen == p.last_seen,
        peer_views(list).len() == list.len(),
        peer_views(list)[i] == list[i]@,
{
}

/// A profile is seen with all that a node has told of itself.
pub proof fn law_profiles_are_seen_whole(p: PeerProfile)
    ensures
        p@.node_id == p.node_id@,
        p@.name == p.name@,
        p@.description == p.description@,
        p@.status == p.status@,
        p@.enc_pubkey is Some <==> p.enc_pubkey is Some,
        p.enc_pubkey matches Some(k) ==> p@.enc_pubkey == Some(k@),
{
}

} // verus!
