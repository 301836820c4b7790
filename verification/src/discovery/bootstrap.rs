//! Bootstrap nodes: how nodes of different networks get to know each other.
//!
//! A new node connects to a bootstrap node, says who it is, and gets the nodes that
//! are known there, together with word whether it can be reached from outside.

use vstd::prelude::*;
use vstd::utf8::*;

use crate::discovery::peer_list::{
    changes_members, is_stub, law_upsert_keeps_known_nodes, lists_all,
    upserted, PeerList,
};
use crate::discovery::service::{
    law_service_port_is_moved_up, offset_addr, service_text, ServiceAddrError,
};
use crate::node::addr::IpAddr;
use crate::node::identity::NodeId;
use crate::node::peer::{peer_views, PeerInfo, PeerView};
use crate::util::text::{decimal, trim_text};

verus! {

/// How far the bootstrap service's port is above the node's.
pub const BOOTSTRAP_PORT_OFFSET: u16 = 5;

/// The longest message, in bytes.
pub const MAX_MSG: usize = 1024 * 1024;

/// The length of the name of a known node.
pub const REAL_ID_LEN: usize = 64;

/// How many registrations are served at a time.
pub const MAX_BOOTSTRAP_CONNS: usize = 128;

/// How many of them may come from one address.
pub const MAX_BOOTSTRAP_CONNS_PER_IP: usize = 8;

/// A message of the bootstrap protocol.
#[derive(Debug, Clone, PartialEq, Eq)]
pub enum BootstrapMsg {
    /// A node says who it is.
    Hello { peer: PeerInfo },
    /// The nodes that are known, and whether the asking node could be reached: nothing
    /// is said where that was not tried.
    Peers { peers: Vec<PeerInfo>, reachable: Option<bool> },
    /// A message of a later version.
    Unknown,
}

/// Whether our ports can be reached from outside.
#[derive(Debug, Clone, Copy, PartialEq, Eq, Structural)]
pub enum Reachability {
    /// That was not tried yet.
    Unknown,
    /// A bootstrap node has connected to us.
    Reachable,
    /// A bootstrap node could not connect to us.
    Blocked,
}

/// The outcome of one exchange with a bootstrap node.
#[derive(Debug, Clone, Copy, PartialEq, Eq, Structural)]
pub struct ExchangeOutcome {
    /// How many nodes were not known before.
    pub learned: usize,
    /// Whether our ports could be reached, if that was tried.
    pub reachable: Option<bool>,
}

/// Whether the name is that of a known node.
pub open spec fn is_real(id: Seq<char>) -> bool {
    encode_utf8(id).len() == REAL_ID_LEN
}

/// Whether the name is that of a known node.
pub fn is_real_id(id: &NodeId) -> (r: bool)
    ensures
        r == is_real(id@),
{
    id.as_str().as_bytes().len() == REAL_ID_LEN
}

/// The address of a node's bootstrap service.
pub fn service_addr(base_addr: &str) -> (r: Result<String, ServiceAddrError>)
    ensures
        match r {
            Ok(t) => service_text(base_addr@, BOOTSTRAP_PORT_OFFSET) == Ok::<
                Seq<char>,
                ServiceAddrError,
            >(t@),
            Err(e) => service_text(base_addr@, BOOTSTRAP_PORT_OFFSET) == Err::<
                Seq<char>,
                ServiceAddrError,
            >(e),
        },
{
    offset_addr(base_addr, BOOTSTRAP_PORT_OFFSET)
}

/// What the first message of a client leads to: the port to try, if it is to be tried,
/// and whether the members of the list have changed.
#[derive(Debug, Clone, Copy, PartialEq, Eq, Structural)]
pub struct Admission {
    pub probe_port: Option<u16>,
    pub changed: bool,
}

/// A client as it is entered: an address that cannot be reached from another network
/// is replaced by the one that the connection came from.
pub open spec fn stamped(peer: PeerView, src_ip: Option<IpAddr>) -> PeerView {
    match src_ip {
        Some(src) => if peer.ip.private_looking() {
            PeerView { ip: src, ..peer }
        } else {
            peer
        },
        None => peer,
    }
}

/// Enters a client by its first message, if it is a known node that says who it is.
pub fn admit_client(list: &mut PeerList, first: BootstrapMsg, src_ip: Option<IpAddr>) -> (r:
    Admission)
    ensures
        match first {
            BootstrapMsg::Hello { peer } => if is_real(peer.id@) {
                &&& final(list)@ == upserted(old(list)@, stamped(peer@, src_ip))
                &&& r.probe_port == Some(peer.port)
                &&& r.changed == changes_members(old(list)@, stamped(peer@, src_ip))
            } else {
                &&& final(list)@ == old(list)@
                &&& r == (Admission { probe_port: None, changed: false })
            },
            _ => {
                &&& final(list)@ == old(list)@
                &&& r == (Admission { probe_port: None, changed: false })
            },
        },
        first matches BootstrapMsg::Hello { peer } ==> encode_utf8(peer.id@).len() == 64
            ==> final(list)@.contains_pair(
            peer.id@,
            PeerView {
                ip: match src_ip {
                    Some(src) if peer.ip.private_looking() => src,
                    _ => peer.ip,
                },
                ..peer@
            },
        ),
{
    match first {
        BootstrapMsg::Hello { peer } => {
            if is_real_id(&peer.id) {
                let mut peer: PeerInfo = peer;
                let ghost said = peer@;
                if peer.ip.looks_private() {
                    if let Some(src) = src_ip {
                        peer.ip = src;
                    }
                }
                assert(peer@ =~= stamped(said, src_ip));
                let port: u16 = peer.port;
                let changed: bool = list.upsert(peer);
                return Admission { probe_port: Some(port), changed };
            }
            Admission { probe_port: None, changed: false }
        },
        _ => Admission { probe_port: None, changed: false },
    }
}

/// Where a client is tried from outside: at the address that its connection came from
/// and the port that it told.
pub fn probe_target(src_ip: Option<IpAddr>, probe_port: Option<u16>) -> (r: Option<(IpAddr, u16)>)
    ensures
        r == (match (src_ip, probe_port) {
            (Some(ip), Some(port)) => Some((ip, port)),
            _ => None,
        }),
{
    match (src_ip, probe_port) {
        (Some(ip), Some(port)) => Some((ip, port)),
        _ => None,
    }
}

/// The entries of known nodes.
pub open spec fn real_entries(m: Map<Seq<char>, PeerView>) -> Map<Seq<char>, PeerView> {
    m.restrict(Set::new(|k: Seq<char>| m.contains_key(k) && is_real(k)))
}

/// What a client is told: the known nodes of the list, each once, and then ourselves.
pub fn known_peers(list: &PeerList, my_peer: PeerInfo) -> (r: Vec<PeerInfo>)
    ensures
        r@.len() > 0,
        r@.last()@ == my_peer@,
        lists_all(peer_views(r@.drop_last()), real_entries(list@)),
{
    let all: Vec<PeerInfo> = list.all();
    let ghost views = peer_views(all@);
    let ghost known = real_entries(list@);
    let mut out: Vec<PeerInfo> = Vec::new();
    let ghost mut picked: Seq<int> = Seq::empty();
    let mut i: usize = 0;
    while i < all.len()
        invariant
            i <= all@.len(),
            views == peer_views(all@),
            picked.len() == out@.len(),
            forall|x: int|
                0 <= x < picked.len() ==> {
                    &&& 0 <= #[trigger] picked[x] < i
                    &&& out@[x]@ == views[picked[x]]
                    &&& is_real(views[picked[x]].id)
                },
            forall|x: int, y: int|
                0 <= x < y < picked.len() ==> #[trigger] picked[x] < #[trigger] picked[y],
            forall|j: int|
                0 <= j < i && is_real((#[trigger] views[j]).id) ==> picked.contains(j),
        decreases all@.len() - i,
    {
        let p: &PeerInfo = &all[i];
        assert(views[i as int] == p@);
        if is_real_id(&p.id) {
            let ghost before = picked;
            out.push(p.clone());
            proof {
                picked = picked.push(i as int);
                assert forall|j: int| 0 <= j < i + 1 && is_real(
                    (#[trigger] views[j]).id,
                ) implies picked.contains(j) by {
                    if j < i {
                        let x: int = choose|x: int| 0 <= x < before.len() && before[x] == j;
                        assert(picked[x] == j);
                    } else {
                        assert(picked[before.len() as int] == j);
                    }
                }
            }
        }
        i = i + 1;
    }
    let ghost listed = out@;
    out.push(my_peer);
    proof {
        assert(out@.drop_last() =~= listed);
        lemma_picked_lists(list@, views, picked, peer_views(listed));
    }
    out
}

/// The entries of known nodes, picked in order from a list of all entries, list the
/// known nodes.
proof fn lemma_picked_lists(
    m: Map<Seq<char>, PeerView>,
    views: Seq<PeerView>,
    picked: Seq<int>,
    v: Seq<PeerView>,
)
    requires
        lists_all(views, m),
        forall|k: Seq<char>| #[trigger] m.contains_key(k) ==> m[k].id == k,
        picked.len() == v.len(),
        forall|x: int|
            0 <= x < picked.len() ==> {
                &&& 0 <= #[trigger] picked[x] < views.len()
                &&& v[x] == views[picked[x]]
                &&& is_real(views[picked[x]].id)
            },
        forall|x: int, y: int|
            0 <= x < y < picked.len() ==> #[trigger] picked[x] < #[trigger] picked[y],
        forall|j: int|
            0 <= j < views.len() && is_real((#[trigger] views[j]).id) ==> picked.contains(j),
    ensures
        lists_all(v, real_entries(m)),
{
    let known = real_entries(m);
    assert forall|x: int| 0 <= x < v.len() implies known.contains_key((#[trigger] v[x]).id)
        && known[v[x].id] == v[x] by {
        assert(v[x] == views[picked[x]]);
    }
    assert forall|x: int, y: int| 0 <= x < y < v.len() implies (#[trigger] v[x]).id
        != (#[trigger] v[y]).id by {
        assert(picked[x] < picked[y]);
        assert(views[picked[x]].id != views[picked[y]].id);
    }
    assert forall|k: Seq<char>| #[trigger] known.contains_key(k) implies exists|x: int|
        0 <= x < v.len() && #[trigger] v[x] == known[k] by {
        assert(m.contains_key(k));
        let j: int = choose|j: int| 0 <= j < views.len() && #[trigger] views[j] == m[k];
        assert(is_real(views[j].id));
        let x: int = choose|x: int| 0 <= x < picked.len() && picked[x] == j;
        assert(v[x] == known[k]);
    }
}

/// Whether a node that was told to us is entered: it is a known node, and not we.
pub open spec fn takes(peer: PeerView, me: Seq<char>) -> bool {
    peer.id != me && is_real(peer.id)
}

/// The list after some nodes were told to us, one after the other.
pub open spec fn absorbed(
    m: Map<Seq<char>, PeerView>,
    told: Seq<PeerView>,
    me: Seq<char>,
) -> Map<Seq<char>, PeerView>
    decreases told.len(),
{
    if told.len() == 0 {
        m
    } else {
        let before = absorbed(m, told.drop_last(), me);
        if takes(told.last(), me) {
            upserted(before, told.last())
        } else {
            before
        }
    }
}

/// How many of the nodes that were told to us were not known when they were told.
pub open spec fn learned(
    m: Map<Seq<char>, PeerView>,
    told: Seq<PeerView>,
    me: Seq<char>,
) -> nat
    decreases told.len(),
{
    if told.len() == 0 {
        0
    } else {
        let before = learned(m, told.drop_last(), me);
        if takes(told.last(), me) && !absorbed(m, told.drop_last(), me).contains_key(
            told.last().id,
        ) {
            before + 1
        } else {
            before
        }
    }
}

/// Whether the members of the list change while some nodes are told to us.
pub open spec fn absorbing_changes(
    m: Map<Seq<char>, PeerView>,
    told: Seq<PeerView>,
    me: Seq<char>,
) -> bool
    decreases told.len(),
{
    told.len() > 0 && (absorbing_changes(m, told.drop_last(), me) || (takes(told.last(), me)
        && changes_members(absorbed(m, told.drop_last(), me), told.last())))
}

/// Enters what a bootstrap node has answered, and says besides the outcome whether the
/// members of the list have changed.
pub fn absorb_reply(list: &mut PeerList, my_id: &NodeId, reply: BootstrapMsg) -> (r: (
    ExchangeOutcome,
    bool,
))
    ensures
        match reply {
            BootstrapMsg::Peers { peers, reachable } => {
                &&& final(list)@ == absorbed(old(list)@, peer_views(peers@), my_id@)
                &&& r.0.learned == learned(old(list)@, peer_views(peers@), my_id@)
                &&& r.0.reachable == reachable
                &&& r.1 == absorbing_changes(old(list)@, peer_views(peers@), my_id@)
            },
            _ => final(list)@ == old(list)@ && r.0.learned == 0 && r.0.reachable is None && !r.1,
        },
{
    match reply {
        BootstrapMsg::Peers { peers, reachable } => {
            let ghost told = peer_views(peers@);
            let ghost m = list@;
            let mut learned_now: usize = 0;
            let mut changed: bool = false;
            let mut i: usize = 0;
            assert(told.take(0).len() == 0);
            while i < peers.len()
                invariant
                    i <= peers@.len(),
                    told == peer_views(peers@),
                    list@ == absorbed(m, told.take(i as int), my_id@),
                    learned_now == learned(m, told.take(i as int), my_id@),
                    learned_now <= i,
                    changed == absorbing_changes(m, told.take(i as int), my_id@),
                decreases peers@.len() - i,
            {
                let p: &PeerInfo = &peers[i];
                assert(told[i as int] == p@);
                assert(told.take(i + 1).drop_last() =~= told.take(i as int));
                assert(told.take(i + 1).last() == p@);
                if !p.id.same(my_id) && is_real_id(&p.id) {
                    let seen: bool = list.contains(&p.id);
                    let changes: bool = list.upsert(p.clone());
                    changed = changed || changes;
                    if !seen {
                        learned_now = learned_now + 1;
                    }
                }
                i = i + 1;
            }
            assert(told.take(i as int) =~= told);
            (ExchangeOutcome { learned: learned_now, reachable }, changed)
        },
        _ => (ExchangeOutcome { learned: 0, reachable: None }, false),
    }
}

/// What the exchanges of one round say of our ports: that one node could reach us is
/// enough, and where none has tried nothing is said.
pub open spec fn round_verdict(tried: Seq<Option<bool>>) -> Option<Reachability> {
    if tried.contains(Some(true)) {
        Some(Reachability::Reachable)
    } else if tried.contains(Some(false)) {
        Some(Reachability::Blocked)
    } else {
        None
    }
}

/// What the exchanges of one round say of our ports.
pub fn tick_verdict(tried: &Vec<Option<bool>>) -> (r: Option<Reachability>)
    ensures
        r == round_verdict(tried@),
{
    let mut tick: Option<bool> = None;
    let mut i: usize = 0;
    while i < tried.len()
        invariant
            i <= tried@.len(),
            tick == Some(true) <==> tried@.take(i as int).contains(Some(true)),
            tick == Some(false) <==> !tried@.take(i as int).contains(Some(true)) && tried@.take(
                i as int,
            ).contains(Some(false)),
        decreases tried@.len() - i,
    {
        let ghost t0 = tried@.take(i as int);
        let ghost t1 = tried@.take(i + 1);
        proof {
            let x = tried@[i as int];
            assert(t1 =~= t0.push(x));
            assert(t1[i as int] == x);
            assert forall|v: Option<bool>| t1.contains(v) <==> (t0.contains(v) || v == x) by {
                if t0.contains(v) {
                    let j: int = choose|j: int| 0 <= j < t0.len() && t0[j] == v;
                    assert(t1[j] == v);
                }
                if t1.contains(v) {
                    let j: int = choose|j: int| 0 <= j < t1.len() && t1[j] == v;
                    if j < i {
                        assert(t0[j] == v);
                    }
                }
            }
        }
        if let Some(r) = tried[i] {
            let so_far: bool = match tick {
                Some(t) => t,
                None => false,
            };
            tick = Some(so_far || r);
        }
        i = i + 1;
    }
    assert(tried@.take(i as int) =~= tried@);
    match tick {
        Some(true) => Some(Reachability::Reachable),
        Some(false) => Some(Reachability::Blocked),
        None => None,
    }
}

/// A known node stays in the list whatever is told to us.
proof fn lemma_absorbed_keeps(
    m: Map<Seq<char>, PeerView>,
    told: Seq<PeerView>,
    me: Seq<char>,
    id: Seq<char>,
)
    requires
        m.contains_key(id),
        !is_stub(id),
        forall|k: Seq<char>| #[trigger] m.contains_key(k) ==> m[k].id == k,
    ensures
        absorbed(m, told, me).contains_key(id),
        forall|k: Seq<char>| #[trigger]
            absorbed(m, told, me).contains_key(k) ==> absorbed(m, told, me)[k].id == k,
    decreases told.len(),
{
    if told.len() > 0 {
        lemma_absorbed_keeps(m, told.drop_last(), me, id);
    }
}

/// Every entry of the list stands under its own name whatever is told to us.
proof fn lemma_absorbed_consistent(
    m: Map<Seq<char>, PeerView>,
    told: Seq<PeerView>,
    me: Seq<char>,
)
    requires
        forall|k: Seq<char>| #[trigger] m.contains_key(k) ==> m[k].id == k,
    ensures
        forall|k: Seq<char>| #[trigger]
            absorbed(m, told, me).contains_key(k) ==> absorbed(m, told, me)[k].id == k,
    decreases told.len(),
{
    if told.len() > 0 {
        lemma_absorbed_consistent(m, told.drop_last(), me);
    }
}

/// After an exchange every known node that was told to us is in the list.
pub proof fn law_told_nodes_are_known(
    m: Map<Seq<char>, PeerView>,
    told: Seq<PeerView>,
    me: Seq<char>,
    i: int,
)
    requires
        0 <= i < told.len(),
        takes(told[i], me),
        !is_stub(told[i].id),
        forall|k: Seq<char>| #[trigger] m.contains_key(k) ==> m[k].id == k,
    ensures
        absorbed(m, told, me).contains_key(told[i].id),
    decreases told.len(),
{
    lemma_absorbed_consistent(m, told, me);
    lemma_absorbed_consistent(m, told.drop_last(), me);
    if i < told.len() - 1 {
        law_told_nodes_are_known(m, told.drop_last(), me, i);
        assert(told.drop_last()[i] == told[i]);
    }
}

/// Nothing is new where every node is known.
proof fn lemma_nothing_new(m: Map<Seq<char>, PeerView>, told: Seq<PeerView>, me: Seq<char>)
    requires
        forall|k: Seq<char>| #[trigger] m.contains_key(k) ==> m[k].id == k,
        forall|i: int|
            0 <= i < told.len() && takes(#[trigger] told[i], me) ==> m.contains_key(told[i].id)
                && !is_stub(told[i].id),
    ensures
        learned(m, told, me) == 0,
    decreases told.len(),
{
    if told.len() > 0 {
        let head = told.drop_last();
        assert forall|i: int| 0 <= i < head.len() && takes(#[trigger] head[i], me) implies m.contains_key(
            head[i].id,
        ) && !is_stub(head[i].id) by {
            assert(head[i] == told[i]);
        }
        lemma_nothing_new(m, head, me);
        if takes(told.last(), me) {
            assert(told.last() == told[told.len() - 1]);
            lemma_absorbed_keeps(m, head, me, told.last().id);
        }
    }
}

/// A second exchange with the same answer teaches us no new node.
pub proof fn law_repeated_exchange_learns_nothing(
    m: Map<Seq<char>, PeerView>,
    told: Seq<PeerView>,
    me: Seq<char>,
)
    requires
        forall|k: Seq<char>| #[trigger] m.contains_key(k) ==> m[k].id == k,
        forall|i: int| 0 <= i < told.len() ==> !is_stub((#[trigger] told[i]).id),
    ensures
        learned(absorbed(m, told, me), told, me) == 0,
{
    let after = absorbed(m, told, me);
    lemma_absorbed_consistent(m, told, me);
    assert forall|i: int| 0 <= i < told.len() && takes(#[trigger] told[i], me) implies after.contains_key(
        told[i].id,
    ) && !is_stub(told[i].id) by {
        law_told_nodes_are_known(m, told, me, i);
    }
    lemma_nothing_new(after, told, me);
}

/// Two nodes meet at a bootstrap node: after the first has been entered, it is among
/// the nodes that the second one is told.
pub proof fn law_rendezvous(
    m: Map<Seq<char>, PeerView>,
    first: PeerView,
    second: PeerView,
    src_first: Option<IpAddr>,
    src_second: Option<IpAddr>,
)
    requires
        forall|k: Seq<char>| #[trigger] m.contains_key(k) ==> m[k].id == k,
        is_real(first.id),
        is_real(second.id),
        !is_stub(first.id),
        first.id != second.id,
    ensures
        ({
            let met = upserted(upserted(m, stamped(first, src_first)), stamped(second, src_second));
            &&& real_entries(met).contains_key(first.id)
            &&& real_entries(met)[first.id] == stamped(first, src_first)
        }),
{
    let one = upserted(m, stamped(first, src_first));
    law_upsert_keeps_known_nodes(one, stamped(second, src_second), first.id);
}

/// A node is a known one just where its name has 64 bytes.
pub proof fn law_known_names_have_64_bytes(id: Seq<char>)
    ensures
        is_real(id) <==> encode_utf8(id).len() == 64,
{
}

/// A client with an address that cannot be reached from another network is entered under
/// the address that its connection came from, whatever that is; one with another address,
/// or whose connection has none, under the address that it told. Everything else is as it
/// told.
pub proof fn law_private_client_is_entered_where_it_came_from(
    m: Map<Seq<char>, PeerView>,
    peer: PeerView,
    src: IpAddr,
)
    ensures
        peer.ip.private_looking() ==> upserted(m, stamped(peer, Some(src))).contains_pair(
            peer.id,
            PeerView { ip: src, ..peer },
        ),
        !peer.ip.private_looking() ==> upserted(m, stamped(peer, Some(src))).contains_pair(
            peer.id,
            peer,
        ),
        upserted(m, stamped(peer, None)).contains_pair(peer.id, peer),
{
}

/// What a client is told of the list are the nodes whose names have 64 bytes, as they are
/// in the list.
pub proof fn law_known_nodes_are_told(m: Map<Seq<char>, PeerView>, k: Seq<char>)
    ensures
        real_entries(m).contains_key(k) <==> m.contains_key(k) && encode_utf8(k).len() == 64,
        real_entries(m).contains_key(k) ==> real_entries(m)[k] == m[k],
{
}

/// Told nodes are entered one after the other. One more node is
/// entered, in the list as it is by then, just where it is not we and its name has 64
/// bytes. It counts as learned where it was not in the list by then, and as a change where
/// it changes the members.
pub proof fn law_told_nodes_are_entered_in_order(
    m: Map<Seq<char>, PeerView>,
    told: Seq<PeerView>,
    peer: PeerView,
    me: Seq<char>,
)
    ensures
        absorbed(m, seq![], me) == m,
        learned(m, seq![], me) == 0,
        !absorbing_changes(m, seq![], me),
        ({
            let before = absorbed(m, told, me);
            let more = told.push(peer);
            if peer.id != me && encode_utf8(peer.id).len() == 64 {
                &&& absorbed(m, more, me) == upserted(before, peer)
                &&& learned(m, more, me) == learned(m, told, me) + (if before.contains_key(
                    peer.id,
                ) {
                    0nat
                } else {
                    1nat
                })
                &&& absorbing_changes(m, more, me) <==> absorbing_changes(m, told, me)
                    || changes_members(before, peer)
            } else {
                &&& absorbed(m, more, me) == before
                &&& learned(m, more, me) == learned(m, told, me)
                &&& absorbing_changes(m, more, me) == absorbing_changes(m, told, me)
            }
        }),
{
    let more = told.push(peer);
    assert(more.drop_last() =~= told);
    assert(more.last() == peer);
}

/// Whoever is told is entered as it was told the last time, unless it is we, and unless its
/// name has not 64 bytes.
pub proof fn law_last_word_counts(
    m: Map<Seq<char>, PeerView>,
    told: Seq<PeerView>,
    me: Seq<char>,
    i: int,
)
    requires
        0 <= i < told.len(),
        told[i].id != me,
        encode_utf8(told[i].id).len() == 64,
        !is_stub(told[i].id),
        forall|j: int| i < j < told.len() ==> (#[trigger] told[j]).id != told[i].id,
        forall|k: Seq<char>| #[trigger] m.contains_key(k) ==> m[k].id == k,
    ensures
        absorbed(m, told, me).contains_pair(told[i].id, told[i]),
    decreases told.len(),
{
    lemma_absorbed_consistent(m, told.drop_last(), me);
    if i < told.len() - 1 {
        let head = told.drop_last();
        assert(head[i] == told[i]);
        assert forall|j: int| i < j < head.len() implies (#[trigger] head[j]).id != head[i].id by {
            assert(head[j] == told[j]);
        }
        law_last_word_counts(m, head, me, i);
        assert(told.last() == told[told.len() - 1]);
        if takes(told.last(), me) {
            law_upsert_keeps_known_nodes(absorbed(m, head, me), told.last(), told[i].id);
        }
    }
}

/// A known node of which nothing is told stays as it is, and nobody comes in of whom
/// nothing is told.
pub proof fn law_untold_nodes_are_untouched(
    m: Map<Seq<char>, PeerView>,
    told: Seq<PeerView>,
    me: Seq<char>,
    id: Seq<char>,
)
    requires
        forall|j: int| 0 <= j < told.len() ==> (#[trigger] told[j]).id != id,
        forall|k: Seq<char>| #[trigger] m.contains_key(k) ==> m[k].id == k,
    ensures
        m.contains_key(id) && !is_stub(id) ==> absorbed(m, told, me).contains_pair(id, m[id]),
        !m.contains_key(id) ==> !absorbed(m, told, me).contains_key(id),
    decreases told.len(),
{
    if told.len() > 0 {
        let head = told.drop_last();
        assert forall|j: int| 0 <= j < head.len() implies (#[trigger] head[j]).id != id by {
            assert(head[j] == told[j]);
        }
        law_untold_nodes_are_untouched(m, head, me, id);
        lemma_absorbed_consistent(m, head, me);
        assert(told.last() == told[told.len() - 1]);
    }
}

/// That one node could reach us is enough; that none could, and one has tried, says that
/// we are blocked; where none has tried nothing is said.
pub proof fn law_one_success_is_enough(tried: Seq<Option<bool>>)
    ensures
        round_verdict(tried) == Some(Reachability::Reachable) <==> exists|i: int|
            0 <= i < tried.len() && #[trigger] tried[i] == Some(true),
        round_verdict(tried) == Some(Reachability::Blocked) <==> (exists|i: int|
            0 <= i < tried.len() && #[trigger] tried[i] == Some(false)) && forall|i: int|
            0 <= i < tried.len() ==> #[trigger] tried[i] != Some(true),
        round_verdict(tried) is None <==> forall|i: int|
            0 <= i < tried.len() ==> (#[trigger] tried[i]) is None,
{
    assert forall|i: int| 0 <= i < tried.len() implies (#[trigger] tried[i]) is None || tried[i]
        == Some(true) || tried[i] == Some(false) by {}
    if tried.contains(Some(true)) {
        let i: int = choose|i: int| 0 <= i < tried.len() && tried[i] == Some(true);
        assert(tried[i] == Some(true));
    }
    if tried.contains(Some(false)) {
        let i: int = choose|i: int| 0 <= i < tried.len() && tried[i] == Some(false);
        assert(tried[i] == Some(false));
    }
}

/// The bootstrap service of a node listens at its host, five ports above it.
pub proof fn law_bootstrap_service_is_five_ports_up(host: Seq<char>, port: u16)
    ensures
        port <= 65530 ==> service_text(
            host + seq![':'] + decimal(port as nat),
            BOOTSTRAP_PORT_OFFSET,
        ) == Ok::<Seq<char>, ServiceAddrError>(
            trim_text(host) + seq![':'] + decimal((port + 5) as nat),
        ),
        port > 65530 ==> service_text(
            host + seq![':'] + decimal(port as nat),
            BOOTSTRAP_PORT_OFFSET,
        ) == Err::<Seq<char>, ServiceAddrError>(ServiceAddrError::PortTooLarge),
{
    law_service_port_is_moved_up(host, port, BOOTSTRAP_PORT_OFFSET);
}

/// A bootstrap node serves 128 registrations at a time, eight from one address, and takes
/// messages of up to a mebibyte.
pub proof fn law_limits_of_a_bootstrap_node()
    ensures
        MAX_BOOTSTRAP_CONNS == 128,
        MAX_BOOTSTRAP_CONNS_PER_IP == 8,
        MAX_MSG == 0x10_0000,
{
}

} // verus!
