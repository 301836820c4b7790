//! The list of known nodes.

use vstd::prelude::*;

use crate::node::addr::SocketAddr;
use crate::node::identity::NodeId;
use crate::node::peer::{alive, peer_views, PeerInfo, PeerView, Service};
use crate::util::table::{name_set, Table};
use crate::util::text::{chars_of, has_prefix};

verus! {

/// Whether the name stands for a node that was added by hand and is not known yet.
pub open spec fn is_stub(id: Seq<char>) -> bool {
    "stub-"@.is_prefix_of(id)
}

/// Whether the name stands for a node that was added by hand and is not known yet.
pub fn is_stub_id(id: &NodeId) -> (r: bool)
    ensures
        r == is_stub(id@),
{
    let prefix: Vec<char> = chars_of("stub-");
    let chars: Vec<char> = chars_of(id.as_str());
    has_prefix(chars.as_slice(), prefix.as_slice())
}

/// Whether a node takes the place of an entry: the entry is a stub, the node is not,
/// and they have the same address. On the machine itself, where several nodes share
/// an address, they must have the same port too.
pub open spec fn displaces(peer: PeerView, entry: PeerView) -> bool {
    &&& !is_stub(peer.id)
    &&& is_stub(entry.id)
    &&& entry.ip == peer.ip
    &&& !peer.ip.loopback() || entry.port == peer.port
}

/// The entries whose place a node takes.
pub open spec fn displaced(m: Map<Seq<char>, PeerView>, peer: PeerView) -> Set<Seq<char>> {
    Set::new(|k: Seq<char>| m.contains_key(k) && displaces(peer, m[k]))
}

/// The list with an entry added or brought up to date.
pub open spec fn upserted(m: Map<Seq<char>, PeerView>, peer: PeerView) -> Map<Seq<char>, PeerView> {
    m.remove_keys(displaced(m, peer)).insert(peer.id, peer)
}

/// Whether adding an entry changes which nodes are in the list.
pub open spec fn changes_members(m: Map<Seq<char>, PeerView>, peer: PeerView) -> bool {
    !m.contains_key(peer.id) || exists|k: Seq<char>| #[trigger] displaced(m, peer).contains(k)
}

/// Whether an entry is to be dropped: it is no stub and was not seen for a minute.
pub open spec fn is_stale(peer: PeerView, now: i64) -> bool {
    !is_stub(peer.id) && !alive(peer.last_seen, now)
}

/// The entries that are to be dropped.
pub open spec fn stale(m: Map<Seq<char>, PeerView>, now: i64) -> Set<Seq<char>> {
    Set::new(|k: Seq<char>| m.contains_key(k) && is_stale(m[k], now))
}

/// Whether the ages of the entries can be computed.
pub open spec fn ages_fit(m: Map<Seq<char>, PeerView>, now: i64) -> bool {
    forall|k: Seq<char>| #[trigger]
        m.contains_key(k) && !is_stub(m[k].id) ==> i64::MIN <= now - m[k].last_seen <= i64::MAX
}

/// Whether `list` holds each entry of `m` once and nothing else.
pub open spec fn lists_all(list: Seq<PeerView>, m: Map<Seq<char>, PeerView>) -> bool {
    &&& forall|i: int|
        0 <= i < list.len() ==> m.contains_key((#[trigger] list[i]).id) && m[list[i].id] == list[i]
    &&& forall|i: int, j: int|
        0 <= i < j < list.len() ==> (#[trigger] list[i]).id != (#[trigger] list[j]).id
    &&& forall|k: Seq<char>| #[trigger]
        m.contains_key(k) ==> exists|i: int| 0 <= i < list.len() && #[trigger] list[i] == m[k]
}

/// The known nodes by name.
pub struct PeerList {
    table: Table<PeerInfo>,
}

impl View for PeerList {
    type V = Map<Seq<char>, PeerView>;

    closed spec fn view(&self) -> Map<Seq<char>, PeerView> {
        self.table@.map_values(|p: PeerInfo| p@)
    }
}

impl PeerList {
    #[verifier::type_invariant]
    spec fn keyed_by_id(&self) -> bool {
        forall|k: Seq<char>| #[trigger] self.table@.contains_key(k) ==> self.table@[k].id@ == k
    }

    /// Whether every entry stands under its own name. It holds of every list.
    pub open spec fn consistent(&self) -> bool {
        forall|k: Seq<char>| #[trigger] self@.contains_key(k) ==> self@[k].id == k
    }

    /// An empty list.
    pub fn new() -> (r: PeerList)
        ensures
            r@ == Map::<Seq<char>, PeerView>::empty(),
    {
        let r: PeerList = PeerList { table: Table::new() };
        assert(r@ =~= Map::<Seq<char>, PeerView>::empty());
        r
    }

    /// The names of entries that a new one displaces.
    fn displaced_names(&self, peer: &PeerInfo) -> (r: Vec<String>)
        ensures
            name_set(r@) == displaced(self@, peer@),
            r@.len() > 0 <==> exists|k: Seq<char>| #[trigger]
                displaced(self@, peer@).contains(k),
    {
        proof {
            use_type_invariant(self);
        }
        let mut out: Vec<String> = Vec::new();
        let n: usize = self.table.len();
        let stub: bool = is_stub_id(&peer.id);
        let local: bool = peer.ip.is_loopback();
        let mut i: usize = 0;
        while i < n
            invariant
                i <= n,
                n == self.table.names().len(),
                self.table@.dom() == self.table.names().to_set(),
                stub == is_stub(peer.id@),
                local == peer.ip.loopback(),
                self.keyed_by_id(),
                forall|k: Seq<char>| #[trigger]
                    name_set(out@).contains(k) <==> self.table.names().take(i as int).contains(k)
                        && displaces(peer@, self@[k]),
                out@.len() > 0 <==> exists|j: int| 0 <= j < out@.len() && #[trigger]
                    name_set(out@).contains(out@[j]@),
            decreases n - i,
        {
            let ghost t0 = self.table.names().take(i as int);
            let ghost t1 = self.table.names().take(i + 1);
            let ghost name = self.table.names()[i as int];
            let ghost o0 = out@;
            let entry: &PeerInfo = self.table.value_at(i);
            assert(self@[name] == entry@);
            assert(entry.id@ == name);
            let gone: bool = !stub && is_stub_id(&entry.id) && entry.ip == peer.ip && (!local
                || entry.port == peer.port);
            assert(gone == displaces(peer@, self@[name]));
            if gone {
                out.push(self.table.name_at(i).clone());
            }
            proof {
                assert(t1 =~= t0.push(name));
                assert forall|k: Seq<char>| #[trigger]
                    name_set(out@).contains(k) <==> t1.contains(k) && displaces(
                        peer@,
                        self@[k],
                    ) by {
                    if name_set(out@).contains(k) {
                        let j: int = choose|j: int| 0 <= j < out@.len() && #[trigger] out@[j]@ == k;
                        if j < o0.len() {
                            assert(o0[j]@ == k);
                            assert(name_set(o0).contains(k));
                            let x: int = choose|x: int| 0 <= x < t0.len() && t0[x] == k;
                            assert(t1[x] == k);
                        } else {
                            assert(t1[i as int] == k);
                        }
                    }
                    if t1.contains(k) && displaces(peer@, self@[k]) {
                        let x: int = choose|x: int| 0 <= x < t1.len() && t1[x] == k;
                        if x < i {
                            assert(t0[x] == k);
                            assert(name_set(o0).contains(k));
                            let j: int = choose|j: int|
                                0 <= j < o0.len() && #[trigger] o0[j]@ == k;
                            assert(out@[j]@ == k);
                        } else {
                            assert(gone);
                            assert(out@[o0.len() as int]@ == k);
                        }
                    }
                }
                if out@.len() > 0 {
                    assert(out@[0]@ == out@[0]@);
                    assert(name_set(out@).contains(out@[0]@));
                }
            }
            i = i + 1;
        }
        proof {
            assert(self.table.names().take(i as int) =~= self.table.names());
            assert(name_set(out@) =~= displaced(self@, peer@)) by {
                assert forall|k: Seq<char>| self.table.names().contains(k)
                    <==> self@.contains_key(k) by {
                    assert(self.table@.dom().contains(k) <==> self.table.names().to_set().contains(k));
                }
            }
            if out@.len() > 0 {
                assert(out@[0]@ == out@[0]@);
                assert(displaced(self@, peer@).contains(out@[0]@));
            }
            if exists|k: Seq<char>| #[trigger] displaced(self@, peer@).contains(k) {
                let k = choose|k: Seq<char>| #[trigger] displaced(self@, peer@).contains(k);
                assert(name_set(out@).contains(k));
            }
        }
        out
    }

    /// Adds an entry or brings it up to date, and tells whether the members of the
    /// list have changed. A node that is known takes the place of stubs at its
    /// address.
    pub fn upsert(&mut self, peer: PeerInfo) -> (changed: bool)
        ensures
            final(self)@ == upserted(old(self)@, peer@),
            changed == changes_members(old(self)@, peer@),
    {
        proof {
            use_type_invariant(&*self);
        }
        let gone: Vec<String> = self.displaced_names(&peer);
        let mut table: Table<PeerInfo> = Table::new();
        let known: bool = self.table.contains(peer.id.as_str());
        let name: String = peer.id.0.clone();
        std::mem::swap(&mut table, &mut self.table);
        table.remove_all(&gone);
        table.insert(name, peer);
        self.table = table;
        proof {
            assert(self@ =~= upserted(old(self)@, peer@));
        }
        !known || gone.len() > 0
    }

    /// Takes a node out, and tells whether it was there.
    pub fn remove(&mut self, id: &NodeId) -> (removed: bool)
        ensures
            final(self)@ == old(self)@.remove(id@),
            removed == old(self)@.contains_key(id@),
    {
        proof {
            use_type_invariant(&*self);
        }
        let mut table: Table<PeerInfo> = Table::new();
        std::mem::swap(&mut table, &mut self.table);
        let found: Option<PeerInfo> = table.remove(id.as_str());
        self.table = table;
        proof {
            assert(self@ =~= old(self)@.remove(id@));
        }
        found.is_some()
    }

    /// All entries.
    pub fn all(&self) -> (r: Vec<PeerInfo>)
        ensures
            lists_all(peer_views(r@), self@),
            self.consistent(),
            self@.dom().finite(),
    {
        proof {
            use_type_invariant(self);
        }
        let mut out: Vec<PeerInfo> = Vec::new();
        let n: usize = self.table.len();
        let mut i: usize = 0;
        while i < n
            invariant
                i <= n,
                n == self.table.names().len(),
                out@.len() == i,
                self.keyed_by_id(),
                forall|j: int|
                    0 <= j < i ==> (#[trigger] out@[j])@ == self.table@[self.table.names()[j]]@
                        && self.table@.contains_key(self.table.names()[j]),
            decreases n - i,
        {
            let ghost before = out@;
            let entry: PeerInfo = self.table.value_at(i).clone();
            out.push(entry);
            assert forall|j: int| 0 <= j < i + 1 implies (#[trigger] out@[j])@
                == self.table@[self.table.names()[j]]@ && self.table@.contains_key(
                self.table.names()[j],
            ) by {
                if j < i {
                    assert(out@[j] == before[j]);
                }
            }
            i = i + 1;
        }
        proof {
            let v = peer_views(out@);
            let names = self.table.names();
            assert(self@.dom() =~= self.table@.dom());
            assert forall|j: int| 0 <= j < v.len() implies self@.contains_key((#[trigger] v[j]).id)
                && self@[v[j].id] == v[j] && v[j].id == names[j] by {
                assert(out@[j]@ == self.table@[names[j]]@);
            }
            assert forall|k: Seq<char>| #[trigger] self@.contains_key(k) implies exists|j: int|
                0 <= j < v.len() && #[trigger] v[j] == self@[k] by {
                assert(names.to_set().contains(k));
                let j: int = choose|j: int| 0 <= j < names.len() && names[j] == k;
                assert(v[j].id == k);
                assert(v[j] == self@[k]);
            }
            assert forall|a: int, b: int| 0 <= a < b < v.len() implies (#[trigger] v[a]).id
                != (#[trigger] v[b]).id by {
                assert(v[a].id == names[a]);
                assert(v[b].id == names[b]);
            }
        }
        out
    }

    /// The entry of a node.
    pub fn get(&self, id: &NodeId) -> (r: Option<PeerInfo>)
        ensures
            match r {
                Some(p) => self@.contains_key(id@) && p@ == self@[id@] && p.id@ == id@,
                None => !self@.contains_key(id@),
            },
    {
        proof {
            use_type_invariant(self);
        }
        match self.table.get(id.as_str()) {
            Some(p) => Some(p.clone()),
            None => None,
        }
    }

    /// Whether a node is in the list.
    pub fn contains(&self, id: &NodeId) -> (r: bool)
        ensures
            r == self@.contains_key(id@),
    {
        self.table.contains(id.as_str())
    }

    /// How many nodes are known.
    pub fn len(&self) -> (n: usize)
        ensures
            n == self@.len(),
    {
        assert(self@.dom() =~= self.table@.dom());
        self.table.len()
    }

    /// Whether the ages of the entries can be computed.
    pub fn ages_can_be_told(&self, now: i64) -> (r: bool)
        ensures
            r == ages_fit(self@, now),
    {
        proof {
            use_type_invariant(self);
        }
        let all: Vec<PeerInfo> = self.all();
        let ghost views = peer_views(all@);
        let mut i: usize = 0;
        while i < all.len()
            invariant
                i <= all@.len(),
                views == peer_views(all@),
                lists_all(views, self@),
                forall|j: int|
                    0 <= j < i && !is_stub((#[trigger] views[j]).id) ==> i64::MIN <= now
                        - views[j].last_seen <= i64::MAX,
            decreases all@.len() - i,
        {
            let p: &PeerInfo = &all[i];
            assert(views[i as int] == p@);
            if !is_stub_id(&p.id) && now.checked_sub(p.last_seen).is_none() {
                assert(self@.contains_key(views[i as int].id));
                return false;
            }
            i = i + 1;
        }
        true
    }

    /// Drops the nodes that were not seen for a minute, and tells whether there were
    /// any. Stubs stay until the node they stand for is known.
    pub fn prune_stale(&mut self, now: i64) -> (removed_any: bool)
        requires
            ages_fit(old(self)@, now),
        ensures
            final(self)@ == old(self)@.remove_keys(stale(old(self)@, now)),
            removed_any == exists|k: Seq<char>| #[trigger] stale(old(self)@, now).contains(k),
    {
        proof {
            use_type_invariant(&*self);
        }
        let all: Vec<PeerInfo> = self.all();
        let ghost views = peer_views(all@);
        let ghost m = self@;
        let mut gone: Vec<String> = Vec::new();
        let mut i: usize = 0;
        while i < all.len()
            invariant
                i <= all@.len(),
                views == peer_views(all@),
                lists_all(views, m),
                ages_fit(m, now),
                forall|k: Seq<char>| #[trigger]
                    name_set(gone@).contains(k) <==> exists|j: int|
                        0 <= j < i && (#[trigger] views[j]).id == k && is_stale(views[j], now),
            decreases all@.len() - i,
        {
            let p: &PeerInfo = &all[i];
            let ghost g0 = gone@;
            assert(views[i as int] == p@);
            assert(m.contains_key(views[i as int].id));
            let dead: bool = !is_stub_id(&p.id) && !p.is_alive(now);
            if dead {
                gone.push(p.id.0.clone());
            }
            proof {
                assert forall|k: Seq<char>| #[trigger]
                    name_set(gone@).contains(k) <==> exists|j: int|
                        0 <= j < i + 1 && (#[trigger] views[j]).id == k && is_stale(
                            views[j],
                            now,
                        ) by {
                    if name_set(gone@).contains(k) {
                        let x: int = choose|x: int|
                            0 <= x < gone@.len() && #[trigger] gone@[x]@ == k;
                        if x < g0.len() {
                            assert(g0[x]@ == k);
                            assert(name_set(g0).contains(k));
                        } else {
                            assert(views[i as int].id == k);
                        }
                    }
                    if exists|j: int|
                        0 <= j < i + 1 && (#[trigger] views[j]).id == k && is_stale(views[j], now) {
                        let j: int = choose|j: int|
                            0 <= j < i + 1 && (#[trigger] views[j]).id == k && is_stale(
                                views[j],
                                now,
                            );
                        if j < i {
                            assert(name_set(g0).contains(k));
                            let x: int = choose|x: int|
                                0 <= x < g0.len() && #[trigger] g0[x]@ == k;
                            assert(gone@[x]@ == k);
                        } else {
                            assert(gone@[g0.len() as int]@ == k);
                        }
                    }
                }
            }
            i = i + 1;
        }
        proof {
            assert(name_set(gone@) =~= stale(m, now)) by {
                assert forall|k: Seq<char>| name_set(gone@).contains(k) <==> stale(
                    m,
                    now,
                ).contains(k) by {
                    if stale(m, now).contains(k) {
                        let j: int = choose|j: int|
                            0 <= j < views.len() && #[trigger] views[j] == m[k];
                        assert(views[j].id == k);
                    }
                }
            }
            if gone@.len() > 0 {
                assert(gone@[0]@ == gone@[0]@);
                assert(stale(m, now).contains(gone@[0]@));
            }
            if exists|k: Seq<char>| #[trigger] stale(m, now).contains(k) {
                let k = choose|k: Seq<char>| #[trigger] stale(m, now).contains(k);
                assert(name_set(gone@).contains(k));
            }
        }
        let mut table: Table<PeerInfo> = Table::new();
        std::mem::swap(&mut table, &mut self.table);
        table.remove_all(&gone);
        self.table = table;
        proof {
            assert(self@ =~= m.remove_keys(stale(m, now)));
        }
        gone.len() > 0
    }
}

impl Default for PeerList {
    fn default() -> (r: PeerList)
        ensures
            r@ == Map::<Seq<char>, PeerView>::empty(),
    {
        PeerList::new()
    }
}

/// The entry for a node that was added by hand: all that is known of it is its address.
/// Its chat service is taken to be two ports above it.
pub fn stub_for(addr: SocketAddr, now: i64) -> (r: PeerInfo)
    requires
        addr.port + 2 <= u16::MAX,
    ensures
        r@ == (PeerView {
            id: "stub-"@ + addr.text(),
            name: "peer"@,
            ip: addr.ip,
            port: addr.port,
            chat_port: (addr.port + 2) as u16,
            services: seq![Service::Chat],
            last_seen: now,
        }),
        is_stub(r.id@),
{
    let mut id: String = "stub-".to_owned();
    let text: String = addr.to_text();
    id.append(text.as_str());
    let mut services: Vec<Service> = Vec::new();
    services.push(Service::Chat);
    let r: PeerInfo = PeerInfo {
        id: NodeId(id),
        name: "peer".to_owned(),
        ip: addr.ip,
        port: addr.port,
        chat_port: addr.port + 2,
        services,
        last_seen: now,
    };
    proof {
        assert(r.services@ =~= seq![Service::Chat]);
        assert(r.id@.subrange(0, "stub-"@.len() as int) =~= "stub-"@);
    }
    r
}

/// A sign of life of a node that is in the list, with nothing to displace, changes
/// its entry but not the members.
pub proof fn law_heartbeat_changes_no_members(m: Map<Seq<char>, PeerView>, peer: PeerView)
    requires
        m.contains_key(peer.id),
        forall|k: Seq<char>| #[trigger] m.contains_key(k) ==> !displaces(peer, m[k]),
    ensures
        !changes_members(m, peer),
        upserted(m, peer).dom() == m.dom(),
        upserted(m, peer)[peer.id] == peer,
        forall|k: Seq<char>| k != peer.id && #[trigger]
            m.contains_key(k) ==> upserted(m, peer)[k] == m[k],
{
    assert(upserted(m, peer).dom() =~= m.dom());
}

/// An entry is in the list after it was added, and adding it again changes nothing
/// more.
pub proof fn law_upsert_is_idempotent(m: Map<Seq<char>, PeerView>, peer: PeerView)
    ensures
        upserted(m, peer).contains_key(peer.id),
        upserted(m, peer)[peer.id] == peer,
        upserted(upserted(m, peer), peer) == upserted(m, peer),
        !changes_members(upserted(m, peer), peer),
{
    let once = upserted(m, peer);
    assert forall|k: Seq<char>| !displaced(once, peer).contains(k) by {
        if once.contains_key(k) && k != peer.id {
            assert(m.contains_key(k));
            assert(!displaced(m, peer).contains(k));
        }
    }
    assert(upserted(once, peer) =~= once);
}

/// A known node is never displaced: adding an entry takes out stubs only.
pub proof fn law_upsert_keeps_known_nodes(
    m: Map<Seq<char>, PeerView>,
    peer: PeerView,
    id: Seq<char>,
)
    requires
        m.contains_key(id),
        m[id].id == id,
        !is_stub(id),
    ensures
        upserted(m, peer).contains_key(id),
        id != peer.id ==> upserted(m, peer)[id] == m[id],
{
}

/// Dropping stale entries keeps stubs and nodes seen within the last minute, and what
/// is left has none that is stale.
pub proof fn law_prune_keeps_fresh_and_stubs(m: Map<Seq<char>, PeerView>, now: i64, id: Seq<char>)
    requires
        m.contains_key(id),
    ensures
        m.remove_keys(stale(m, now)).contains_key(id) <==> is_stub(m[id].id) || alive(
            m[id].last_seen,
            now,
        ),
        stale(m.remove_keys(stale(m, now)), now) == Set::<Seq<char>>::empty(),
{
    let left = m.remove_keys(stale(m, now));
    assert(stale(left, now) =~= Set::<Seq<char>>::empty());
}

/// A name is that of a stub just where it starts with the five characters `stub-`.
pub proof fn law_stub_names(id: Seq<char>)
    ensures
        is_stub(id) <==> id.len() >= 5 && id[0] == 's' && id[1] == 't' && id[2] == 'u' && id[3]
            == 'b' && id[4] == '-',
{
    reveal_strlit("stub-");
    let p = "stub-"@;
    if id.len() >= 5 {
        let f = id.subrange(0, 5);
        assert(f[0] == id[0] && f[1] == id[1] && f[2] == id[2] && f[3] == id[3] && f[4] == id[4]);
        assert(f =~= p <==> (id[0] == 's' && id[1] == 't' && id[2] == 'u' && id[3] == 'b' && id[4]
            == '-'));
    }
}

/// Away from the machine itself a node takes the place of every stub at its address,
/// whatever the ports. On the machine itself it takes the place of those with its own port.
/// A stub takes nobody's place, and nobody takes the place of a known node.
pub proof fn law_node_takes_the_place_of_its_stubs(peer: PeerView, entry: PeerView)
    ensures
        is_stub(peer.id) ==> !displaces(peer, entry),
        !is_stub(entry.id) ==> !displaces(peer, entry),
        entry.ip != peer.ip ==> !displaces(peer, entry),
        !is_stub(peer.id) && is_stub(entry.id) && entry.ip == peer.ip && !peer.ip.loopback()
            ==> displaces(peer, entry),
        !is_stub(peer.id) && is_stub(entry.id) && entry.ip == peer.ip && peer.ip.loopback() ==> (
        displaces(peer, entry) <==> entry.port == peer.port),
{
}

/// After an entry was added it stands under its name as it is. Another entry is gone just
/// where the node takes its place, and is as it was otherwise; nothing else comes in.
pub proof fn law_upsert_touches_nothing_else(
    m: Map<Seq<char>, PeerView>,
    peer: PeerView,
    k: Seq<char>,
)
    ensures
        upserted(m, peer).contains_pair(peer.id, peer),
        k != peer.id ==> (upserted(m, peer).contains_key(k) <==> m.contains_key(k) && !displaces(
            peer,
            m[k],
        )),
        k != peer.id && upserted(m, peer).contains_key(k) ==> upserted(m, peer)[k] == m[k],
{
}

/// Adding an entry is said to change the members just where other names are in the list
/// afterwards than before.
pub proof fn law_changes_are_told_rightly(m: Map<Seq<char>, PeerView>, peer: PeerView)
    requires
        forall|k: Seq<char>| #[trigger] m.contains_key(k) ==> m[k].id == k,
    ensures
        changes_members(m, peer) <==> upserted(m, peer).dom() != m.dom(),
{
    let after = upserted(m, peer);
    if changes_members(m, peer) {
        if m.contains_key(peer.id) {
            let k = choose|k: Seq<char>| #[trigger] displaced(m, peer).contains(k);
            assert(m.dom().contains(k) && !after.dom().contains(k));
        } else {
            assert(after.dom().contains(peer.id) && !m.dom().contains(peer.id));
        }
    } else {
        assert(after.dom() =~= m.dom()) by {
            assert forall|k: Seq<char>| after.dom().contains(k) <==> m.dom().contains(k) by {
                assert(!displaced(m, peer).contains(k));
            }
        }
    }
}

/// A list of all entries has as many entries as there are names, each name's among them.
pub proof fn law_all_entries_are_listed(
    list: Seq<PeerView>,
    m: Map<Seq<char>, PeerView>,
    k: Seq<char>,
)
    requires
        lists_all(list, m),
        forall|n: Seq<char>| #[trigger] m.contains_key(n) ==> m[n].id == n,
    ensures
        m.contains_key(k) <==> exists|i: int| 0 <= i < list.len() && (#[trigger] list[i]).id == k,
        m.contains_key(k) ==> list.contains(m[k]),
        list.len() == m.len(),
{
    let ids = list.map_values(|p: PeerView| p.id);
    assert forall|i: int, j: int|
        0 <= i < ids.len() && 0 <= j < ids.len() && i != j implies ids[i] != ids[j] by {
        if i < j {
            assert(list[i].id != list[j].id);
        } else {
            assert(list[j].id != list[i].id);
        }
    }
    assert(ids.to_set() =~= m.dom()) by {
        assert forall|n: Seq<char>| ids.to_set().contains(n) <==> m.dom().contains(n) by {
            if ids.to_set().contains(n) {
                let i: int = choose|i: int| 0 <= i < ids.len() && ids[i] == n;
                assert(m.contains_key(list[i].id));
            }
            if m.contains_key(n) {
                let i: int = choose|i: int| 0 <= i < list.len() && #[trigger] list[i] == m[n];
                assert(ids[i] == n);
            }
        }
    }
    ids.unique_seq_to_set();
    if m.contains_key(k) {
        let i: int = choose|i: int| 0 <= i < list.len() && #[trigger] list[i] == m[k];
        assert(list[i].id == k);
    }
}

/// Ages can be told wherever every entry, stubs aside, was seen at a time that is not too
/// far from now to be counted.
pub proof fn law_ages_that_can_be_told(m: Map<Seq<char>, PeerView>, now: i64)
    requires
        forall|k: Seq<char>| #[trigger] m.contains_key(k) ==> is_stub(m[k].id) || (i64::MIN <= now
            - m[k].last_seen <= i64::MAX),
    ensures
        ages_fit(m, now),
{
}

/// Whatever is added to a list or taken out, every entry stands under its own name.
pub proof fn law_entries_stay_under_their_names(
    l: PeerList,
    peer: PeerView,
    k: Seq<char>,
    other: Seq<char>,
    now: i64,
)
    requires
        l.consistent(),
    ensures
        l@.contains_key(k) ==> l@[k].id == k,
        upserted(l@, peer).contains_key(k) ==> upserted(l@, peer)[k].id == k,
        l@.remove(other).contains_key(k) ==> l@.remove(other)[k].id == k,
        l@.remove_keys(stale(l@, now)).contains_key(k) ==> l@.remove_keys(stale(l@, now))[k].id == k,
{
}

} // verus!
