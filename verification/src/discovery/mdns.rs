//! Discovery in the local network by multicast names.

use vstd::prelude::*;

use crate::discovery::peer_list::{changes_members, lists_all, upserted, PeerList};
use crate::node::addr::IpAddr;
use crate::node::identity::{short_text, shortened, shortens, NodeId};
use crate::node::peer::{peer_views, PeerInfo, PeerView, Service};
use crate::util::text::{
    chars_of, decimal, first_index, is_white, lemma_first_index, lemma_nothing_to_drop,
    lemma_parse_decimal, option_string, parse_u16, parse_u16_text, push_decimal, same_text, split_at_char, split_on,
    text_of, texts, trim_text, trim_white,
};

verus! {

/// The type of service under which nodes are found.
pub const SERVICE_TYPE: &'static str = "_void-connect._tcp.local.";

/// The version of the protocol.
pub const PROTOCOL_VERSION: &'static str = "1";

/// The name of a service.
pub open spec fn service_name(s: Service) -> Seq<char> {
    match s {
        Service::Chat => "chat"@,
        Service::Storage => "storage"@,
        Service::Web => "web"@,
        Service::Bootstrap => "bootstrap"@,
    }
}

/// The service with the given name.
pub open spec fn service_named(name: Seq<char>) -> Option<Service> {
    if name == "chat"@ {
        Some(Service::Chat)
    } else if name == "storage"@ {
        Some(Service::Storage)
    } else if name == "web"@ {
        Some(Service::Web)
    } else if name == "bootstrap"@ {
        Some(Service::Bootstrap)
    } else {
        None
    }
}

/// The names of services with commas between them.
pub open spec fn services_text(s: Seq<Service>) -> Seq<char>
    decreases s.len(),
{
    if s.len() == 0 {
        seq![]
    } else if s.len() == 1 {
        service_name(s[0])
    } else {
        service_name(s[0]) + seq![','] + services_text(s.drop_first())
    }
}

/// The services that the given names stand for, white space round them aside. Other
/// names are passed over.
pub open spec fn services_named(names: Seq<Seq<char>>) -> Seq<Service>
    decreases names.len(),
{
    if names.len() == 0 {
        seq![]
    } else {
        match service_named(trim_text(names[0])) {
            Some(s) => seq![s] + services_named(names.drop_first()),
            None => services_named(names.drop_first()),
        }
    }
}

/// The name of a service.
fn name_of_service(s: Service) -> (r: &'static str)
    ensures
        r@ == service_name(s),
{
    match s {
        Service::Chat => "chat",
        Service::Storage => "storage",
        Service::Web => "web",
        Service::Bootstrap => "bootstrap",
    }
}

/// The names of services with commas between them.
pub fn join_services(s: &Vec<Service>) -> (r: String)
    ensures
        r@ == services_text(s@),
{
    let mut out: String = String::new();
    let mut i: usize = 0;
    assert(s@.skip(0) =~= s@);
    assert(Seq::<char>::empty() + services_text(s@) =~= services_text(s@));
    while i < s.len()
        invariant
            i <= s@.len(),
            i == 0 ==> out@ == Seq::<char>::empty(),
            services_text(s@) == (if i == 0 {
                services_text(s@)
            } else if i == s@.len() {
                out@
            } else {
                out@ + seq![','] + services_text(s@.skip(i as int))
            }),
        decreases s@.len() - i,
    {
        let ghost before = out@;
        if i > 0 {
            out.push(',');
        }
        out.append(name_of_service(s[i]));
        proof {
            assert(s@.skip(i as int).drop_first() =~= s@.skip(i + 1));
            if i == 0 {
                assert(out@ =~= service_name(s@[0]));
                assert(s@.drop_first() =~= s@.skip(1));
            } else {
                assert(out@ =~= before + seq![','] + service_name(s@[i as int]));
                if i + 1 < s@.len() {
                    assert(before + seq![','] + services_text(s@.skip(i as int)) =~= out@ + seq![
                        ',',
                    ] + services_text(s@.skip(i + 1)));
                }
            }
        }
        i = i + 1;
    }
    out
}

/// The service with the given name.
fn service_by_name(name: &str) -> (r: Option<Service>)
    ensures
        r == service_named(name@),
{
    if same_text(name, "chat") {
        Some(Service::Chat)
    } else if same_text(name, "storage") {
        Some(Service::Storage)
    } else if same_text(name, "web") {
        Some(Service::Web)
    } else if same_text(name, "bootstrap") {
        Some(Service::Bootstrap)
    } else {
        None
    }
}

/// The services in a list with commas.
pub fn parse_services(s: &str) -> (r: Vec<Service>)
    ensures
        r@ == services_named(split_at_char(s@, ',')),
{
    let chars: Vec<char> = chars_of(s);
    let parts: Vec<Vec<char>> = split_on(chars.as_slice(), ',');
    let ghost all = split_at_char(s@, ',');
    let mut out: Vec<Service> = Vec::new();
    let mut i: usize = 0;
    assert(all.skip(0) =~= all);
    while i < parts.len()
        invariant
            i <= parts@.len(),
            texts(parts@) == all,
            services_named(all) == out@ + services_named(all.skip(i as int)),
        decreases parts@.len() - i,
    {
        let ghost before = out@;
        assert(all.len() == parts@.len());
        assert(all[i as int] == parts@[i as int]@);
        assert(all.skip(i as int).drop_first() =~= all.skip(i + 1));
        let name: String = text_of(trim_white(parts[i].as_slice()));
        if let Some(service) = service_by_name(name.as_str()) {
            out.push(service);
            assert(before + (seq![service] + services_named(all.skip(i + 1))) =~= out@
                + services_named(all.skip(i + 1)));
        }
        i = i + 1;
    }
    assert(all.len() == parts@.len());
    assert(services_named(all.skip(i as int)) =~= seq![]);
    out
}

/// What stands before the first comma of a list that starts with a service.
proof fn lemma_first_service(s: Seq<Service>)
    requires
        s.len() > 0,
    ensures
        trim_text(service_name(s[0])) == service_name(s[0]),
        service_named(service_name(s[0])) == Some(s[0]),
        s.len() > 1 ==> first_index(services_text(s), ',') == service_name(s[0]).len(),
        s.len() == 1 ==> first_index(services_text(s), ',') == services_text(s).len(),
{
    reveal_strlit("chat");
    reveal_strlit("storage");
    reveal_strlit("web");
    reveal_strlit("bootstrap");
    let name = service_name(s[0]);
    assert(name.len() > 0);
    assert forall|i: int| 0 <= i < name.len() implies name[i] != ',' && 'a' <= #[trigger] name[i]
        <= 'z' by {}
    assert(name[name.len() - 1] == name.last());
    lemma_nothing_to_drop(name, is_white());
    let t = services_text(s);
    lemma_first_index(t, ',');
    let n = first_index(t, ',');
    if s.len() > 1 {
        assert(t[name.len() as int] == ',');
        assert forall|i: int| 0 <= i < name.len() implies t[i] == name[i] by {}
        if n < name.len() {
            assert(t[n] == name[n]);
        }
    }
}

/// Services that are written down are read back.
pub proof fn law_services_read_back(s: Seq<Service>)
    ensures
        services_named(split_at_char(services_text(s), ',')) == s,
    decreases s.len(),
{
    let t = services_text(s);
    if s.len() == 0 {
        assert(split_at_char(t, ',') =~= seq![t]);
        assert(trim_text(t) == t);
        reveal_strlit("chat");
        reveal_strlit("storage");
        reveal_strlit("web");
        reveal_strlit("bootstrap");
        assert(split_at_char(t, ',').drop_first() =~= seq![]);
        reveal_with_fuel(services_named, 2);
        assert(services_named(split_at_char(t, ',')) =~= s);
    } else {
        lemma_first_service(s);
        let name = service_name(s[0]);
        let parts = split_at_char(t, ',');
        if s.len() == 1 {
            assert(parts =~= seq![name]);
            assert(parts.drop_first() =~= seq![]);
            reveal_with_fuel(services_named, 2);
            assert(services_named(parts) =~= s);
        } else {
            law_services_read_back(s.drop_first());
            let rest = services_text(s.drop_first());
            assert(t.take(name.len() as int) =~= name);
            assert(t.skip(name.len() as int + 1) =~= rest);
            assert(parts =~= seq![name] + split_at_char(rest, ','));
            assert(parts.drop_first() =~= split_at_char(rest, ','));
            assert(services_named(parts) =~= s);
        }
    }
}

/// The name under which a node is announced.
pub open spec fn instance_text(id: Seq<char>) -> Seq<char> {
    "void-"@ + shortened(id)
}

/// What a node announces of itself.
#[derive(Debug, Clone, PartialEq, Eq)]
pub struct Registration {
    pub instance_name: String,
    pub host_name: String,
    pub ip: String,
    pub port: u16,
    pub properties: Vec<(String, String)>,
}

/// Properties as contracts speak of them.
pub open spec fn property_texts(s: Seq<(String, String)>) -> Seq<(Seq<char>, Seq<char>)> {
    s.map_values(|p: (String, String)| (p.0@, p.1@))
}

/// What a node announces of itself.
pub fn registration(peer: &PeerInfo) -> (r: Registration)
    requires
        shortens(peer.id@),
    ensures
        r.instance_name@ == instance_text(peer.id@),
        r.host_name@ == instance_text(peer.id@) + ".local."@,
        r.ip@ == peer.ip.text(),
        r.port == peer.port,
        property_texts(r.properties@) == seq![
            ("id"@, peer.id@),
            ("name"@, peer.name@),
            ("version"@, PROTOCOL_VERSION@),
            ("chat_port"@, decimal(peer.chat_port as nat)),
            ("services"@, services_text(peer.services@)),
        ],
{
    let mut instance_name: String = "void-".to_owned();
    instance_name.append(short_text(peer.id.as_str()));
    let mut host_name: String = instance_name.clone();
    host_name.append(".local.");
    let mut chat_port: String = String::new();
    push_decimal(&mut chat_port, peer.chat_port as u64);
    assert(chat_port@ =~= decimal(peer.chat_port as nat));
    let mut properties: Vec<(String, String)> = Vec::new();
    properties.push(("id".to_owned(), peer.id.0.clone()));
    properties.push(("name".to_owned(), peer.name.clone()));
    properties.push(("version".to_owned(), PROTOCOL_VERSION.to_owned()));
    properties.push(("chat_port".to_owned(), chat_port));
    properties.push(("services".to_owned(), join_services(&peer.services)));
    assert(property_texts(properties@) =~= seq![
        ("id"@, peer.id@),
        ("name"@, peer.name@),
        ("version"@, PROTOCOL_VERSION@),
        ("chat_port"@, decimal(peer.chat_port as nat)),
        ("services"@, services_text(peer.services@)),
    ]);
    Registration { instance_name, host_name, ip: peer.ip.to_text(), port: peer.port, properties }
}

/// What was found of a node.
#[derive(Debug, Clone, PartialEq, Eq)]
pub struct ResolvedService {
    pub addresses: Vec<IpAddr>,
    pub port: u16,
    pub id: Option<String>,
    pub version: Option<String>,
    pub name: Option<String>,
    pub chat_port: Option<String>,
    pub services: Option<String>,
}

/// What became of a node that was found.
#[derive(Debug, Clone, Copy, PartialEq, Eq, Structural)]
pub enum Resolution {
    /// It has told no address.
    NoAddress,
    /// It has not told who it is.
    NoId,
    /// It is we.
    Own,
    /// It speaks another version of the protocol.
    OtherVersion,
    /// It was entered; whether the members of the list have changed.
    Entered { changed: bool },
}

/// The text of a property, or another one.
pub open spec fn text_or(o: Option<Seq<char>>, other: Seq<char>) -> Seq<char> {
    match o {
        Some(s) => s,
        None => other,
    }
}

/// The port of the chat service, where it was told as a number.
pub open spec fn told_chat_port(o: Option<Seq<char>>) -> Option<u16> {
    match o {
        Some(s) => parse_u16_text(s),
        None => None,
    }
}

impl ResolvedService {
    /// Whether the node cannot be entered, and why.
    pub open spec fn obstacle(&self, my_id: Seq<char>) -> Option<Resolution> {
        if self.addresses@.len() == 0 {
            Some(Resolution::NoAddress)
        } else if self.id is None {
            Some(Resolution::NoId)
        } else if option_string(self.id)->0 == my_id {
            Some(Resolution::Own)
        } else if text_or(option_string(self.version), Seq::empty()) != PROTOCOL_VERSION@ {
            Some(Resolution::OtherVersion)
        } else {
            None
        }
    }

    /// The entry of a node that can be entered.
    pub open spec fn entry(&self, now: i64) -> PeerView {
        PeerView {
            id: option_string(self.id)->0,
            name: text_or(option_string(self.name), "Unknown"@),
            ip: self.addresses@[0],
            port: self.port,
            chat_port: match told_chat_port(option_string(self.chat_port)) {
                Some(p) => p,
                None => (self.port + 2) as u16,
            },
            services: services_named(
                split_at_char(text_or(option_string(self.services), Seq::empty()), ','),
            ),
            last_seen: now,
        }
    }

    /// Whether there is a port for the chat service, where one is needed.
    pub open spec fn has_chat_port(&self, my_id: Seq<char>) -> bool {
        self.obstacle(my_id) is None && told_chat_port(option_string(self.chat_port)) is None
            ==> self.port + 2 <= u16::MAX
    }

    /// Whether the node cannot be entered, and why.
    fn obstacle_to(&self, my_id: &NodeId) -> (r: Option<Resolution>)
        ensures
            r == self.obstacle(my_id@),
    {
        if self.addresses.len() == 0 {
            return Some(Resolution::NoAddress);
        }
        match &self.id {
            Some(id) => if same_text(id.as_str(), my_id.as_str()) {
                return Some(Resolution::Own);
            },
            None => {
                return Some(Resolution::NoId);
            },
        }
        proof {
            reveal_strlit("1");
            assert(PROTOCOL_VERSION@.len() == 1);
        }
        let right_version: bool = match &self.version {
            Some(v) => same_text(v.as_str(), PROTOCOL_VERSION),
            None => false,
        };
        if right_version {
            None
        } else {
            Some(Resolution::OtherVersion)
        }
    }

    /// The port of the chat service, where it was told as a number.
    fn told_port(&self) -> (r: Option<u16>)
        ensures
            r == told_chat_port(option_string(self.chat_port)),
    {
        match &self.chat_port {
            Some(t) => {
                let chars: Vec<char> = chars_of(t.as_str());
                parse_u16(chars.as_slice())
            },
            None => None,
        }
    }

    /// Whether there is a port for the chat service, where one is needed.
    pub fn finds_chat_port(&self, my_id: &NodeId) -> (r: bool)
        ensures
            r == self.has_chat_port(my_id@),
    {
        self.obstacle_to(my_id).is_some() || self.told_port().is_some() || self.port <= u16::MAX - 2
    }
}

/// Enters a node that was found, if it can be. A node that has not told the port of its
/// chat service has it two above its own.
pub fn handle_resolved(list: &mut PeerList, info: &ResolvedService, my_id: &NodeId, now: i64) -> (r:
    Resolution)
    requires
        info.has_chat_port(my_id@),
    ensures
        match info.obstacle(my_id@) {
            Some(why) => final(list)@ == old(list)@ && r == why,
            None => {
                &&& final(list)@ == upserted(old(list)@, info.entry(now))
                &&& r == (Resolution::Entered {
                    changed: changes_members(old(list)@, info.entry(now)),
                })
            },
        },
        r is Entered <==> {
            &&& info.addresses@.len() > 0
            &&& info.id matches Some(id) && id@ != my_id@
            &&& info.version matches Some(v) && v@ == "1"@
        },
        r is Entered ==> final(list)@.contains_key(info.id->0@) && final(list)@[info.id->0@].ip
            == info.addresses@[0] && final(list)@[info.id->0@].port == info.port,
{
    proof {
        law_found_node_is_entered(*info, my_id@);
    }
    if let Some(why) = info.obstacle_to(my_id) {
        return why;
    }
    let id: String = match &info.id {
        Some(id) => id.clone(),
        None => {
            return Resolution::NoId;
        },
    };
    let name: String = match &info.name {
        Some(n) => n.clone(),
        None => "Unknown".to_owned(),
    };
    let chat_port: u16 = match info.told_port() {
        Some(p) => p,
        None => info.port + 2,
    };
    let services: Vec<Service> = match &info.services {
        Some(s) => parse_services(s.as_str()),
        None => {
            let none: String = String::new();
            parse_services(none.as_str())
        },
    };
    let peer: PeerInfo = PeerInfo {
        id: NodeId(id),
        name,
        ip: info.addresses[0],
        port: info.port,
        chat_port,
        services,
        last_seen: now,
    };
    assert(peer@ =~= info.entry(now));
    let changed: bool = list.upsert(peer);
    Resolution::Entered { changed }
}

/// The full name under which a node is announced.
pub open spec fn full_name(id: Seq<char>) -> Seq<char> {
    instance_text(id) + "._void-connect._tcp.local."@
}

/// Takes out a node whose announcement was withdrawn, and gives out its name. Of
/// several nodes with the same full name one goes.
pub fn handle_removed(list: &mut PeerList, fullname: &str) -> (r: Option<NodeId>)
    requires
        forall|k: Seq<char>| #[trigger] old(list)@.contains_key(k) ==> shortens(k),
    ensures
        match r {
            Some(id) => {
                &&& old(list)@.contains_key(id@)
                &&& full_name(id@) == fullname@
                &&& final(list)@ == old(list)@.remove(id@)
            },
            None => {
                &&& final(list)@ == old(list)@
                &&& forall|k: Seq<char>| #[trigger]
                    old(list)@.contains_key(k) ==> full_name(k) != fullname@
            },
        },
{
    let peers: Vec<PeerInfo> = list.all();
    let ghost views = peer_views(peers@);
    let ghost m = list@;
    let mut i: usize = 0;
    while i < peers.len()
        invariant
            i <= peers@.len(),
            views == peer_views(peers@),
            lists_all(views, m),
            list@ == m,
            m == old(list)@,
            forall|k: Seq<char>| #[trigger] m.contains_key(k) ==> m[k].id == k,
            forall|k: Seq<char>| #[trigger] m.contains_key(k) ==> shortens(k),
            forall|j: int| 0 <= j < i ==> full_name((#[trigger] views[j]).id) != fullname@,
        decreases peers@.len() - i,
    {
        let p: &PeerInfo = &peers[i];
        assert(views[i as int] == p@);
        assert(m.contains_key(p.id@));
        let mut instance: String = "void-".to_owned();
        instance.append(short_text(p.id.as_str()));
        instance.append("._void-connect._tcp.local.");
        if same_text(instance.as_str(), fullname) {
            list.remove(&p.id);
            return Some(p.id.clone());
        }
        i = i + 1;
    }
    assert forall|k: Seq<char>| #[trigger] m.contains_key(k) implies full_name(k) != fullname@ by {
        let j: int = choose|j: int| 0 <= j < views.len() && #[trigger] views[j] == m[k];
        assert(views[j].id == k);
    }
    None
}

/// A node that announces itself is entered by others as it is, if it speaks the same
/// version: what it announces and what others read of it agree.
pub proof fn law_announced_node_is_read_back(peer: PeerView, found: ResolvedService, now: i64)
    requires
        found.addresses@.len() > 0,
        found.addresses@[0] == peer.ip,
        found.port == peer.port,
        option_string(found.id) == Some(peer.id),
        option_string(found.name) == Some(peer.name),
        option_string(found.chat_port) == Some(decimal(peer.chat_port as nat)),
        option_string(found.services) == Some(services_text(peer.services)),
    ensures
        found.entry(now) == (PeerView { last_seen: now, ..peer }),
{
    law_services_read_back(peer.services);
    lemma_parse_decimal(peer.chat_port);
    assert(found.entry(now) =~= (PeerView { last_seen: now, ..peer }));
}

/// A node that was found is entered just where it has told an address, however many, and
/// who it is, is not we, and speaks the version `1`.
pub proof fn law_found_node_is_entered(found: ResolvedService, my_id: Seq<char>)
    ensures
        found.obstacle(my_id) is None <==> {
            &&& found.addresses@.len() > 0
            &&& found.id matches Some(id) && id@ != my_id
            &&& found.version matches Some(v) && v@ == "1"@
        },
        found.addresses@.len() == 0 <==> found.obstacle(my_id) == Some(Resolution::NoAddress),
        found.addresses@.len() > 0 && found.id is None <==> found.obstacle(my_id) == Some(
            Resolution::NoId,
        ),
        found.addresses@.len() > 0 && (found.id matches Some(id) && id@ == my_id)
            <==> found.obstacle(my_id) == Some(Resolution::Own),
{
    reveal_strlit("1");
    assert("1"@.len() == 1);
}

/// The entry of a node that was found has the first of its addresses and the port at which
/// it was found, and is seen now. It has the name that the node told, or else `Unknown`; the
/// chat port that it told, where that is a number, or else the one two above its own.
pub proof fn law_entry_is_what_was_found(found: ResolvedService, now: i64)
    requires
        found.id is Some,
        found.addresses@.len() > 0,
    ensures
        found.entry(now).id == found.id->0@,
        found.entry(now).ip == found.addresses@[0],
        found.entry(now).port == found.port,
        found.entry(now).last_seen == now,
        found.name matches Some(n) ==> found.entry(now).name == n@,
        found.name is None ==> found.entry(now).name == "Unknown"@,
        found.chat_port matches Some(p) ==> parse_u16_text(p@) matches Some(n)
            ==> found.entry(now).chat_port == n,
        found.port + 2 <= u16::MAX && (found.chat_port is None || parse_u16_text(
            found.chat_port->0@,
        ) is None) ==> found.entry(now).chat_port == found.port + 2,
        found.services matches Some(s) ==> found.entry(now).services == services_named(
            split_at_char(s@, ','),
        ),
        found.services is None ==> found.entry(now).services == services_named(
            split_at_char(seq![], ','),
        ),
{
}

/// A port for the chat service is wanting only of a node that can be entered, has not told
/// one, and has a port of its own so high that there is none two above it.
pub proof fn law_chat_port_is_wanting_only_at_the_top(found: ResolvedService, my_id: Seq<char>)
    ensures
        found.port <= 65533 ==> found.has_chat_port(my_id),
        found.obstacle(my_id) is Some ==> found.has_chat_port(my_id),
        found.chat_port matches Some(p) ==> parse_u16_text(p@) is Some ==> found.has_chat_port(
            my_id,
        ),
        found.port > 65533 && found.chat_port is None && found.obstacle(my_id) is None
            ==> !found.has_chat_port(my_id),
{
}

/// Each service has one name, and each name stands for the service that has it.
pub proof fn law_services_have_names(s: Service, name: Seq<char>)
    ensures
        service_named(name) == Some(s) <==> name == service_name(s),
        service_name(Service::Chat) == "chat"@,
        service_name(Service::Storage) == "storage"@,
        service_name(Service::Web) == "web"@,
        service_name(Service::Bootstrap) == "bootstrap"@,
        service_named(name) is None <==> name != "chat"@ && name != "storage"@ && name != "web"@
            && name != "bootstrap"@,
{
    reveal_strlit("chat");
    reveal_strlit("storage");
    reveal_strlit("web");
    reveal_strlit("bootstrap");
    assert("chat"@.len() == 4 && "storage"@.len() == 7);
    assert("web"@.len() == 3 && "bootstrap"@.len() == 9);
}

/// Names are read one by one: each that stands for a service, white space round it aside,
/// gives that service at its place, and any other name gives nothing.
pub proof fn law_names_are_read_one_by_one(
    before: Seq<Seq<char>>,
    name: Seq<char>,
    after: Seq<Seq<char>>,
)
    ensures
        services_named(seq![]) == Seq::<Service>::empty(),
        services_named(before + seq![name] + after) == services_named(before) + (
        match service_named(trim_text(name)) {
            Some(s) => seq![s],
            None => seq![],
        }) + services_named(after),
    decreases before.len(),
{
    let all = before + seq![name] + after;
    if before.len() == 0 {
        assert(all.drop_first() =~= after);
        assert(services_named(before) =~= seq![]);
    } else {
        law_names_are_read_one_by_one(before.drop_first(), name, after);
        assert(all.drop_first() =~= before.drop_first() + seq![name] + after);
    }
    assert(services_named(all) =~= services_named(before) + (match service_named(
        trim_text(name),
    ) {
        Some(s) => seq![s],
        None => seq![],
    }) + services_named(after));
}

/// A node is announced under `void-` and the front of its name, in the local zone of its
/// type of service. Nodes are told apart there by the fronts of their names.
pub proof fn law_announced_names_differ_by_their_fronts(a: Seq<char>, b: Seq<char>)
    ensures
        full_name(a) == "void-"@ + shortened(a) + "._void-connect._tcp.local."@,
        full_name(a) == full_name(b) <==> shortened(a) == shortened(b),
        full_name(a) == instance_text(a) + "."@ + SERVICE_TYPE@,
{
    reveal_strlit("void-");
    reveal_strlit("._void-connect._tcp.local.");
    reveal_strlit("_void-connect._tcp.local.");
    reveal_strlit(".");
    let tail = "._void-connect._tcp.local."@;
    assert("."@ + SERVICE_TYPE@ =~= tail);
    assert(instance_text(a) + "."@ + SERVICE_TYPE@ =~= full_name(a));
    if full_name(a) == full_name(b) {
        let x = full_name(a);
        assert(x.subrange(5, x.len() - 26) =~= shortened(a));
        assert(full_name(b).subrange(5, full_name(b).len() - 26) =~= shortened(b));
    }
}

/// A property that was told counts, and another text only where none was.
pub proof fn law_told_text_counts(s: Seq<char>, other: Seq<char>)
    ensures
        text_or(Some(s), other) == s,
        text_or(None, other) == other,
        told_chat_port(Some(s)) == parse_u16_text(s),
        told_chat_port(None) is None,
        PROTOCOL_VERSION@ == "1"@,
{
}

/// Properties are compared by their names and values, in their order.
pub proof fn law_properties_are_compared_whole(s: Seq<(String, String)>, i: int)
    requires
        0 <= i < s.len(),
    ensures
        property_texts(s).len() == s.len(),
        property_texts(s)[i].0 == s[i].0@,
        property_texts(s)[i].1 == s[i].1@,
{
}

} // verus!
