use void_connect::node::addr::{addr_string, IpAddr, SocketAddr};
use void_connect::node::dns::{normalize_name, DnsKind, DnsRecord};
use void_connect::node::error::{VoidError, VoidResult};
use void_connect::node::identity::NodeId;
use void_connect::node::manifest::{ChunkMeta, FileManifest};
use void_connect::node::message::NetworkMessage;
use void_connect::node::peer::{PeerInfo, PeerProfile, Service};
use void_connect::node::profile::Profile;
use void_connect::node::site::{SiteEntry, SiteManifest, SiteRevocation};
use void_connect::util::bytes::{read_be16, read_be32, read_le32, write_be32};
use void_connect::util::frame::{body_length, encode_frame, FrameTooLarge};
use void_connect::util::text::{is_text_before, parse_u16, same_text};

fn node(seed: u8) -> NodeId {
    NodeId::from_public_key_bytes(&[seed; 32])
}

fn rec(name: &str, owner: NodeId, created_at: i64) -> DnsRecord {
    DnsRecord {
        name: name.into(),
        kind: DnsKind::Node,
        node_id: owner,
        ip: Some("192.168.0.5".into()),
        port: Some(7700),
        created_at,
        deleted: false,
    }
}

#[test]
fn dns_name_has_zone() {
    let r = rec("vasya", node(3), 100);
    assert_eq!(r.dns_name(), "vasya.void");
    assert_eq!(r.kind, DnsKind::Node);
    assert_ne!(r.kind, DnsKind::Site);
}

#[test]
fn earlier_registration_wins() {
    let early = rec("blog", node(1), 100);
    let late = rec("blog", node(2), 200);
    assert!(early.wins_over(&late));
    assert!(!late.wins_over(&early));
}

#[test]
fn tie_break_by_node_id() {
    let a = rec("blog", node(1), 100);
    let b = rec("blog", node(2), 100);
    assert!(a.wins_over(&b));
    assert!(!b.wins_over(&a));
}

#[test]
fn record_does_not_win_over_itself() {
    let a = rec("blog", node(1), 100);
    assert!(!a.wins_over(&a));
}

#[test]
fn winning_is_transitive() {
    let a = rec("blog", node(5), 1);
    let b = rec("blog", node(1), 2);
    let c = rec("blog", node(2), 2);
    assert!(a.wins_over(&b) && b.wins_over(&c) && a.wins_over(&c));
}

#[test]
fn normalize_various() {
    assert_eq!(normalize_name("Vasya"), Some("vasya".into()));
    assert_eq!(normalize_name("My Cool Blog"), Some("my-cool-blog".into()));
    assert_eq!(normalize_name("  --weird__name!! "), Some("weird-name".into()));
    assert_eq!(normalize_name("blog.void"), Some("blog".into()));
    assert_eq!(normalize_name("***"), None);
    assert_eq!(normalize_name(""), None);
}

#[test]
fn normalize_edges() {
    assert_eq!(normalize_name("blog.void.void"), Some("blog".into()));
    assert_eq!(normalize_name(".void"), None);
    assert_eq!(normalize_name("a-!-b"), Some("a-b".into()));
    assert_eq!(normalize_name("Имя42"), Some("42".into()));
    assert_eq!(normalize_name("\u{2003}x\u{3000}"), Some("x".into()));
    assert_eq!(normalize_name("a.void b"), Some("avoid-b".into()));
    assert_eq!(normalize_name("a.VOID"), Some("avoid".into()));
}

#[test]
fn normalize_twice_is_normalize_once() {
    for s in ["  --weird__name!! ", "My Cool Blog", "blog.void", "A__B--C"] {
        let once = normalize_name(s).unwrap();
        assert_eq!(normalize_name(&once), Some(once.clone()));
        assert_eq!(normalize_name(&format!("{once}.void")), Some(once.clone()));
    }
}

#[test]
fn from_bytes_is_64_char_hex() {
    let id = NodeId::from_public_key_bytes(&[0xAB; 32]);
    assert_eq!(id.as_str().len(), 64);
    assert!(id.as_str().chars().all(|c| c.is_ascii_hexdigit()));
    assert_eq!(id.as_str(), "ab".repeat(32));
}

#[test]
fn different_bytes_differ() {
    let a = NodeId::from_public_key_bytes(&[1u8; 32]);
    let b = NodeId::from_public_key_bytes(&[2u8; 32]);
    assert_ne!(a, b);
    assert!(!a.same(&b));
    assert!(a.same(&a.clone()));
}

#[test]
fn display_is_shortened() {
    let id = NodeId::from_public_key_bytes(&[0x12; 32]);
    assert_eq!(id.display(), "12121212...");
}

#[test]
fn display_handles_short_id() {
    let id = NodeId("abc".into());
    assert_eq!(id.display(), "abc...");
}

#[test]
fn display_of_empty_id() {
    assert_eq!(NodeId(String::new()).display(), "...");
}

#[test]
fn add_owner_dedups() {
    let a = NodeId::from_public_key_bytes(&[1u8; 32]);
    let b = NodeId::from_public_key_bytes(&[2u8; 32]);
    let mut m = FileManifest {
        file_id: "f".into(),
        name: "x".into(),
        size_bytes: 1,
        mime_type: None,
        owners: vec![a.clone()],
        chunks: vec![],
    };
    assert_eq!(m.original_owner(), Some(&a));
    assert!(m.add_owner(b.clone()), "новый владелец → список изменился");
    assert!(!m.add_owner(b.clone()), "повторный владелец → без изменений");
    assert_eq!(m.owners, vec![a, b]);
}

#[test]
fn manifest_counts_chunks() {
    let manifest = FileManifest {
        file_id: "deadbeef".into(),
        name: "photo.jpg".into(),
        size_bytes: 600_000,
        mime_type: Some("image/jpeg".into()),
        owners: vec![],
        chunks: vec![
            ChunkMeta { hash: "a".repeat(64), index: 0, size: 262_144 },
            ChunkMeta { hash: "b".repeat(64), index: 1, size: 337_856 },
        ],
    };
    assert_eq!(manifest.total_chunks(), 2);
    assert_eq!(manifest.original_owner(), None);
}

fn sample(last_seen: i64) -> PeerInfo {
    PeerInfo {
        id: NodeId("id".into()),
        name: "bob".into(),
        ip: IpAddr::V4(192, 168, 0, 7),
        port: 7700,
        chat_port: 7702,
        services: vec![Service::Chat],
        last_seen,
    }
}

#[test]
fn addr_helpers_format_ip_and_ports() {
    let p = sample(0);
    assert_eq!(p.addr(), "192.168.0.7:7700");
    assert_eq!(p.chat_addr(), "192.168.0.7:7702");
}

#[test]
fn is_alive_boundary() {
    let p = sample(1_000);
    assert!(p.is_alive(1_000));
    assert!(p.is_alive(1_059));
    assert!(!p.is_alive(1_060));
    assert!(!p.is_alive(2_000));
}

#[test]
fn peers_are_cloned_whole() {
    let p = sample(5);
    assert_eq!(p.clone(), p);
}

#[test]
fn profile_new_defaults() {
    let prof = PeerProfile::new(NodeId("x".into()), "alice".into());
    assert_eq!(prof.status, "online");
    assert!(prof.description.is_empty());
    assert!(prof.enc_pubkey.is_none());
    assert_eq!(prof.name, "alice");
    assert_eq!(prof.node_id, NodeId("x".into()));
}

#[test]
fn plain_records_hold_their_fields() {
    let profile = Profile {
        id: node(1),
        name: "n".into(),
        avatar: None,
        status: "s".into(),
        description: None,
        dns_name: Some("n.void".into()),
        updated_at: 7,
        signature: None,
    };
    assert_eq!(profile.clone(), profile);
    let e: VoidResult<u8> = Err(VoidError::NotFound("x".into()));
    assert_eq!(e, Err(VoidError::NotFound("x".into())));
    let rev = SiteRevocation { name: "blog".into(), owner: node(3), revoked_at: 1700 };
    assert_eq!(rev.clone(), rev);
    assert_ne!(NetworkMessage::Ping, NetworkMessage::Pong);
}

fn site() -> SiteManifest {
    SiteManifest {
        site_id: "abc".into(),
        name: "blog".into(),
        owner: NodeId::from_public_key_bytes(&[3u8; 32]),
        entries: vec![
            SiteEntry { path: "index.html".into(), file_id: "f1".into(), size_bytes: 100 },
            SiteEntry { path: "css/style.css".into(), file_id: "f2".into(), size_bytes: 40 },
        ],
        created_at: 0,
    }
}

#[test]
fn lookup_and_helpers() {
    let m = site();
    assert_eq!(m.dns_name(), "blog.void");
    assert_eq!(m.total_size(), 140);
    assert_eq!(m.index().unwrap().file_id, "f1");
    assert_eq!(m.entry("/css/style.css").unwrap().file_id, "f2");
    assert!(m.entry("missing.js").is_none());
}

#[test]
fn all_leading_slashes_are_dropped() {
    let m = site();
    assert_eq!(m.entry("///index.html").unwrap().file_id, "f1");
    assert!(m.entry("index.html/").is_none());
}

#[test]
fn four_byte_addresses() {
    assert_eq!(IpAddr::V4(0, 10, 200, 255).to_text(), "0.10.200.255");
    assert_eq!(IpAddr::localhost().to_text(), "127.0.0.1");
    assert!(IpAddr::V4(127, 5, 0, 1).is_loopback());
    assert!(!IpAddr::V4(128, 0, 0, 1).is_loopback());
    assert!(IpAddr::V4(0, 0, 0, 0).is_unspecified());
    for ip in [
        IpAddr::V4(10, 1, 2, 3),
        IpAddr::V4(172, 16, 0, 1),
        IpAddr::V4(172, 31, 255, 1),
        IpAddr::V4(192, 168, 9, 9),
        IpAddr::V4(169, 254, 1, 1),
        IpAddr::V4(127, 0, 0, 1),
        IpAddr::V4(0, 0, 0, 0),
    ] {
        assert!(ip.looks_private());
    }
    for ip in [
        IpAddr::V4(172, 15, 0, 1),
        IpAddr::V4(172, 32, 0, 1),
        IpAddr::V4(192, 169, 0, 1),
        IpAddr::V4(8, 8, 8, 8),
    ] {
        assert!(!ip.looks_private());
    }
}

#[test]
fn eight_group_addresses() {
    assert_eq!(IpAddr::V6(0, 0, 0, 0, 0, 0, 0, 1).to_text(), "::1");
    assert_eq!(IpAddr::V6(0, 0, 0, 0, 0, 0, 0, 0).to_text(), "::");
    assert_eq!(IpAddr::V6(0x2001, 0xdb8, 0, 0, 0, 0, 0, 1).to_text(), "2001:db8::1");
    assert_eq!(IpAddr::V6(1, 0, 0, 2, 0, 0, 0, 3).to_text(), "1:0:0:2::3");
    assert_eq!(IpAddr::V6(1, 0, 0, 2, 3, 0, 0, 4).to_text(), "1::2:3:0:0:4");
    assert_eq!(IpAddr::V6(1, 0, 3, 4, 5, 6, 7, 8).to_text(), "1:0:3:4:5:6:7:8");
    assert_eq!(IpAddr::V6(0xfe80, 0, 0, 0, 0, 0, 0, 0).to_text(), "fe80::");
    assert_eq!(IpAddr::V6(0, 0, 0, 0, 0, 0xffff, 0xc000, 0x0201).to_text(), "::ffff:192.0.2.1");
    assert!(IpAddr::V6(0, 0, 0, 0, 0, 0, 0, 1).is_loopback());
    assert!(IpAddr::V6(0, 0, 0, 0, 0, 0, 0, 0).looks_private());
    for first in [0xfe80, 0xfebf, 0xfc00, 0xfd12, 0xfdff] {
        assert!(IpAddr::V6(first, 0, 0, 0, 0, 0, 0, 1).looks_private());
    }
    for first in [0x2001, 0xfbff, 0xfe00, 0xfe7f, 0xfec0, 0xff02] {
        assert!(!IpAddr::V6(first, 0, 0, 0, 0, 0, 0, 1).looks_private());
    }
}

#[test]
fn addresses_with_ports() {
    let v6 = IpAddr::V6(0, 0, 0, 0, 0, 0, 0, 1);
    assert_eq!(addr_string(&v6, 80), "::1:80");
    assert_eq!(SocketAddr { ip: v6, port: 80 }.to_text(), "[::1]:80");
    assert_eq!(SocketAddr { ip: IpAddr::V4(1, 2, 3, 4), port: 65535 }.to_text(), "1.2.3.4:65535");
}

#[test]
fn numbers_are_read_as_written() {
    let read = |s: &str| parse_u16(&s.chars().collect::<Vec<char>>());
    assert_eq!(read("0"), Some(0));
    assert_eq!(read("+7"), Some(7));
    assert_eq!(read("00065535"), Some(65535));
    assert_eq!(read("65536"), None);
    assert_eq!(read("99999999999999999999"), None);
    assert_eq!(read(""), None);
    assert_eq!(read("+"), None);
    assert_eq!(read("-1"), None);
    assert_eq!(read(" 1"), None);
    assert_eq!(read("1_0"), None);
}

#[test]
fn texts_are_ordered_by_bytes() {
    assert!(is_text_before("a", "b"));
    assert!(is_text_before("", "a"));
    assert!(is_text_before("ab", "abc"));
    assert!(!is_text_before("abc", "ab"));
    assert!(!is_text_before("abc", "abc"));
    assert!(is_text_before("z", "é"));
    assert!(is_text_before("\u{ffff}", "\u{10000}"));
    assert!(same_text("é", "é") && !same_text("e", "é"));
}

#[test]
fn numbers_in_bytes() {
    assert_eq!(write_be32(0x0102_0304), [1, 2, 3, 4]);
    assert_eq!(write_be32(u32::MAX), [255; 4]);
    assert_eq!(read_be32(&[9, 1, 2, 3, 4], 1), 0x0102_0304);
    assert_eq!(read_be16(&[0xAB, 0xCD], 0), 0xABCD);
    assert_eq!(read_le32(&[1, 2, 3, 4], 0), 0x0403_0201);
}

#[test]
fn frames_read_back() {
    let body = b"hello".to_vec();
    let frame = encode_frame(&body, 5).unwrap();
    assert_eq!(frame, vec![0, 0, 0, 5, b'h', b'e', b'l', b'l', b'o']);
    let header = [frame[0], frame[1], frame[2], frame[3]];
    assert_eq!(body_length(&header, 5), Ok(5));
    assert_eq!(body_length(&header, 4), Err(FrameTooLarge));
    assert_eq!(encode_frame(&body, 4), Err(FrameTooLarge));
    assert_eq!(encode_frame(&[], 0).unwrap(), vec![0, 0, 0, 0]);
}
