use void_connect::discovery::bootstrap::{
    absorb_reply, admit_client, known_peers, probe_target, service_addr as bootstrap_service_addr,
    tick_verdict, Admission, BootstrapMsg, Reachability,
};
use void_connect::discovery::local_discovery::{dir, is_announcement, my_file, scan_entry, Scanned};
use void_connect::discovery::mdns::{
    handle_removed, handle_resolved, join_services, parse_services, registration, Resolution,
    ResolvedService,
};
use void_connect::discovery::peer_list::{stub_for, PeerList};
use void_connect::discovery::port_mapping::{can_map, mapped_at};
use void_connect::discovery::relay::{
    accept_reply, control_step, open_reply, role_of, service_addr as relay_service_addr,
    ControlStep, OpenStep, RelayFrame, RelayState, Role, TunnelError,
};
use void_connect::discovery::service::ServiceAddrError;
use void_connect::discovery::stun::{
    build_binding_request, gen_txid, parse_mapped_address, ATTR_MAPPED_ADDRESS,
    ATTR_XOR_MAPPED_ADDRESS, BINDING_REQUEST, BINDING_SUCCESS, MAGIC_COOKIE,
};
use void_connect::discovery::udp_broadcast::{hear, listen_port, Heard};
use void_connect::node::addr::{IpAddr, SocketAddr};
use void_connect::node::identity::NodeId;
use void_connect::node::peer::{PeerInfo, Service};

fn peer(id: &str, ip: [u8; 4], port: u16, last_seen: i64) -> PeerInfo {
    PeerInfo {
        id: NodeId(id.to_string()),
        name: "p".into(),
        ip: IpAddr::V4(ip[0], ip[1], ip[2], ip[3]),
        port,
        chat_port: port + 2,
        services: vec![Service::Chat],
        last_seen,
    }
}

fn ids(pl: &PeerList) -> Vec<String> {
    pl.all().iter().map(|p| p.id.0.clone()).collect()
}

#[test]
fn upsert_get_remove_len() {
    let mut pl = PeerList::new();
    assert_eq!(pl.len(), 0);

    let p = peer("aaaa", [192, 168, 0, 2], 7700, 0);
    pl.upsert(p.clone());
    assert_eq!(pl.len(), 1);
    assert_eq!(pl.get(&p.id).unwrap().port, 7700);

    let mut p2 = p.clone();
    p2.port = 7800;
    pl.upsert(p2);
    assert_eq!(pl.len(), 1);
    assert_eq!(pl.get(&p.id).unwrap().port, 7800);

    pl.remove(&p.id);
    assert_eq!(pl.len(), 0);
}

#[test]
fn real_peer_replaces_stub_same_ip() {
    let mut pl = PeerList::default();
    pl.upsert(peer("stub-192.168.0.5:7700", [192, 168, 0, 5], 7700, 0));
    assert_eq!(pl.len(), 1);

    let real = peer("realid64", [192, 168, 0, 5], 7700, 0);
    pl.upsert(real.clone());

    assert_eq!(pl.len(), 1);
    let all = pl.all();
    assert_eq!(all[0].id, real.id);
}

#[test]
fn loopback_keeps_stubs_on_other_ports() {
    let mut pl = PeerList::new();
    pl.upsert(peer("stub-127.0.0.1:7700", [127, 0, 0, 1], 7700, 0));
    pl.upsert(peer("stub-127.0.0.1:7710", [127, 0, 0, 1], 7710, 0));

    pl.upsert(peer("realid64", [127, 0, 0, 1], 7700, 0));

    let ids = ids(&pl);
    assert_eq!(ids.len(), 2);
    assert!(ids.iter().any(|i| i == "realid64"));
    assert!(ids.iter().any(|i| i == "stub-127.0.0.1:7710"));
    assert!(!ids.iter().any(|i| i == "stub-127.0.0.1:7700"));
}

#[test]
fn prune_removes_stale_keeps_fresh_and_stubs() {
    let mut pl = PeerList::new();
    let now = 1_700_000_000;

    pl.upsert(peer("fresh", [10, 0, 0, 1], 7700, now));
    pl.upsert(peer("stale", [10, 0, 0, 2], 7700, now - 120));
    pl.upsert(peer("stub-10.0.0.3:7700", [10, 0, 0, 3], 7700, now - 9999));

    assert!(pl.ages_can_be_told(now));
    assert!(pl.prune_stale(now));

    let ids = ids(&pl);
    assert!(ids.iter().any(|i| i == "fresh"), "свежий пир должен остаться");
    assert!(ids.iter().any(|i| i == "stub-10.0.0.3:7700"), "stub должен остаться");
    assert!(!ids.iter().any(|i| i == "stale"), "протухший пир должен быть удалён");
    assert!(!pl.prune_stale(now));
}

#[test]
fn upsert_new_peer_notifies() {
    let mut pl = PeerList::new();
    assert!(
        pl.upsert(peer("aaaa", [10, 0, 0, 1], 7700, 0)),
        "появление нового пира должно уведомлять"
    );
}

#[test]
fn remove_notifies() {
    let mut pl = PeerList::new();
    let p = peer("aaaa", [10, 0, 0, 1], 7700, 0);
    pl.upsert(p.clone());
    assert!(pl.remove(&p.id), "удаление пира должно уведомлять");
    assert!(!pl.remove(&p.id));
}

#[test]
fn heartbeat_does_not_notify() {
    let mut pl = PeerList::new();
    let p = peer("aaaa", [10, 0, 0, 1], 7700, 0);
    pl.upsert(p.clone());
    let mut hb = p.clone();
    hb.last_seen = 12_345;
    assert!(!pl.upsert(hb), "heartbeat существующего пира не должен уведомлять");
    assert_eq!(pl.get(&p.id).unwrap().last_seen, 12_345);
}

#[test]
fn ages_that_do_not_fit_are_told() {
    let mut pl = PeerList::new();
    pl.upsert(peer("stub-x", [10, 0, 0, 1], 7700, i64::MIN));
    assert!(pl.ages_can_be_told(1));
    pl.upsert(peer("x", [10, 0, 0, 2], 7700, i64::MIN));
    assert!(!pl.ages_can_be_told(1));
    assert!(pl.contains(&NodeId("x".into())));
}

#[test]
fn stubs_are_named_after_addresses() {
    let p = stub_for(SocketAddr { ip: IpAddr::V4(127, 0, 0, 1), port: 7700 }, 5);
    assert_eq!(p.id.0, "stub-127.0.0.1:7700");
    assert_eq!((p.name.as_str(), p.port, p.chat_port, p.last_seen), ("peer", 7700, 7702, 5));
    assert_eq!(p.services, vec![Service::Chat]);
}

#[test]
fn bootstrap_service_addr_applies_offset() {
    assert_eq!(bootstrap_service_addr("1.2.3.4:7700").unwrap(), "1.2.3.4:7705");
    assert_eq!(bootstrap_service_addr("host:80").unwrap(), "host:85");
    assert!(bootstrap_service_addr("no-port").is_err());
}

#[test]
fn relay_service_addr_applies_offset() {
    assert_eq!(relay_service_addr("1.2.3.4:7700").unwrap(), "1.2.3.4:7706");
    assert!(relay_service_addr("no-port").is_err());
}

#[test]
fn service_addr_errors() {
    assert_eq!(bootstrap_service_addr("no-port"), Err(ServiceAddrError::NoPort));
    assert_eq!(bootstrap_service_addr("h:x"), Err(ServiceAddrError::BadPort));
    assert_eq!(bootstrap_service_addr("h:65536"), Err(ServiceAddrError::BadPort));
    assert_eq!(bootstrap_service_addr("h:65531"), Err(ServiceAddrError::PortTooLarge));
    assert_eq!(bootstrap_service_addr("h:65530").unwrap(), "h:65535");
    assert_eq!(bootstrap_service_addr(" ::1 : +80 ").unwrap(), "::1:85");
    assert_eq!(ServiceAddrError::NoPort.message(), "ожидался host:port");
    assert_eq!(ServiceAddrError::BadPort.message(), "неверный порт");
    assert_eq!(
        ServiceAddrError::PortTooLarge.message(),
        "базовый порт слишком велик (переполнение)"
    );
}

fn node_peer(seed: u8, base_port: u16) -> PeerInfo {
    PeerInfo {
        id: NodeId::from_public_key_bytes(&[seed; 32]),
        name: format!("node{seed}"),
        ip: IpAddr::V4(127, 0, 0, 1),
        port: base_port,
        chat_port: base_port + 2,
        services: vec![Service::Chat],
        last_seen: 0,
    }
}

const SRC: Option<IpAddr> = Some(IpAddr::V4(127, 0, 0, 1));

fn exchange(server: &mut PeerList, a: &PeerInfo, client: &mut PeerList, b: &PeerInfo) -> usize {
    admit_client(server, BootstrapMsg::Hello { peer: b.clone() }, SRC);
    let peers = known_peers(server, a.clone());
    absorb_reply(client, &b.id, BootstrapMsg::Peers { peers, reachable: None }).0.learned
}

#[test]
fn exchange_registers_and_learns() {
    let a = node_peer(1, 7000);
    let b = node_peer(2, 8000);
    let (mut pl_a, mut pl_b) = (PeerList::new(), PeerList::new());
    assert_eq!(exchange(&mut pl_a, &a, &mut pl_b, &b), 1, "B должен узнать ровно A");
    assert!(pl_b.get(&a.id).is_some(), "B знает A");
    assert!(pl_a.get(&b.id).is_some(), "A зарегистрировал B");
}

#[test]
fn rendezvous_via_bootstrap() {
    let a = node_peer(1, 7000);
    let b = node_peer(2, 8000);
    let c = node_peer(3, 9000);
    let mut pl_a = PeerList::new();
    exchange(&mut pl_a, &a, &mut PeerList::new(), &b);
    let mut pl_c = PeerList::new();
    assert_eq!(exchange(&mut pl_a, &a, &mut pl_c, &c), 2, "C узнаёт A и B");
    assert!(pl_c.get(&a.id).is_some(), "C знает A");
    assert!(pl_c.get(&b.id).is_some(), "C знает B (через bootstrap)");
}

#[test]
fn exchange_stamps_external_ip() {
    let a = node_peer(1, 7000);
    let mut pl_a = PeerList::new();
    let mut b = node_peer(2, 8000);
    b.ip = IpAddr::V4(10, 0, 0, 5);
    exchange(&mut pl_a, &a, &mut PeerList::new(), &b);
    let stored = pl_a.get(&b.id).expect("A зарегистрировал B");
    assert_eq!(
        stored.ip.to_text(),
        "127.0.0.1",
        "приватный адрес должен быть заменён на внешний (источник соединения)"
    );
}

#[test]
fn public_addresses_are_kept() {
    let mut pl = PeerList::new();
    let mut b = node_peer(2, 8000);
    b.ip = IpAddr::V4(8, 8, 8, 8);
    let r = admit_client(&mut pl, BootstrapMsg::Hello { peer: b.clone() }, SRC);
    assert_eq!(r, Admission { probe_port: Some(8000), changed: true });
    assert_eq!(pl.get(&b.id).unwrap().ip, IpAddr::V4(8, 8, 8, 8));
    let stub = peer("stub-1", [10, 0, 0, 1], 1, 0);
    let r = admit_client(&mut pl, BootstrapMsg::Hello { peer: stub }, SRC);
    assert_eq!(r, Admission { probe_port: None, changed: false });
    let r = admit_client(&mut pl, BootstrapMsg::Unknown, SRC);
    assert_eq!(r.probe_port, None);
    assert_eq!(pl.len(), 1);
}

#[test]
fn repeat_exchange_no_double_count() {
    let a = node_peer(1, 7000);
    let b = node_peer(2, 8000);
    let (mut pl_a, mut pl_b) = (PeerList::new(), PeerList::new());
    assert_eq!(exchange(&mut pl_a, &a, &mut pl_b, &b), 1);
    assert_eq!(exchange(&mut pl_a, &a, &mut pl_b, &b), 0, "A уже известен");
}

#[test]
fn only_answers_with_peers_count() {
    let mut pl = PeerList::new();
    let me = NodeId("me".into());
    let (out, changed) = absorb_reply(&mut pl, &me, BootstrapMsg::Unknown);
    assert_eq!((out.learned, out.reachable, changed), (0, None, false));
    let (out, changed) = absorb_reply(
        &mut pl,
        &me,
        BootstrapMsg::Peers {
            peers: vec![peer("short", [1, 1, 1, 1], 1, 0)],
            reachable: Some(false),
        },
    );
    assert_eq!((out.learned, out.reachable, changed), (0, Some(false), false));
    assert_eq!(pl.len(), 0);
}

#[test]
fn probes_need_address_and_port() {
    assert_eq!(probe_target(SRC, Some(80)), Some((IpAddr::V4(127, 0, 0, 1), 80)));
    assert_eq!(probe_target(SRC, None), None);
    assert_eq!(probe_target(None, Some(80)), None);
}

#[test]
fn one_success_makes_us_reachable() {
    assert_eq!(tick_verdict(&vec![]), None);
    assert_eq!(tick_verdict(&vec![None, None]), None);
    assert_eq!(tick_verdict(&vec![None, Some(false)]), Some(Reachability::Blocked));
    assert_eq!(
        tick_verdict(&vec![Some(false), Some(true), Some(false)]),
        Some(Reachability::Reachable)
    );
}

fn nid(seed: u8) -> NodeId {
    NodeId::from_public_key_bytes(&[seed; 32])
}

#[test]
fn open_to_unregistered_is_unreachable() {
    let mut relay = RelayState::new();
    assert_eq!(relay.open(1, 10, &nid(1), &nid(9)), OpenStep::Refuse);
    assert_eq!(relay.settle(1), None);
    assert_eq!(open_reply(&RelayFrame::Unreachable), Err(TunnelError::PeerUnreachable));
}

#[test]
fn open_tunnel_fails_when_target_absent() {
    let mut relay = RelayState::new();
    assert_eq!(relay.open(1, 10, &nid(1), &nid(9)), OpenStep::Refuse);
    relay.register(&nid(9), 7);
    relay.release(&nid(9), 7);
    assert_eq!(relay.open(1, 10, &nid(1), &nid(9)), OpenStep::Refuse);
    let refused = open_reply(&RelayFrame::Unreachable);
    assert!(refused.is_err(), "туннель к незарегистрированному узлу должен падать");
}

#[test]
fn tunnels_are_announced_and_paired() {
    let mut relay = RelayState::new();
    relay.register(&nid(2), 7);
    let notify = |replaced: Option<u64>| OpenStep::Notify {
        control: 7,
        frame: RelayFrame::Incoming { session: 5, from: nid(1) },
        replaced,
    };
    assert_eq!(relay.open(5, 10, &nid(1), &nid(2)), notify(None));
    assert_eq!(relay.open(5, 11, &nid(1), &nid(2)), notify(Some(10)));
    assert_eq!(relay.settle(5), Some(11));
    assert_eq!(relay.settle(5), None);
}

#[test]
fn concurrent_sessions_are_independent() {
    let mut relay = RelayState::new();
    relay.register(&nid(2), 7);
    relay.open(1, 10, &nid(1), &nid(2));
    relay.open(2, 20, &nid(3), &nid(2));
    assert_eq!(relay.settle(1), Some(10));
    assert_eq!(relay.settle(2), Some(20));
    assert_eq!(relay.settle(1), None);
}

#[test]
fn reconnected_node_stays_registered() {
    let mut relay = RelayState::new();
    relay.register(&nid(2), 7);
    relay.register(&nid(2), 8);
    relay.release(&nid(2), 7);
    assert_eq!(relay.control_of(&nid(2)), Some(8));
    relay.release(&nid(2), 8);
    assert_eq!(relay.control_of(&nid(2)), None);
}

#[test]
fn first_frames_give_roles() {
    assert_eq!(
        role_of(RelayFrame::Register { node_id: nid(1) }),
        Role::Control { node_id: nid(1) }
    );
    assert_eq!(
        role_of(RelayFrame::Open { session: 42, from: nid(1), to: nid(2) }),
        Role::FirstEnd { session: 42, from: nid(1), to: nid(2) }
    );
    assert_eq!(role_of(RelayFrame::Accept { session: 3 }), Role::SecondEnd { session: 3 });
    assert_eq!(role_of(RelayFrame::Ping), Role::Refused);
    assert_eq!(role_of(RelayFrame::Unknown), Role::Refused);
}

#[test]
fn relay_answers() {
    assert_eq!(open_reply(&RelayFrame::Ready), Ok(()));
    assert_eq!(open_reply(&RelayFrame::Pong), Err(TunnelError::UnexpectedReply));
    assert_eq!(accept_reply(&RelayFrame::Ready), Ok(()));
    assert_eq!(accept_reply(&RelayFrame::Unreachable), Err(TunnelError::UnexpectedReply));
    assert_eq!(
        control_step(RelayFrame::Incoming { session: 4, from: nid(3) }),
        ControlStep::ConnectBack { session: 4, from: nid(3) }
    );
    assert_eq!(control_step(RelayFrame::Ping), ControlStep::AnswerPong);
    assert_eq!(control_step(RelayFrame::Ready), ControlStep::Ignore);
}

#[test]
fn binding_request_has_magic_and_type() {
    let txid = [7u8; 12];
    let req = build_binding_request(&txid);
    assert_eq!(u16::from_be_bytes([req[0], req[1]]), BINDING_REQUEST);
    assert_eq!(u16::from_be_bytes([req[2], req[3]]), 0);
    assert_eq!(req[4..8], MAGIC_COOKIE.to_be_bytes());
    assert_eq!(req[8..20], txid);
}

fn answer(txid: &[u8; 12], attrs: &[(u16, Vec<u8>)]) -> Vec<u8> {
    let mut body = Vec::new();
    for (kind, val) in attrs {
        body.extend_from_slice(&kind.to_be_bytes());
        body.extend_from_slice(&(val.len() as u16).to_be_bytes());
        body.extend_from_slice(val);
        while body.len() % 4 != 0 {
            body.push(0);
        }
    }
    let mut resp = Vec::new();
    resp.extend_from_slice(&BINDING_SUCCESS.to_be_bytes());
    resp.extend_from_slice(&(body.len() as u16).to_be_bytes());
    resp.extend_from_slice(&MAGIC_COOKIE.to_be_bytes());
    resp.extend_from_slice(txid);
    resp.extend_from_slice(&body);
    resp
}

#[test]
fn parse_xor_mapped_ipv4_roundtrip() {
    let txid = [0xABu8; 12];
    let ext = SocketAddr { ip: IpAddr::V4(203, 0, 113, 5), port: 51234 };
    let xport = 51234u16 ^ (MAGIC_COOKIE >> 16) as u16;
    let xaddr = u32::from_be_bytes([203, 0, 113, 5]) ^ MAGIC_COOKIE;
    let mut attr_val = vec![0u8, 0x01, (xport >> 8) as u8, xport as u8];
    attr_val.extend_from_slice(&xaddr.to_be_bytes());
    let resp = answer(&txid, &[(ATTR_XOR_MAPPED_ADDRESS, attr_val)]);
    assert_eq!(parse_mapped_address(&resp, &txid), Some(ext));
}

#[test]
fn parse_plain_mapped_ipv4() {
    let txid = [1u8; 12];
    let attr_val = vec![0u8, 0x01, 0x1F, 0x90, 192, 168, 1, 9];
    let resp = answer(&txid, &[(ATTR_MAPPED_ADDRESS, attr_val)]);
    assert_eq!(
        parse_mapped_address(&resp, &txid),
        Some(SocketAddr { ip: IpAddr::V4(192, 168, 1, 9), port: 8080 }),
    );
}

#[test]
fn rejects_wrong_txid_and_non_success() {
    let txid = [2u8; 12];
    let req = build_binding_request(&txid);
    assert_eq!(parse_mapped_address(&req, &txid), None);

    let mut resp = build_binding_request(&txid).to_vec();
    resp[0..2].copy_from_slice(&BINDING_SUCCESS.to_be_bytes());
    let wrong = [9u8; 12];
    assert_eq!(parse_mapped_address(&resp, &wrong), None);
}

#[test]
fn what_follows_a_masked_address_is_left() {
    let txid = [5u8; 12];
    let four = vec![0u8, 1, 0x21, 0x12 ^ 80, 9 ^ 0x21, 8 ^ 0x12, 7 ^ 0xA4, 6 ^ 0x42, 1, 2, 3, 4];
    let resp = answer(&txid, &[(ATTR_XOR_MAPPED_ADDRESS, four)]);
    assert_eq!(
        parse_mapped_address(&resp, &txid),
        Some(SocketAddr { ip: IpAddr::V4(9, 8, 7, 6), port: 80 })
    );
    let mut sixteen = vec![0u8, 2, 0x21, 0x12 ^ 80, 0x20 ^ 0x21, 0x01 ^ 0x12, 0xA4, 0x42];
    sixteen.extend_from_slice(&[5; 11]);
    sixteen.push(1 ^ 5);
    sixteen.extend_from_slice(&[7; 4]);
    let resp = answer(&txid, &[(ATTR_XOR_MAPPED_ADDRESS, sixteen)]);
    assert_eq!(
        parse_mapped_address(&resp, &txid),
        Some(SocketAddr { ip: IpAddr::V6(0x2001, 0, 0, 0, 0, 0, 0, 1), port: 80 })
    );
}

#[test]
fn masked_address_goes_before_plain_one() {
    let txid = [3u8; 12];
    let plain = vec![0u8, 1, 0, 80, 1, 2, 3, 4];
    let masked = vec![0u8, 1, 0x21, 0x12 ^ 80, 9 ^ 0x21, 8 ^ 0x12, 7 ^ 0xA4, 6 ^ 0x42];
    let resp = answer(
        &txid,
        &[
            (0x8022, vec![b'x'; 5]),
            (ATTR_MAPPED_ADDRESS, plain.clone()),
            (ATTR_XOR_MAPPED_ADDRESS, masked),
        ],
    );
    assert_eq!(
        parse_mapped_address(&resp, &txid),
        Some(SocketAddr { ip: IpAddr::V4(9, 8, 7, 6), port: 80 })
    );
    let resp = answer(
        &txid,
        &[
            (ATTR_XOR_MAPPED_ADDRESS, vec![0, 3, 0, 0, 0, 0, 0, 0]),
            (ATTR_MAPPED_ADDRESS, vec![0, 1]),
            (ATTR_MAPPED_ADDRESS, plain),
            (ATTR_MAPPED_ADDRESS, vec![0u8, 1, 0, 81, 1, 2, 3, 4]),
        ],
    );
    assert_eq!(
        parse_mapped_address(&resp, &txid),
        Some(SocketAddr { ip: IpAddr::V4(1, 2, 3, 4), port: 80 })
    );
}

#[test]
fn long_addresses_in_answers() {
    let txid = [3u8; 12];
    let mut plain = vec![0u8, 2, 0, 80];
    plain.extend_from_slice(&[0x20, 1, 0xd, 0xb8, 0, 0, 0, 0, 0, 0, 0, 0, 0, 0, 0, 1]);
    let ip = IpAddr::V6(0x2001, 0xdb8, 0, 0, 0, 0, 0, 1);
    let resp = answer(&txid, &[(ATTR_MAPPED_ADDRESS, plain.clone())]);
    assert_eq!(parse_mapped_address(&resp, &txid), Some(SocketAddr { ip, port: 80 }));
    let mut key = vec![0u8, 0, 0x21, 0x12, 0x21, 0x12, 0xA4, 0x42];
    key.extend_from_slice(&txid);
    let masked: Vec<u8> = plain.iter().zip(key.iter()).map(|(a, b)| a ^ b).collect();
    let resp = answer(&txid, &[(ATTR_XOR_MAPPED_ADDRESS, masked)]);
    assert_eq!(parse_mapped_address(&resp, &txid), Some(SocketAddr { ip, port: 80 }));
}

#[test]
fn broken_answers_say_nothing() {
    let txid = [3u8; 12];
    assert_eq!(parse_mapped_address(&[], &txid), None);
    let mut resp = answer(&txid, &[(ATTR_MAPPED_ADDRESS, vec![0u8, 1, 0, 80, 1, 2, 3, 4])]);
    resp.truncate(31);
    assert_eq!(parse_mapped_address(&resp, &txid), None);
    let mut resp = answer(&txid, &[(ATTR_MAPPED_ADDRESS, vec![0u8, 1, 0, 80, 1, 2, 3, 4])]);
    resp[4] = 0;
    assert_eq!(parse_mapped_address(&resp, &txid), None);
}

#[test]
fn transaction_numbers() {
    assert_eq!(
        gen_txid(0x0102_0304_0506_0708, 0xFFFF_FFFF_090A_0B0C),
        [1, 2, 3, 4, 5, 6, 7, 8, 9, 10, 11, 12]
    );
}

#[test]
fn services_are_read_as_written() {
    let all = vec![Service::Chat, Service::Storage, Service::Web, Service::Bootstrap];
    assert_eq!(join_services(&all), "chat,storage,web,bootstrap");
    assert_eq!(parse_services("chat,storage,web,bootstrap"), all);
    assert_eq!(join_services(&vec![]), "");
    assert_eq!(parse_services(""), vec![]);
    assert_eq!(parse_services(" web ,, chess,chat"), vec![Service::Web, Service::Chat]);
    assert_eq!(parse_services("Chat"), vec![]);
}

#[test]
fn nodes_announce_themselves() {
    let mut p = peer("0123456789", [10, 0, 0, 1], 7700, 0);
    p.services = vec![Service::Chat, Service::Web];
    let r = registration(&p);
    assert_eq!(r.instance_name, "void-01234567");
    assert_eq!(r.host_name, "void-01234567.local.");
    assert_eq!((r.ip.as_str(), r.port), ("10.0.0.1", 7700));
    let want = [
        ("id", "0123456789"),
        ("name", "p"),
        ("version", "1"),
        ("chat_port", "7702"),
        ("services", "chat,web"),
    ];
    let got: Vec<(&str, &str)> =
        r.properties.iter().map(|(a, b)| (a.as_str(), b.as_str())).collect();
    assert_eq!(got, want);
}

fn found() -> ResolvedService {
    ResolvedService {
        addresses: vec![IpAddr::V4(10, 0, 0, 9)],
        port: 7700,
        id: Some("other".into()),
        version: Some("1".into()),
        name: Some("bob".into()),
        chat_port: Some("9000".into()),
        services: Some("chat".into()),
    }
}

#[test]
fn found_nodes_are_entered() {
    let me = NodeId("me".into());
    let mut pl = PeerList::new();
    assert_eq!(
        handle_resolved(&mut pl, &found(), &me, 5),
        Resolution::Entered { changed: true }
    );
    let p = pl.get(&NodeId("other".into())).unwrap();
    assert_eq!((p.name.as_str(), p.port, p.chat_port, p.last_seen), ("bob", 7700, 9000, 5));
    assert_eq!(p.services, vec![Service::Chat]);
    let mut f = found();
    f.name = None;
    f.chat_port = Some("x".into());
    f.services = None;
    assert_eq!(handle_resolved(&mut pl, &f, &me, 6), Resolution::Entered { changed: false });
    let p = pl.get(&NodeId("other".into())).unwrap();
    assert_eq!((p.name.as_str(), p.chat_port), ("Unknown", 7702));
    assert_eq!(p.services, vec![]);
}

#[test]
fn found_nodes_that_are_passed_over() {
    let me = NodeId("me".into());
    let mut pl = PeerList::new();
    let mut f = found();
    f.addresses = vec![];
    assert_eq!(handle_resolved(&mut pl, &f, &me, 5), Resolution::NoAddress);
    let mut f = found();
    f.id = None;
    assert_eq!(handle_resolved(&mut pl, &f, &me, 5), Resolution::NoId);
    let mut f = found();
    f.id = Some("me".into());
    assert_eq!(handle_resolved(&mut pl, &f, &me, 5), Resolution::Own);
    for version in [None, Some("2".to_string())] {
        let mut f = found();
        f.version = version;
        assert_eq!(handle_resolved(&mut pl, &f, &me, 5), Resolution::OtherVersion);
    }
    assert_eq!(pl.len(), 0);
}

#[test]
fn withdrawn_nodes_are_taken_out() {
    let mut pl = PeerList::new();
    pl.upsert(peer("0123456789", [10, 0, 0, 1], 7700, 0));
    assert_eq!(handle_removed(&mut pl, "void-xyz._void-connect._tcp.local."), None);
    assert_eq!(
        handle_removed(&mut pl, "void-01234567._void-connect._tcp.local."),
        Some(NodeId("0123456789".into()))
    );
    assert_eq!(pl.len(), 0);
}

#[test]
fn files_of_local_discovery() {
    assert_eq!(dir(), "/tmp/void-connect");
    assert_eq!(my_file(7700), "/tmp/void-connect/7700.json");
    assert!(is_announcement("7700.json"));
    assert!(!is_announcement(".json"));
    assert!(!is_announcement("7700.txt"));
    assert!(!is_announcement("json"));
}

#[test]
fn scanned_files() {
    let me = NodeId("me".into());
    let mut pl = PeerList::new();
    let other = peer("other", [10, 0, 0, 1], 7700, 100);
    assert_eq!(scan_entry(&mut pl, &me, peer("me", [1, 1, 1, 1], 1, 0), 100), Scanned::Own);
    assert_eq!(scan_entry(&mut pl, &me, other.clone(), 131), Scanned::Stale);
    assert_eq!(
        scan_entry(&mut pl, &me, other.clone(), 130),
        Scanned::Entered { new: true, changed: true }
    );
    assert_eq!(
        scan_entry(&mut pl, &me, other.clone(), 130),
        Scanned::Entered { new: false, changed: false }
    );
    assert_eq!(pl.get(&other.id).unwrap().ip, IpAddr::V4(127, 0, 0, 1));
}

#[test]
fn heard_broadcasts() {
    let me = NodeId("me".into());
    let mut pl = PeerList::new();
    let from = IpAddr::V4(10, 0, 0, 7);
    assert_eq!(hear(&mut pl, &me, peer("me", [1, 1, 1, 1], 1, 0), from, 9), Heard::Own);
    let other = peer("other", [1, 1, 1, 1], 7700, 0);
    assert_eq!(
        hear(&mut pl, &me, other.clone(), from, 9),
        Heard::Entered { new: true, changed: true }
    );
    let p = pl.get(&other.id).unwrap();
    assert_eq!((p.ip, p.last_seen), (from, 9));
    assert_eq!(listen_port(7700), 7701);
}

#[test]
fn port_mapping_decisions() {
    assert!(!can_map(&IpAddr::V4(127, 0, 0, 1)));
    assert!(!can_map(&IpAddr::V4(0, 0, 0, 0)));
    assert!(can_map(&IpAddr::V4(192, 168, 0, 2)));
    let ip = IpAddr::V4(8, 8, 8, 8);
    assert_eq!(mapped_at(&vec![false, true], ip), Some(ip));
    assert_eq!(mapped_at(&vec![false, false], ip), None);
    assert_eq!(mapped_at(&vec![], ip), None);
}
