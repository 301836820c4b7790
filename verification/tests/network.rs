use void_connect::discovery::peer_list::PeerList;
use void_connect::network::conn_guard::ConnLimiter;
use void_connect::network::connection::{
    handshake_peer, ConnectionEvent, Connections, Link, LinkAction, LinkEvent, PONG_TIMEOUT_NANOS,
};
use void_connect::network::error::NetworkError;
use void_connect::network::rate_limit::{RateLimiter, TokenBucket, NANOS_PER_SEC};
use void_connect::network::router::{
    classify_message, handle_event, MessageKind, RouterEvent, Subscribers,
};
use void_connect::network::transport::{tcp_frame_length, to_tcp_bytes, Frame};
use void_connect::node::addr::{IpAddr, SocketAddr};
use void_connect::node::identity::NodeId;
use void_connect::node::message::NetworkMessage;
use void_connect::node::peer::{PeerInfo, Service};

fn ip(n: u8) -> IpAddr {
    IpAddr::V4(10, 0, 0, n)
}

#[test]
fn per_ip_cap_blocks_single_address() {
    let mut lim = ConnLimiter::new(100, 2);
    let a = ip(1);
    let _g1 = lim.try_accept(a).expect("1st ok");
    let _g2 = lim.try_accept(a).expect("2nd ok");
    assert!(lim.try_accept(a).is_none());
    assert!(lim.try_accept(ip(2)).is_some());
}

#[test]
fn global_cap_blocks_across_ips() {
    let mut lim = ConnLimiter::new(2, 10);
    let _g1 = lim.try_accept(ip(1)).expect("ok");
    let _g2 = lim.try_accept(ip(2)).expect("ok");
    assert!(lim.try_accept(ip(3)).is_none());
}

#[test]
fn dropping_guard_frees_slot() {
    let mut lim = ConnLimiter::new(1, 1);
    let a = ip(1);
    let g = lim.try_accept(a).expect("ok");
    assert_eq!(lim.active(), 1);
    assert!(lim.try_accept(a).is_none());
    lim.release(g);
    assert_eq!(lim.active(), 0);
    assert!(lim.try_accept(a).is_some());
}

#[test]
fn zero_limits_clamped_to_one() {
    let mut lim = ConnLimiter::new(0, 0);
    assert!(lim.try_accept(ip(1)).is_some());
    assert!(lim.try_accept(ip(2)).is_none());
}

const SEC: u64 = NANOS_PER_SEC;

#[test]
fn test_basic_rate_limiting() {
    let mut limiter = RateLimiter::with_limits(10, 10);
    let peer = NodeId("test_peer".into());
    let mut tokens = limiter.burst();
    for _ in 0..10 {
        assert!(limiter.check(&peer, 0, tokens >= 1));
        tokens -= 1;
    }
    assert!(!limiter.check(&peer, 0, tokens >= 1));
}

#[test]
fn test_manual_block() {
    let mut limiter = RateLimiter::new();
    let peer = NodeId("spammer".into());
    limiter.block_peer(&peer, 0, 60 * SEC);
    assert!(limiter.is_blocked(&peer, 0));
    assert!(!limiter.check(&peer, 0, true));
    limiter.unblock_peer(&peer);
    assert!(!limiter.is_blocked(&peer, 0));
}

#[test]
fn default_limits() {
    let limiter = RateLimiter::new();
    assert_eq!((limiter.rate(), limiter.burst()), (20, 50));
}

#[test]
fn three_strikes_block_for_a_minute() {
    let mut limiter = RateLimiter::new();
    let peer = NodeId("p".into());
    for n in 1..=3u32 {
        assert!(!limiter.is_blocked(&peer, 5));
        assert!(!limiter.check(&peer, 5, false));
        assert_eq!(limiter.strikes(&peer), n);
    }
    assert!(limiter.is_blocked(&peer, 5));
    assert!(!limiter.check(&peer, 6, true));
    assert_eq!(limiter.block_remaining_secs(&peer, 5), Some(60));
    assert_eq!(limiter.block_remaining_secs(&peer, 6), Some(59));
    assert!(limiter.is_blocked(&peer, 60 * SEC));
    assert!(!limiter.is_blocked(&peer, 60 * SEC + 5));
    assert!(limiter.check(&peer, 60 * SEC + 5, true));
    assert_eq!(limiter.strikes(&peer), 0);
}

#[test]
fn old_strikes_are_forgotten() {
    let mut b = TokenBucket::new();
    assert!(!b.try_consume(0, false));
    assert!(!b.try_consume(1, false));
    assert!(b.try_consume(2, true));
    assert_eq!(b.strikes, 2);
    assert!(!b.try_consume(302 * SEC, false));
    assert_eq!(b.strikes, 1);
    assert!(!b.is_blocked(302 * SEC));
    assert_eq!(b.block_remaining_secs(302 * SEC), None);
}

#[test]
fn a_new_strike_keeps_the_old_ones() {
    let t = 1_000 * SEC;
    let mut b = TokenBucket::new();
    assert!(!b.try_consume(t, false));
    assert!(!b.try_consume(t + 200 * SEC, false));
    assert_eq!(b.strikes, 2);
    assert!(!b.try_consume(t + 301 * SEC, false));
    assert_eq!(b.strikes, 3);
    assert!(b.is_blocked(t + 301 * SEC));
    assert_eq!(b.block_remaining_secs(t + 301 * SEC), Some(60));
    assert!(!b.is_blocked(t + 361 * SEC));
}

#[test]
fn gone_peers_leave_the_limiter() {
    let mut limiter = RateLimiter::new();
    let (a, b) = (NodeId("a".into()), NodeId("b".into()));
    limiter.check(&a, 0, false);
    limiter.check(&b, 0, false);
    limiter.cleanup(&vec![a.clone()]);
    assert_eq!((limiter.strikes(&a), limiter.strikes(&b)), (1, 0));
    limiter.remove_peer(&a);
    assert_eq!(limiter.strikes(&a), 0);
}

fn peer(id: &str, last_seen: i64) -> PeerInfo {
    PeerInfo {
        id: NodeId(id.into()),
        name: "p".into(),
        ip: ip(7),
        port: 7700,
        chat_port: 7702,
        services: vec![Service::Chat],
        last_seen,
    }
}

fn chat(text: &str) -> NetworkMessage {
    NetworkMessage::ChatMessage {
        from: NodeId("a".into()),
        text: text.into(),
        timestamp: 1,
        seq: 1,
        signature: "s".into(),
    }
}

#[test]
fn messages_have_kinds() {
    let p = peer("a", 0);
    let report = NetworkMessage::ReputationReport {
        target: NodeId("a".into()),
        signed_payload: vec![],
        signature: "s".into(),
        signer: "r".into(),
    };
    let sync = NetworkMessage::ReputationSync {
        from: NodeId("a".into()),
        signed_payload: vec![],
        signature: "s".into(),
        signer: "r".into(),
    };
    assert_eq!(classify_message(&NetworkMessage::Announce { peer: p }), MessageKind::Discovery);
    assert_eq!(classify_message(&NetworkMessage::GetPeers), MessageKind::Discovery);
    assert_eq!(classify_message(&NetworkMessage::Peers { peers: vec![] }), MessageKind::Discovery);
    assert_eq!(classify_message(&chat("x")), MessageKind::Chat);
    assert_eq!(classify_message(&sync), MessageKind::Reputation);
    assert_eq!(classify_message(&report), MessageKind::Reputation);
    assert_eq!(classify_message(&NetworkMessage::Ping), MessageKind::Keepalive);
    assert_eq!(classify_message(&NetworkMessage::Pong), MessageKind::Keepalive);
}

#[test]
fn connected_nodes_are_asked_for_peers() {
    let mut list = PeerList::new();
    let p = peer("a", 0);
    let addr = SocketAddr { ip: ip(7), port: 1 };
    let step = handle_event(&mut list, ConnectionEvent::Connected { peer_info: p.clone(), addr }, 5);
    assert_eq!(step.send, Some((p.id.clone(), NetworkMessage::GetPeers)));
    assert_eq!(step.dispatch, None);
    assert!(step.changed && list.contains(&p.id));
    let step = handle_event(&mut list, ConnectionEvent::Disconnected { peer_id: p.id }, 6);
    assert_eq!((step.send, step.dispatch, step.changed), (None, None, true));
    assert_eq!(list.len(), 0);
}

#[test]
fn messages_are_signs_of_life() {
    let mut list = PeerList::new();
    let p = peer("a", 0);
    list.upsert(p.clone());
    let from = p.id.clone();
    let ping = ConnectionEvent::Message { from: from.clone(), message: NetworkMessage::Ping };
    let step = handle_event(&mut list, ping, 9);
    assert_eq!(step.send, Some((from.clone(), NetworkMessage::Pong)));
    assert_eq!(step.dispatch, None);
    assert!(!step.changed);
    assert_eq!(list.get(&from).unwrap().last_seen, 9);
    let said = ConnectionEvent::Message { from: from.clone(), message: chat("x") };
    let step = handle_event(&mut list, said, 10);
    assert_eq!(step.send, None);
    assert_eq!(
        step.dispatch,
        Some((MessageKind::Chat, RouterEvent { from: from.clone(), message: chat("x") }))
    );
}

#[test]
fn told_peers_are_entered_once() {
    let mut list = PeerList::new();
    list.upsert(peer("b", 1));
    let told = NetworkMessage::Peers { peers: vec![peer("b", 50), peer("c", 50)] };
    let from = NodeId("z".into());
    let step = handle_event(&mut list, ConnectionEvent::Message { from, message: told }, 9);
    assert!(step.changed);
    assert_eq!(list.len(), 2);
    assert_eq!(list.get(&NodeId("b".into())).unwrap().last_seen, 1);
}

#[test]
fn subscribers_get_their_kind_and_all() {
    let mut s = Subscribers::new();
    s.subscribe(MessageKind::Chat, 1);
    s.subscribe(MessageKind::All, 2);
    s.subscribe(MessageKind::Discovery, 3);
    assert_eq!(s.targets(MessageKind::Chat), vec![1, 2]);
    assert_eq!(s.targets(MessageKind::Reputation), vec![2]);
    s.drop_gone(MessageKind::Chat, &vec![1, 2]);
    assert_eq!(s.targets(MessageKind::Chat), vec![]);
    assert_eq!(s.targets(MessageKind::Discovery), vec![3]);
}

#[test]
fn connections_are_kept_by_node() {
    let mut c = Connections::new();
    let (a, b) = (NodeId("a".into()), NodeId("b".into()));
    let addr = SocketAddr { ip: ip(1), port: 1 };
    c.register(&a, addr);
    c.register(&b, SocketAddr { ip: ip(2), port: 1 });
    assert_eq!(c.peer_count(), 2);
    assert!(c.is_connected(&a) && c.is_connected_to(addr));
    assert!(!c.is_connected_to(SocketAddr { ip: ip(1), port: 2 }));
    assert_eq!(c.recipients_except(&a), vec![b.clone()]);
    assert_eq!(c.send_target(&a), Ok(()));
    c.unregister(&a);
    assert_eq!(c.connected_peers(), vec![b]);
    assert_eq!(c.send_target(&a), Err(NetworkError::PeerNotFound("a".into())));
}

#[test]
fn handshakes_start_with_an_announcement() {
    let p = peer("a", 0);
    assert_eq!(handshake_peer(NetworkMessage::Announce { peer: p.clone() }), Ok(p));
    assert_eq!(
        handshake_peer(NetworkMessage::Ping),
        Err(NetworkError::Protocol("Expected Announce as first message".into()))
    );
}

#[test]
fn links_deliver_limit_and_close() {
    let mut limiter = RateLimiter::new();
    let id = NodeId("a".into());
    let mut link = Link::established(id.clone(), 0);
    let said = || LinkEvent::Frame(Some(chat("x")));
    let want = ConnectionEvent::Message { from: id.clone(), message: chat("x") };
    assert_eq!(link.step(said(), &mut limiter, 1, true), LinkAction::Deliver(want));
    assert_eq!(link.step(said(), &mut limiter, 1, false), LinkAction::Limit);
    assert_eq!(limiter.strikes(&id), 1);
    assert_eq!(link.step(LinkEvent::Frame(None), &mut limiter, 2, false), LinkAction::Wait);
    assert_eq!(limiter.strikes(&id), 1);
    let out = LinkEvent::Outgoing(Some(vec![1]));
    assert_eq!(link.step(out, &mut limiter, 2, true), LinkAction::Send(vec![1]));
    assert_eq!(link.step(LinkEvent::Outgoing(None), &mut limiter, 2, true), LinkAction::Wait);
    let late = PONG_TIMEOUT_NANOS;
    assert_eq!(link.step(LinkEvent::PingDue, &mut limiter, late, true), LinkAction::SendPing);
    assert_eq!(link.step(LinkEvent::PingDue, &mut limiter, late + 1, true), LinkAction::Close);
    let pong = LinkEvent::Frame(Some(NetworkMessage::Pong));
    assert_eq!(link.step(pong, &mut limiter, late + 1, false), LinkAction::Wait);
    assert_eq!(link.step(LinkEvent::PingDue, &mut limiter, late + 1, true), LinkAction::SendPing);
    assert_eq!(link.step(LinkEvent::ReceiveFailed, &mut limiter, 3, true), LinkAction::Close);
    assert_eq!(link.step(LinkEvent::SendFailed, &mut limiter, 3, true), LinkAction::Close);
}

#[test]
fn tcp_frames() {
    assert_eq!(to_tcp_bytes(b"ab"), vec![0, 0, 0, 2, b'a', b'b']);
    assert_eq!(tcp_frame_length(&[0, 0, 1, 2]), Ok(258));
    assert_eq!(tcp_frame_length(&[1, 0, 0, 0]), Ok(16 * 1024 * 1024));
    assert_eq!(
        tcp_frame_length(&[1, 0, 0, 1]),
        Err(NetworkError::Protocol("Frame too large: 16777217 bytes".into()))
    );
    let f = Frame::new(vec![7]);
    assert_eq!((f.version, f.payload), (1, vec![7]));
}
