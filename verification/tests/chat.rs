use void_connect::chat::private_chat::{
    accept_hello, dm_packet, dm_step, open_dm, outbound_hello, own_hello, seal_dm, DmPacket,
    DmRoute, DmSendCmd, DmStep, IncomingDm, PrivateChat,
};
use void_connect::chat::public_chat::{
    enter_client, greeting, packet_step, ChatMessage, ChatPacket, ClientEntry, PacketStep,
    PublicChat, RelayStep, SendRoute, DEDUP_WINDOW, HISTORY_LEN,
};
use void_connect::crypto::encrypt::EncryptedMessage;
use void_connect::crypto::keys::EncryptionKeypair;
use void_connect::discovery::peer_list::PeerList;
use void_connect::discovery::relay::{
    control_step, open_reply, ControlStep, OpenStep, RelayFrame, RelayState,
};
use void_connect::node::addr::IpAddr;
use void_connect::node::identity::NodeId;
use void_connect::node::peer::{PeerInfo, PeerProfile, Service};

fn node_id(seed: u8) -> NodeId {
    NodeId::from_public_key_bytes(&[seed; 32])
}

fn test_peer(name: &str, id_seed: u8, dm_port: u16) -> PeerInfo {
    PeerInfo {
        id: node_id(id_seed),
        name: name.to_string(),
        ip: IpAddr::localhost(),
        port: dm_port.wrapping_sub(3),
        chat_port: dm_port.wrapping_sub(1),
        services: vec![Service::Chat],
        last_seen: 0,
    }
}

struct Node {
    peer: PeerInfo,
    keys: EncryptionKeypair,
    chat: PrivateChat,
}

fn start_node(name: &str, seed: u8) -> Node {
    Node {
        peer: test_peer(name, seed, 7703),
        keys: EncryptionKeypair::generate(),
        chat: PrivateChat::new(),
    }
}

fn command(to: &Node, plaintext: &str, message_id: &str) -> DmSendCmd {
    DmSendCmd {
        to: to.peer.id.clone(),
        to_dm_addr: "127.0.0.1:7703".into(),
        their_enc_pubkey: to.keys.public_bytes(),
        plaintext: plaintext.into(),
        message_id: message_id.into(),
    }
}

fn connect(a: &mut Node, b: &mut Node, connection: u64) {
    let (id, name, key) = accept_hello(own_hello(&a.peer, &a.keys)).expect("hello");
    b.chat.learned(&id, key, name);
    b.chat.connected(&id, connection);
    let (name, key) = outbound_hello(own_hello(&b.peer, &b.keys), &b.keys.public_bytes());
    a.chat.learned(&b.peer.id, key, name);
    a.chat.connected(&b.peer.id, connection);
}

fn deliver(from: &Node, to: &Node, cmd: &DmSendCmd) -> IncomingDm {
    let enc: EncryptedMessage = seal_dm(cmd, &from.keys).expect("seal");
    let packet = dm_packet(cmd.message_id.clone(), "blob".into(), 17);
    match dm_step(packet) {
        DmStep::Take { message_id, encrypted_blob, timestamp } => {
            assert!(enc.has_fitting_nonce());
            open_dm(
                &enc,
                &to.keys,
                &from.peer.id,
                &from.peer.name,
                message_id,
                encrypted_blob,
                timestamp,
            )
            .expect("open")
        },
        DmStep::Ignore => panic!("a message is taken"),
    }
}

#[test]
fn dm_delivered_and_decrypted() {
    let mut alice = start_node("alice", 1);
    let mut bob = start_node("bob", 2);
    connect(&mut alice, &mut bob, 1);
    let dm = deliver(&alice, &bob, &command(&bob, "привет, Боб 🔒", "m1"));
    assert_eq!(dm.plaintext, "привет, Боб 🔒");
    assert_eq!(dm.from, alice.peer.id, "from должен быть NodeId Алисы");
    assert_eq!(dm.message_id, "m1");
    assert_eq!((dm.from_name.as_str(), dm.timestamp), ("alice", 17));
}

#[test]
fn dm_bidirectional_reply() {
    let mut alice = start_node("alice", 1);
    let mut bob = start_node("bob", 2);
    connect(&mut alice, &mut bob, 1);
    let ping = deliver(&alice, &bob, &command(&bob, "ping", "m1"));
    assert_eq!(ping.plaintext, "ping");
    let a_pub = bob.chat.known_pubkey(&alice.peer.id).expect("ключ Алисы известен Бобу");
    assert_eq!(a_pub, alice.keys.public_bytes());
    let mut reply = command(&alice, "pong", "m2");
    reply.their_enc_pubkey = a_pub;
    let pong = deliver(&bob, &alice, &reply);
    assert_eq!(pong.plaintext, "pong");
    assert_eq!(pong.from, bob.peer.id);
}

#[test]
fn dm_multiple_messages_reuse_connection() {
    let mut alice = start_node("alice", 1);
    let mut bob = start_node("bob", 2);
    assert_eq!(alice.chat.route(&bob.peer.id), DmRoute::Dial);
    connect(&mut alice, &mut bob, 9);
    for i in 0..5 {
        assert_eq!(alice.chat.route(&bob.peer.id), DmRoute::Existing(9));
        let dm = deliver(&alice, &bob, &command(&bob, &format!("msg-{i}"), &format!("m{i}")));
        assert_eq!(dm.plaintext, format!("msg-{i}"));
        assert!(alice.chat.after_write(&bob.peer.id, true));
    }
    assert!(!alice.chat.after_write(&bob.peer.id, false));
    assert_eq!(alice.chat.route(&bob.peer.id), DmRoute::Dial);
    assert!(alice.chat.known_pubkey(&bob.peer.id).is_some());
}

#[test]
fn dm_over_provided_stream() {
    let mut alice = start_node("alice", 1);
    let mut bob = start_node("bob", 2);
    connect(&mut alice, &mut bob, 1);
    let mut cmd = command(&bob, "через туннель", "rm1");
    cmd.to_dm_addr = String::new();
    let dm = deliver(&alice, &bob, &cmd);
    assert_eq!(dm.plaintext, "через туннель");
    assert_eq!(dm.from, alice.peer.id);
    assert_eq!(dm.message_id, "rm1");
}

#[test]
fn dm_delivered_end_to_end_via_relay() {
    let mut alice = start_node("alice", 1);
    let mut bob = start_node("bob", 2);
    let mut relay = RelayState::new();
    relay.register(&bob.peer.id, 7);
    let frame = match relay.open(42, 1, &alice.peer.id, &bob.peer.id) {
        OpenStep::Notify { control: 7, frame, replaced: None } => frame,
        other => panic!("{other:?}"),
    };
    let back = control_step(frame);
    assert_eq!(back, ControlStep::ConnectBack { session: 42, from: alice.peer.id.clone() });
    assert_eq!(relay.settle(42), Some(1));
    assert_eq!(open_reply(&RelayFrame::Ready), Ok(()));
    connect(&mut alice, &mut bob, 1);
    let dm = deliver(&alice, &bob, &command(&bob, "привет через relay 🔒", "e2e1"));
    assert_eq!(dm.plaintext, "привет через relay 🔒");
    assert_eq!(dm.from, alice.peer.id, "отправитель — Alice");
    assert_eq!(dm.message_id, "e2e1");
}

#[test]
fn messages_for_others_are_dropped() {
    let alice = start_node("alice", 1);
    let bob = start_node("bob", 2);
    let eve = start_node("eve", 3);
    let cmd = command(&bob, "secret", "m");
    let enc = seal_dm(&cmd, &alice.keys).unwrap();
    let from = &alice.peer.id;
    assert_eq!(open_dm(&enc, &eve.keys, from, &"a".into(), "m".into(), "b".into(), 0), None);
}

#[test]
fn hellos_need_a_key() {
    let hello = |key: &str| DmPacket::Hello {
        node_id: node_id(7),
        name: "alice".into(),
        enc_pubkey: key.into(),
    };
    assert_eq!(accept_hello(hello("deadbeef")), None);
    assert_eq!(accept_hello(hello(&"zz".repeat(32))), None);
    assert_eq!(accept_hello(DmPacket::Ping), None);
    let (id, name, key) = accept_hello(hello(&"0a".repeat(32))).unwrap();
    assert_eq!((id, name.as_str(), key), (node_id(7), "alice", [10; 32]));
    assert_eq!(outbound_hello(hello("x"), &[1; 32]), ("alice".to_string(), [1; 32]));
    assert_eq!(outbound_hello(DmPacket::Unknown, &[1; 32]), (String::new(), [1; 32]));
    assert_eq!(dm_step(DmPacket::Pong), DmStep::Ignore);
}

fn said(from: u8, seq: u64) -> ChatMessage {
    ChatMessage::at(node_id(from), "n".into(), format!("{seq}"), seq, 100)
}

fn room() -> PublicChat {
    PublicChat::new(test_peer("me", 5, 7703), 7702)
}

#[test]
fn copies_are_dropped() {
    let mut chat = room();
    chat.add_client(&node_id(1), 11);
    chat.add_client(&node_id(2), 12);
    assert_eq!(chat.handle_incoming(&said(1, 1)), Some(vec![node_id(2)]));
    assert_eq!(chat.handle_incoming(&said(1, 1)), None);
    assert_eq!(chat.handle_incoming(&said(2, 1)), Some(vec![node_id(1)]));
    assert_eq!(chat.recent(10).len(), 2);
    assert_eq!(chat.recent(1), vec![said(2, 1)]);
    assert_eq!(chat.recent(0), vec![]);
}

#[test]
fn history_and_window_are_bounded() {
    let mut chat = room();
    for i in 0..(DEDUP_WINDOW as u64) {
        assert!(chat.handle_incoming(&said(1, i)).is_some());
    }
    assert_eq!(chat.recent(1000).len(), HISTORY_LEN);
    assert_eq!(chat.recent(1000)[0], said(1, DEDUP_WINDOW as u64 - HISTORY_LEN as u64));
    assert_eq!(chat.handle_incoming(&said(1, 0)), None);
    assert!(chat.handle_incoming(&said(1, DEDUP_WINDOW as u64)).is_some());
    assert!(chat.handle_incoming(&said(1, 0)).is_some());
}

#[test]
fn told_history_is_kept_without_the_window() {
    let mut chat = room();
    chat.merge_history(vec![said(1, 1), said(1, 2)]);
    assert_eq!(chat.recent(5), vec![said(1, 1), said(1, 2)]);
    assert!(chat.handle_incoming(&said(1, 1)).is_some());
    chat.take_first_from_relay(ChatPacket::History { messages: vec![said(3, 3)] });
    chat.take_first_from_relay(ChatPacket::Ping);
    assert_eq!(chat.recent(9).len(), 4);
}

#[test]
fn own_messages_are_numbered() {
    let mut chat = room();
    let one = chat.send("hi".into(), 50);
    assert_eq!((one.message.seq, one.message.timestamp), (1, 50));
    assert_eq!((one.message.from_name.as_str(), one.message.text.as_str()), ("me", "hi"));
    assert_eq!(one.message.from, node_id(5));
    assert_eq!(one.clients, Some(vec![]));
    assert_eq!(one.route, SendRoute::WeRelay);
    chat.relay_connected(node_id(1));
    assert_eq!(chat.send("hi".into(), 50).message.seq, 2);
    assert_eq!(chat.send("hi".into(), 50).route, SendRoute::ToRelay);
    let generation = chat.relay_connected(node_id(1));
    chat.ping_failed(generation.wrapping_add(1));
    assert_eq!(chat.send("hi".into(), 50).route, SendRoute::ToRelay);
    chat.ping_failed(generation);
    assert_eq!(chat.send("hi".into(), 50).route, SendRoute::LocalOnly);
}

#[test]
fn the_first_name_is_the_relay() {
    let low = test_peer("low", 1, 7703);
    let high = test_peer("high", 9, 7703);
    let mut chat = room();
    assert_eq!(chat.relay_step(&vec![], false), RelayStep::Idle);
    assert_eq!(chat.relay_step(&vec![high.clone()], false), RelayStep::WeRelay);
    let both = vec![high.clone(), low.clone()];
    assert_eq!(chat.relay_step(&both, false), RelayStep::Connect(low.clone()));
    chat.relay_connected(low.id.clone());
    assert_eq!(chat.relay_step(&both, true), RelayStep::Keep);
    assert_eq!(chat.relay_step(&both, false), RelayStep::Connect(low.clone()));
    assert_eq!(chat.relay_step(&vec![high], true), RelayStep::WeRelay);
    assert_eq!(chat.send("x".into(), 0).route, SendRoute::WeRelay);
}

#[test]
fn profiles_are_kept_and_shown() {
    let mut chat = room();
    let mut list = PeerList::new();
    list.upsert(test_peer("old", 1, 7703));
    chat.add_client(&node_id(1), 11);
    chat.add_client(&node_id(2), 12);
    let told = PeerProfile::new(node_id(1), "new".into());
    let (to, changed) = chat.handle_profile_update(&mut list, &told);
    assert_eq!((to, changed), (vec![node_id(2)], false));
    assert_eq!(list.get(&node_id(1)).unwrap().name, "new");
    assert_eq!(chat.get_profiles(), vec![told.clone()]);
    let mine = PeerProfile::new(node_id(5), "renamed".into());
    let (to, linked) = chat.set_profile(mine.clone());
    assert_eq!((to.len(), linked), (2, false));
    assert_eq!(chat.my_name(), "renamed");
    assert_eq!(chat.own_profile(), Some(mine.clone()));
    assert_eq!(
        chat.hello(),
        ChatPacket::Hello { node_id: node_id(5), name: "renamed".into(), chat_port: 7702 }
    );
    assert_eq!(
        chat.welcome(),
        vec![
            ChatPacket::History { messages: vec![] },
            ChatPacket::ProfileUpdate(told),
            ChatPacket::ProfileUpdate(mine),
        ]
    );
    chat.set_profile(PeerProfile::new(node_id(5), "".into()));
    assert_eq!(chat.my_name(), "me");
}

#[test]
fn a_client_is_told_each_profile_once() {
    let mut chat = room();
    let mut list = PeerList::new();
    let mine = PeerProfile::new(node_id(5), "me".into());
    let other = PeerProfile::new(node_id(1), "other".into());
    chat.set_profile(mine.clone());
    chat.handle_profile_update(&mut list, &mine);
    chat.handle_profile_update(&mut list, &other);
    chat.handle_profile_update(&mut list, &mine);
    let said = chat.send("hi".into(), 7).message;
    assert_eq!(
        chat.welcome(),
        vec![
            ChatPacket::History { messages: vec![said] },
            ChatPacket::ProfileUpdate(mine.clone()),
            ChatPacket::ProfileUpdate(other.clone()),
            ChatPacket::ProfileUpdate(mine.clone()),
        ]
    );
    assert_eq!(chat.get_profiles(), vec![mine, other]);
}

#[test]
fn clients_come_and_go() {
    let mut chat = room();
    chat.add_client(&node_id(1), 11);
    assert_eq!(chat.client_connection(&node_id(1)), Some(11));
    chat.remove_client(&node_id(1));
    assert_eq!(chat.client_connection(&node_id(1)), None);
}

#[test]
fn chat_packets() {
    let hello = ChatPacket::Hello { node_id: node_id(1), name: "n".into(), chat_port: 5 };
    assert_eq!(greeting(hello), Some((node_id(1), "n".into(), 5)));
    assert_eq!(greeting(ChatPacket::Ping), None);
    assert_eq!(packet_step(ChatPacket::Message(said(1, 1))), PacketStep::Take(said(1, 1)));
    assert_eq!(packet_step(ChatPacket::Ping), PacketStep::AnswerPong);
    assert_eq!(packet_step(ChatPacket::Unknown), PacketStep::Ignore);
    let p = PeerProfile::new(node_id(1), "n".into());
    assert_eq!(packet_step(ChatPacket::ProfileUpdate(p.clone())), PacketStep::TakeProfile(p));
}

#[test]
fn stubs_become_clients() {
    let mut list = PeerList::new();
    let mut stub = test_peer("peer", 1, 7703);
    stub.id = NodeId("stub-10.0.0.1:7700".into());
    stub.ip = IpAddr::V4(10, 0, 0, 1);
    list.upsert(stub.clone());
    let r = enter_client(&mut list, stub.ip, &node_id(1), &"bob".into(), 9000);
    assert_eq!(r, ClientEntry::Upgraded(stub.id));
    let p = list.get(&node_id(1)).unwrap();
    assert_eq!((p.name.as_str(), p.chat_port, p.port), ("bob", 9000, 7700));
    let r = enter_client(&mut list, stub.ip, &node_id(1), &"bob".into(), 9000);
    assert_eq!(r, ClientEntry::Unchanged);
    let r = enter_client(&mut list, stub.ip, &node_id(1), &"rob".into(), 9000);
    assert_eq!(r, ClientEntry::Updated { changed: false });
    assert_eq!(list.get(&node_id(1)).unwrap().name, "rob");
}

#[test]
fn local_stubs_are_told_apart_by_port() {
    let mut list = PeerList::new();
    let mut stub = test_peer("peer", 1, 7703);
    stub.id = NodeId("stub-127.0.0.1:7700".into());
    list.upsert(stub.clone());
    let r = enter_client(&mut list, stub.ip, &node_id(1), &"bob".into(), 9000);
    assert_eq!(r, ClientEntry::Unchanged);
    let r = enter_client(&mut list, stub.ip, &node_id(1), &"bob".into(), 7702);
    assert_eq!(r, ClientEntry::Upgraded(stub.id));
}

#[test]
fn new_messages_carry_the_time() {
    let m = ChatMessage::new(node_id(1), "n".into(), "t".into(), 3);
    assert!(m.timestamp > 1_600_000_000);
    assert_eq!((m.seq, m.signature), (3, None));
}
