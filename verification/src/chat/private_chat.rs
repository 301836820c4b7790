//! Private messages: encrypted end to end, over a direct connection or a tunnel.

use vstd::prelude::*;
use vstd::utf8::*;

use crate::crypto::encrypt::EncryptedMessage;
use crate::crypto::error::{CryptoError, CryptoFailure};
use crate::crypto::keys::EncryptionKeypair;
use crate::crypto::primitives::{x25519_public, xchacha_takes};
use crate::node::identity::NodeId;
use crate::node::peer::PeerInfo;
use crate::util::bytes::array_of;
use crate::util::hex::{decode, encode, hex_text, lemma_unhex_hex, unhex};
use crate::util::table::Table;
use crate::util::text::{lossy_text, utf8_lossy};

verus! {

/// The longest packet, in bytes.
pub const MAX_PKT: usize = 65_536;

/// A packet between two nodes.
#[derive(Debug, Clone, PartialEq, Eq)]
pub enum DmPacket {
    /// A node says who it is, with its X25519 public key in hexadecimal.
    Hello { node_id: NodeId, name: String, enc_pubkey: String },
    /// An encrypted message.
    Message { message_id: String, encrypted_blob: String, timestamp: i64 },
    Ping,
    Pong,
    /// A packet of a later version.
    Unknown,
}

/// A message that has come and was decrypted.
#[derive(Debug, Clone, PartialEq, Eq)]
pub struct IncomingDm {
    pub from: NodeId,
    pub from_name: String,
    pub message_id: String,
    pub plaintext: String,
    pub timestamp: i64,
    /// The message as it came.
    pub encrypted_blob: String,
}

/// The wish to send a message.
#[derive(Debug, Clone, PartialEq, Eq)]
pub struct DmSendCmd {
    pub to: NodeId,
    /// Where the other node takes private messages.
    pub to_dm_addr: String,
    /// The other node's X25519 public key.
    pub their_enc_pubkey: [u8; 32],
    pub plaintext: String,
    pub message_id: String,
}

/// The key that a node tells, if it is one.
pub open spec fn told_key(text: Seq<char>) -> Option<Seq<u8>> {
    match unhex(text) {
        Ok(b) => if b.len() == 32 {
            Some(b)
        } else {
            None
        },
        Err(_) => None,
    }
}

/// The key that a node tells, if it is one.
fn read_told_key(text: &str) -> (r: Option<[u8; 32]>)
    ensures
        match r {
            Some(k) => told_key(text@) == Some(k@),
            None => told_key(text@) is None,
        },
{
    match decode(text) {
        Ok(b) => if b.len() == 32 {
            let k: [u8; 32] = array_of(b.as_slice());
            assert(k@ =~= b@);
            Some(k)
        } else {
            None
        },
        Err(_) => None,
    }
}

/// What we say about ourselves.
pub fn own_hello(my_peer: &PeerInfo, keypair: &EncryptionKeypair) -> (r: DmPacket)
    ensures
        r matches DmPacket::Hello { node_id, name, enc_pubkey } && {
            &&& node_id@ == my_peer.id@
            &&& name@ == my_peer.name@
            &&& enc_pubkey@ == hex_text(x25519_public(keypair.seed()))
            &&& told_key(enc_pubkey@) == Some(x25519_public(keypair.seed()))
        },
{
    let public: [u8; 32] = keypair.public_bytes();
    proof {
        lemma_unhex_hex(public@);
    }
    DmPacket::Hello {
        node_id: my_peer.id.clone(),
        name: my_peer.name.clone(),
        enc_pubkey: encode(&public),
    }
}

/// Who has connected to us, by the first packet: it has to say who it is, with a key
/// that can be read.
pub fn accept_hello(first: DmPacket) -> (r: Option<(NodeId, String, [u8; 32])>)
    ensures
        match r {
            Some((id, n, key)) => first matches DmPacket::Hello { node_id, name, enc_pubkey } && id
                == node_id && n == name && told_key(enc_pubkey@) == Some(key@),
            None => first matches DmPacket::Hello { node_id, name, enc_pubkey } ==> told_key(
                enc_pubkey@,
            ) is None,
        },
{
    match first {
        DmPacket::Hello { node_id, name, enc_pubkey } => match read_told_key(enc_pubkey.as_str()) {
            Some(key) => Some((node_id, name, key)),
            None => None,
        },
        _ => None,
    }
}

/// Whom we have connected to, by the answer: its name and its key. Where it tells no key
/// that can be read, the one that we had stays.
pub fn outbound_hello(reply: DmPacket, their_key: &[u8; 32]) -> (r: (String, [u8; 32]))
    ensures
        match reply {
            DmPacket::Hello { name, enc_pubkey, .. } => {
                &&& r.0 == name
                &&& r.1@ == (match told_key(enc_pubkey@) {
                    Some(k) => k,
                    None => their_key@,
                })
            },
            _ => r.0@ == Seq::<char>::empty() && r.1@ == their_key@,
        },
{
    match reply {
        DmPacket::Hello { node_id: _, name, enc_pubkey } => match read_told_key(
            enc_pubkey.as_str(),
        ) {
            Some(key) => (name, key),
            None => (name, *their_key),
        },
        _ => (String::new(), *their_key),
    }
}

/// The text that bytes are shown as. Of bytes that are no text the readable part is
/// shown.
pub open spec fn shown_text(bytes: Seq<u8>) -> Seq<char> {
    if valid_utf8(bytes) {
        decode_utf8(bytes)
    } else {
        utf8_lossy(bytes)
    }
}

/// The text that the owner of a key reads in a message, if the message can be decrypted.
pub open spec fn delivered_text(enc: EncryptedMessage, seed: Seq<u8>) -> Option<Seq<char>> {
    match enc.opening(seed) {
        Ok(bytes) => Some(shown_text(bytes)),
        Err(_) => None,
    }
}

/// Encrypts a message for its receiver. It fails just where the cipher cannot take so
/// long a text; else the owner of the receiver's key reads the text.
pub fn seal_dm(cmd: &DmSendCmd, keypair: &EncryptionKeypair) -> (r: Result<
    EncryptedMessage,
    CryptoError,
>)
    ensures
        match r {
            Ok(m) => {
                &&& xchacha_takes(encode_utf8(cmd.plaintext@).len())
                &&& m.nonce_fits()
                &&& m.sender_pubkey@ == hex_text(x25519_public(keypair.seed()))
                &&& forall|seed: Seq<u8>|
                    seed.len() == 32 && cmd.their_enc_pubkey@ == #[trigger] x25519_public(seed)
                        ==> m.opening(seed) == Ok::<Seq<u8>, CryptoFailure>(
                        encode_utf8(cmd.plaintext@),
                    ) && delivered_text(m, seed) == Some(cmd.plaintext@)
            },
            Err(e) => {
                &&& !xchacha_takes(encode_utf8(cmd.plaintext@).len())
                &&& e@ == CryptoFailure::Encryption("aead::Error"@)
            },
        },
{
    proof {
        encode_utf8_valid_utf8(cmd.plaintext@);
        encode_utf8_decode_utf8(cmd.plaintext@);
    }
    EncryptedMessage::encrypt(cmd.plaintext.as_str().as_bytes(), &cmd.their_enc_pubkey, keypair)
}

/// The packet that carries an encrypted message.
pub fn dm_packet(message_id: String, encrypted_blob: String, timestamp: i64) -> (r: DmPacket)
    ensures
        r == (DmPacket::Message { message_id, encrypted_blob, timestamp }),
{
    DmPacket::Message { message_id, encrypted_blob, timestamp }
}

/// Decrypts a message that has come. One that cannot be decrypted is dropped. Of bytes
/// that are no text the readable part is shown.
pub fn open_dm(
    enc: &EncryptedMessage,
    keypair: &EncryptionKeypair,
    from: &NodeId,
    from_name: &String,
    message_id: String,
    encrypted_blob: String,
    timestamp: i64,
) -> (r: Option<IncomingDm>)
    requires
        enc.nonce_fits(),
    ensures
        match delivered_text(*enc, keypair.seed()) {
            Some(text) => r matches Some(dm) && {
                &&& dm.from == *from
                &&& dm.from_name == *from_name
                &&& dm.message_id == message_id
                &&& dm.plaintext@ == text
                &&& dm.timestamp == timestamp
                &&& dm.encrypted_blob == encrypted_blob
            },
            None => r is None,
        },
{
    match enc.decrypt(keypair) {
        Err(_) => None,
        Ok(bytes) => Some(
            IncomingDm {
                from: from.clone(),
                from_name: from_name.clone(),
                message_id,
                plaintext: lossy_text(bytes.as_slice()),
                timestamp,
                encrypted_blob,
            },
        ),
    }
}

/// What is done about a packet of a connection that stands.
#[derive(Debug, PartialEq, Eq)]
pub enum DmStep {
    Take { message_id: String, encrypted_blob: String, timestamp: i64 },
    Ignore,
}

/// What is done about a packet of a connection that stands: messages are taken, nothing
/// else.
pub fn dm_step(packet: DmPacket) -> (r: DmStep)
    ensures
        r == (match packet {
            DmPacket::Message { message_id, encrypted_blob, timestamp } => DmStep::Take {
                message_id,
                encrypted_blob,
                timestamp,
            },
            _ => DmStep::Ignore,
        }),
{
    match packet {
        DmPacket::Message { message_id, encrypted_blob, timestamp } => DmStep::Take {
            message_id,
            encrypted_blob,
            timestamp,
        },
        _ => DmStep::Ignore,
    }
}

/// What is known of private connections.
#[verifier::ext_equal]
pub struct PrivateView {
    /// The open connections by node.
    pub connections: Map<Seq<char>, u64>,
    /// The keys and names that nodes have told.
    pub known: Map<Seq<char>, ([u8; 32], String)>,
}

/// The private connections and the keys of nodes.
pub struct PrivateChat {
    connections: Table<u64>,
    known: Table<([u8; 32], String)>,
}

impl View for PrivateChat {
    type V = PrivateView;

    closed spec fn view(&self) -> PrivateView {
        PrivateView { connections: self.connections@, known: self.known@ }
    }
}

/// How a message gets to its receiver.
#[derive(Debug, Clone, Copy, PartialEq, Eq, Structural)]
pub enum DmRoute {
    /// Over the open connection with this number.
    Existing(u64),
    /// Over a new connection.
    Dial,
}

impl PrivateChat {
    /// No connections, and no keys known.
    pub fn new() -> (r: PrivateChat)
        ensures
            r@ == (PrivateView { connections: Map::empty(), known: Map::empty() }),
    {
        PrivateChat { connections: Table::new(), known: Table::new() }
    }

    /// Notes the key and the name that a node has told.
    pub fn learned(&mut self, node: &NodeId, key: [u8; 32], name: String)
        ensures
            final(self)@ == (PrivateView {
                known: old(self)@.known.insert(node@, (key, name)),
                ..old(self)@
            }),
    {
        let ghost v = self@;
        self.known.insert(node.0.clone(), (key, name));
        assert(self@ =~= (PrivateView { known: v.known.insert(node@, (key, name)), ..v }));
    }

    /// Notes the connection of a node.
    pub fn connected(&mut self, node: &NodeId, connection: u64)
        ensures
            final(self)@ == (PrivateView {
                connections: old(self)@.connections.insert(node@, connection),
                ..old(self)@
            }),
    {
        let ghost v = self@;
        self.connections.insert(node.0.clone(), connection);
        assert(self@ =~= (PrivateView {
            connections: v.connections.insert(node@, connection),
            ..v
        }));
    }

    /// Notes that the connection of a node is gone.
    pub fn disconnected(&mut self, node: &NodeId)
        ensures
            final(self)@ == (PrivateView {
                connections: old(self)@.connections.remove(node@),
                ..old(self)@
            }),
    {
        let ghost v = self@;
        self.connections.remove(node.as_str());
        assert(self@ =~= (PrivateView { connections: v.connections.remove(node@), ..v }));
    }

    /// The key that a node has told.
    pub fn known_pubkey(&self, id: &NodeId) -> (r: Option<[u8; 32]>)
        ensures
            r == (if self@.known.contains_key(id@) {
                Some(self@.known[id@].0)
            } else {
                None
            }),
    {
        match self.known.get(id.as_str()) {
            Some(e) => Some(e.0),
            None => None,
        }
    }

    /// How a message to a node is tried first.
    pub fn route(&self, to: &NodeId) -> (r: DmRoute)
        ensures
            r == (if self@.connections.contains_key(to@) {
                DmRoute::Existing(self@.connections[to@])
            } else {
                DmRoute::Dial
            }),
    {
        match self.connections.get(to.as_str()) {
            Some(c) => DmRoute::Existing(*c),
            None => DmRoute::Dial,
        }
    }

    /// What follows when a message was tried over an open connection. One that was not
    /// written means that the connection is dead: it is forgotten, and a new one is
    /// dialled.
    pub fn after_write(&mut self, to: &NodeId, written: bool) -> (delivered: bool)
        ensures
            delivered == written,
            final(self)@ == (if written {
                old(self)@
            } else {
                PrivateView { connections: old(self)@.connections.remove(to@), ..old(self)@ }
            }),
    {
        if !written {
            self.disconnected(to);
        }
        written
    }
}

/// A text arrives as it was written: a message that opens to the bytes of a text is
/// shown as that text.
pub proof fn law_text_arrives_as_written(enc: EncryptedMessage, seed: Seq<u8>, text: Seq<char>)
    requires
        enc.opening(seed) == Ok::<Seq<u8>, CryptoFailure>(encode_utf8(text)),
    ensures
        delivered_text(enc, seed) == Some(text),
{
    encode_utf8_valid_utf8(text);
    encode_utf8_decode_utf8(text);
}

/// A key that a node tells is taken just where it stands for 32 bytes.
pub proof fn law_told_keys_have_32_bytes(text: Seq<char>, key: Seq<u8>)
    ensures
        told_key(text) == Some(key) <==> (unhex(text) matches Ok(b) && b == key && b.len() == 32),
        told_key(text) is None <==> !(unhex(text) matches Ok(b) && b.len() == 32),
{
}

/// Whoever can open a message reads the text that was put into it, whatever the text is; who
/// cannot reads nothing.
pub proof fn law_text_is_delivered(m: EncryptedMessage, seed: Seq<u8>, text: Seq<char>)
    ensures
        m.opening(seed) == Ok::<Seq<u8>, CryptoFailure>(encode_utf8(text)) ==> delivered_text(m, seed)
            == Some(text),
        m.opening(seed) is Err <==> delivered_text(m, seed) is None,
        m.opening(seed) matches Ok(b) ==> !valid_utf8(b) ==> delivered_text(m, seed) == Some(
            utf8_lossy(b),
        ),
{
    encode_utf8_valid_utf8(text);
    encode_utf8_decode_utf8(text);
}

/// Packets have up to 64 kibibytes.
pub proof fn law_longest_private_packet()
    ensures
        MAX_PKT == 0x1_0000,
{
}

} // verus!
