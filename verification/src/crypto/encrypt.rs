//! End-to-end encryption of private messages: an X25519 agreement, a BLAKE3 key
//! derivation, XChaCha20-Poly1305.

use vstd::prelude::*;

use crate::crypto::aead::{open_bytes, opened_bytes, seal_bytes};
use crate::crypto::error::{CryptoError, CryptoFailure};
use crate::crypto::keys::EncryptionKeypair;
use crate::crypto::primitives::{
    blake3_derive, blake3_derived, random_bytes, x25519_public, x25519_shared, xchacha_sealed,
    xchacha_takes,
};
use crate::util::bytes::array_of;
use crate::util::hex::{decode, encode, hex_text, lemma_unhex_hex, unhex};

verus! {

/// An encrypted message as it travels.
#[derive(Debug, Clone, PartialEq, Eq)]
pub struct EncryptedMessage {
    /// The nonce, 24 bytes in hexadecimal.
    pub nonce: String,
    /// The ciphertext with its tag, in hexadecimal.
    pub ciphertext: String,
    /// The sender's X25519 public key in hexadecimal.
    pub sender_pubkey: String,
}

/// The key that the owner of `secret` and the owner of `public` use with each other.
pub open spec fn message_key(secret: Seq<u8>, public: Seq<u8>) -> Seq<u8> {
    blake3_derived("void-connect/e2e-chat/v1"@, x25519_shared(secret, public))
}

/// The key that our pair and the owner of a public key use with each other.
fn derive_symmetric_key(our: &EncryptionKeypair, their_public: &[u8; 32]) -> (r: [u8; 32])
    ensures
        r@ == message_key(our.seed(), their_public@),
        forall|other: Seq<u8>|
            other.len() == 32 && their_public@ == #[trigger] x25519_public(other) ==> r@
                == message_key(other, x25519_public(our.seed())),
{
    let shared: [u8; 32] = our.diffie_hellman(their_public);
    blake3_derive("void-connect/e2e-chat/v1", &shared)
}

impl EncryptedMessage {
    /// Whether the nonce has the length that the cipher takes, in a message whose
    /// sender and nonce can be read.
    pub open spec fn nonce_fits(&self) -> bool {
        match (unhex(self.sender_pubkey@), unhex(self.nonce@)) {
            (Ok(sender), Ok(nonce)) => sender.len() == 32 ==> nonce.len() == 24,
            _ => true,
        }
    }

    /// What the owner of `secret` reads in the message.
    pub open spec fn opening(&self, secret: Seq<u8>) -> Result<Seq<u8>, CryptoFailure> {
        match unhex(self.sender_pubkey@) {
            Err(e) => Err(CryptoFailure::Hex(e)),
            Ok(sender) => if sender.len() != 32 {
                Err(CryptoFailure::Decryption)
            } else {
                match (unhex(self.nonce@), unhex(self.ciphertext@)) {
                    (Err(e), _) => Err(CryptoFailure::Hex(e)),
                    (_, Err(e)) => Err(CryptoFailure::Hex(e)),
                    (Ok(nonce), Ok(sealed)) => match opened_bytes(
                        message_key(secret, sender),
                        nonce,
                        sealed,
                    ) {
                        Some(p) => Ok(p),
                        None => Err(CryptoFailure::Decryption),
                    },
                }
            },
        }
    }

    /// Encrypts for the owner of `recipient_pub` with a fresh random nonce. It fails
    /// just where the cipher cannot take so long a plaintext; else the owner of the
    /// recipient's key reads the plaintext.
    pub fn encrypt(
        plaintext: &[u8],
        recipient_pub: &[u8; 32],
        our_keypair: &EncryptionKeypair,
    ) -> (r: Result<EncryptedMessage, CryptoError>)
        ensures
            match r {
                Ok(m) => {
                    &&& xchacha_takes(plaintext@.len())
                    &&& m.nonce_fits()
                    &&& m.sender_pubkey@ == hex_text(x25519_public(our_keypair.seed()))
                    &&& forall|seed: Seq<u8>|
                        seed.len() == 32 && recipient_pub@ == #[trigger] x25519_public(seed)
                            ==> m.opening(seed) == Ok::<Seq<u8>, CryptoFailure>(plaintext@)
                },
                Err(e) => {
                    &&& !xchacha_takes(plaintext@.len())
                    &&& e@ == CryptoFailure::Encryption("aead::Error"@)
                },
            },
    {
        let nonce: [u8; 24] = random_bytes();
        EncryptedMessage::encrypt_with_nonce(plaintext, recipient_pub, our_keypair, &nonce)
    }

    /// Encrypts for the owner of `recipient_pub` with the given nonce.
    pub fn encrypt_with_nonce(
        plaintext: &[u8],
        recipient_pub: &[u8; 32],
        our_keypair: &EncryptionKeypair,
        nonce: &[u8; 24],
    ) -> (r: Result<EncryptedMessage, CryptoError>)
        ensures
            match r {
                Ok(m) => {
                    &&& xchacha_takes(plaintext@.len())
                    &&& m.nonce_fits()
                    &&& m.nonce@ == hex_text(nonce@)
                    &&& m.ciphertext@ == hex_text(
                        xchacha_sealed(
                            message_key(our_keypair.seed(), recipient_pub@),
                            nonce@,
                            plaintext@,
                        ),
                    )
                    &&& m.sender_pubkey@ == hex_text(x25519_public(our_keypair.seed()))
                    &&& forall|seed: Seq<u8>|
                        seed.len() == 32 && recipient_pub@ == #[trigger] x25519_public(seed)
                            ==> m.opening(seed) == Ok::<Seq<u8>, CryptoFailure>(plaintext@)
                },
                Err(e) => {
                    &&& !xchacha_takes(plaintext@.len())
                    &&& e@ == CryptoFailure::Encryption("aead::Error"@)
                },
            },
    {
        let key: [u8; 32] = derive_symmetric_key(our_keypair, recipient_pub);
        let public: [u8; 32] = our_keypair.public_bytes();
        match seal_bytes(&key, nonce, plaintext) {
            Err(m) => Err(CryptoError::Encryption(m)),
            Ok(sealed) => {
                proof {
                    lemma_unhex_hex(nonce@);
                    lemma_unhex_hex(sealed@);
                    lemma_unhex_hex(public@);
                }
                Ok(
                    EncryptedMessage {
                        nonce: encode(nonce),
                        ciphertext: encode(sealed.as_slice()),
                        sender_pubkey: encode(&public),
                    },
                )
            },
        }
    }

    /// Whether the nonce has the length that the cipher takes, in a message whose
    /// sender and nonce can be read.
    pub fn has_fitting_nonce(&self) -> (r: bool)
        ensures
            r == self.nonce_fits(),
    {
        match (decode(self.sender_pubkey.as_str()), decode(self.nonce.as_str())) {
            (Ok(sender), Ok(nonce)) => sender.len() != 32 || nonce.len() == 24,
            _ => true,
        }
    }

    /// Decrypts the message for the owner of `our_keypair`.
    pub fn decrypt(&self, our_keypair: &EncryptionKeypair) -> (r: Result<Vec<u8>, CryptoError>)
        requires
            self.nonce_fits(),
        ensures
            match r {
                Ok(p) => self.opening(our_keypair.seed()) == Ok::<Seq<u8>, CryptoFailure>(p@),
                Err(e) => self.opening(our_keypair.seed()) == Err::<Seq<u8>, CryptoFailure>(e@),
            },
    {
        let sender: Vec<u8> = match decode(self.sender_pubkey.as_str()) {
            Ok(b) => b,
            Err(e) => {
                return Err(CryptoError::Hex(e));
            },
        };
        if sender.len() != 32 {
            return Err(CryptoError::Decryption);
        }
        let sender_key: [u8; 32] = array_of(sender.as_slice());
        assert(sender_key@ =~= sender@);
        let key: [u8; 32] = derive_symmetric_key(our_keypair, &sender_key);
        let nonce_bytes: Vec<u8> = match decode(self.nonce.as_str()) {
            Ok(b) => b,
            Err(e) => {
                return Err(CryptoError::Hex(e));
            },
        };
        let nonce: [u8; 24] = array_of(nonce_bytes.as_slice());
        assert(nonce@ =~= nonce_bytes@);
        match decode(self.ciphertext.as_str()) {
            Err(e) => Err(CryptoError::Hex(e)),
            Ok(sealed) => opened_or_refused(open_bytes(&key, &nonce, sealed.as_slice())),
        }
    }
}

/// A message that its receiver can read gives a third one what the cipher opens under the
/// third one's key, and is refused by `Decryption` just where the cipher refuses that key.
pub proof fn law_third_one_is_refused_by_the_cipher(m: EncryptedMessage, bob: Seq<u8>, eve: Seq<u8>)
    requires
        m.opening(bob) is Ok,
    ensures
        match (unhex(m.sender_pubkey@), unhex(m.nonce@), unhex(m.ciphertext@)) {
            (Ok(sender), Ok(nonce), Ok(sealed)) => m.opening(eve) == (match opened_bytes(
                message_key(eve, sender),
                nonce,
                sealed,
            ) {
                Some(p) => Ok::<Seq<u8>, CryptoFailure>(p),
                None => Err(CryptoFailure::Decryption),
            }),
            _ => false,
        },
{
}

/// What is read of a message that the cipher has opened or refused.
pub fn opened_or_refused(opened: Option<Vec<u8>>) -> (r: Result<Vec<u8>, CryptoError>)
    ensures
        match opened {
            Some(p) => r == Ok::<Vec<u8>, CryptoError>(p),
            None => r matches Err(CryptoError::Decryption),
        },
{
    match opened {
        Some(p) => Ok(p),
        None => Err(CryptoError::Decryption),
    }
}

/// What the owner of a secret reads in a message. The sender's key is read first, then the
/// nonce, then the ciphertext, and the first that is no hexadecimal is the error; a sender's
/// key of another length than 32 bytes, and what the cipher does not open, is refused as
/// `Decryption`; everything else is read as the cipher opens it under the key of the two.
pub proof fn law_message_is_read(m: EncryptedMessage, secret: Seq<u8>)
    ensures
        unhex(m.sender_pubkey@) matches Err(e) ==> m.opening(secret) == Err::<
            Seq<u8>,
            CryptoFailure,
        >(CryptoFailure::Hex(e)),
        unhex(m.sender_pubkey@) matches Ok(sender) ==> {
            &&& sender.len() != 32 ==> m.opening(secret) == Err::<Seq<u8>, CryptoFailure>(
                CryptoFailure::Decryption,
            )
            &&& sender.len() == 32 ==> match (unhex(m.nonce@), unhex(m.ciphertext@)) {
                (Ok(nonce), Ok(sealed)) => {
                    let key = blake3_derived(
                        "void-connect/e2e-chat/v1"@,
                        x25519_shared(secret, sender),
                    );
                    &&& opened_bytes(key, nonce, sealed) matches Some(p) ==> m.opening(secret)
                        == Ok::<Seq<u8>, CryptoFailure>(p)
                    &&& opened_bytes(key, nonce, sealed) is None ==> m.opening(secret) == Err::<
                        Seq<u8>,
                        CryptoFailure,
                    >(CryptoFailure::Decryption)
                },
                (Err(e), _) => m.opening(secret) == Err::<Seq<u8>, CryptoFailure>(
                    CryptoFailure::Hex(e),
                ),
                (Ok(_), Err(e)) => m.opening(secret) == Err::<Seq<u8>, CryptoFailure>(
                    CryptoFailure::Hex(e),
                ),
            }
        },
{
}

/// A nonce fits wherever it has 24 bytes, and wherever the sender's key or the nonce cannot
/// be read, or the key has not 32 bytes; nowhere else.
pub proof fn law_nonces_that_fit(m: EncryptedMessage)
    ensures
        m.nonce_fits() <==> !(unhex(m.sender_pubkey@) matches Ok(s) && s.len() == 32) || !(unhex(
            m.nonce@,
        ) matches Ok(n) && n.len() != 24),
{
}

} // verus!
