//! Key pairs: Ed25519 for signatures, X25519 for agreeing on keys.

use vstd::prelude::*;

use crate::crypto::error::{CryptoError, CryptoFailure};
use crate::crypto::primitives::{
    ed25519_decodes, ed25519_public, ed25519_public_key, ed25519_sign, ed25519_signature,
    ed25519_holds, random_bytes, x25519_agree, x25519_public, x25519_public_key, x25519_shared,
};
use crate::util::bytes::array_of;
use crate::util::hex::{decode, encode, hex_text, lemma_unhex_hex, unhex};

verus! {

/// An Ed25519 key pair: signs messages, profiles and name records.
pub struct SigningKeypair {
    secret: [u8; 32],
    public: [u8; 32],
}

impl SigningKeypair {
    /// The seed of the pair.
    pub closed spec fn seed(&self) -> Seq<u8> {
        self.secret@
    }

    /// The public half of the pair.
    pub closed spec fn public_half(&self) -> Seq<u8> {
        self.public@
    }

    #[verifier::type_invariant]
    spec fn pair_belongs_together(&self) -> bool {
        &&& self.public@ == ed25519_public(self.secret@)
        &&& ed25519_decodes(self.public@)
    }

    /// A new random pair. Whatever the seed is, the public half belongs to it, and it
    /// decodes.
    pub fn generate() -> (r: SigningKeypair)
        ensures
            r.seed().len() == 32,
            r.public_half() == ed25519_public(r.seed()),
            ed25519_decodes(r.public_half()),
    {
        let seed: [u8; 32] = random_bytes();
        let public: [u8; 32] = ed25519_public_key(&seed);
        SigningKeypair { secret: seed, public }
    }

    /// The pair of a seed: always the same one. It never fails.
    pub fn from_seed(seed: &[u8; 32]) -> (r: Result<SigningKeypair, CryptoError>)
        ensures
            r matches Ok(k) && {
                &&& k.seed() == seed@
                &&& k.public_half() == ed25519_public(seed@)
                &&& ed25519_decodes(k.public_half())
            },
    {
        let public: [u8; 32] = ed25519_public_key(seed);
        Ok(SigningKeypair { secret: *seed, public })
    }

    /// The secret half, for safe keeping only.
    pub fn secret_bytes(&self) -> (r: [u8; 32])
        ensures
            r@ == self.seed(),
    {
        self.secret
    }

    /// The public half, by which peers know the account.
    pub fn public_bytes(&self) -> (r: [u8; 32])
        ensures
            r@ == self.public_half(),
            self.seed().len() == 32,
            r@ == ed25519_public(self.seed()),
            ed25519_decodes(r@),
    {
        proof {
            use_type_invariant(self);
        }
        self.public
    }

    /// The signature of a message.
    pub fn sign(&self, message: &[u8]) -> (r: [u8; 64])
        ensures
            r@ == ed25519_signature(self.seed(), message@),
            ed25519_holds(ed25519_public(self.seed()), message@, r@),
    {
        ed25519_sign(&self.secret, message)
    }
}

/// An X25519 key pair: agrees on keys for end-to-end encryption.
pub struct EncryptionKeypair {
    secret: [u8; 32],
    public: [u8; 32],
}

impl EncryptionKeypair {
    /// The secret of the pair.
    pub closed spec fn seed(&self) -> Seq<u8> {
        self.secret@
    }

    /// The public half of the pair.
    pub closed spec fn public_half(&self) -> Seq<u8> {
        self.public@
    }

    #[verifier::type_invariant]
    spec fn pair_belongs_together(&self) -> bool {
        self.public@ == x25519_public(self.secret@)
    }

    /// A new random pair. Whatever the secret is, the public half belongs to it.
    pub fn generate() -> (r: EncryptionKeypair)
        ensures
            r.seed().len() == 32,
            r.public_half() == x25519_public(r.seed()),
    {
        let seed: [u8; 32] = random_bytes();
        EncryptionKeypair::from_seed(&seed)
    }

    /// The pair of a seed: always the same one.
    pub fn from_seed(seed: &[u8; 32]) -> (r: EncryptionKeypair)
        ensures
            r.seed() == seed@,
            r.public_half() == x25519_public(seed@),
    {
        let public: [u8; 32] = x25519_public_key(seed);
        EncryptionKeypair { secret: *seed, public }
    }

    /// The secret shared with the owner of a public key. That owner gets the same
    /// one from this pair's public key.
    pub fn diffie_hellman(&self, their_public: &[u8; 32]) -> (r: [u8; 32])
        ensures
            r@ == x25519_shared(self.seed(), their_public@),
            forall|other: Seq<u8>|
                other.len() == 32 && their_public@ == #[trigger] x25519_public(other) ==> r@
                    == x25519_shared(other, x25519_public(self.seed())),
    {
        x25519_agree(&self.secret, their_public)
    }

    /// The public half.
    pub fn public_bytes(&self) -> (r: [u8; 32])
        ensures
            r@ == self.public_half(),
            self.seed().len() == 32,
            r@ == x25519_public(self.seed()),
    {
        proof {
            use_type_invariant(self);
        }
        self.public
    }
}

/// The public keys of a node, in hexadecimal, as peers exchange them.
#[derive(Debug, Clone, PartialEq, Eq)]
pub struct PublicKeys {
    /// The Ed25519 key, which is also the account's name.
    pub signing: String,
    /// The X25519 key.
    pub encryption: String,
}

/// The 32 bytes that a hexadecimal text stands for.
pub open spec fn key_bytes(text: Seq<char>, wrong_length: Seq<char>) -> Result<
    Seq<u8>,
    CryptoFailure,
> {
    match unhex(text) {
        Err(e) => Err(CryptoFailure::Hex(e)),
        Ok(b) => if b.len() == 32 {
            Ok(b)
        } else {
            Err(CryptoFailure::KeyGeneration(wrong_length))
        },
    }
}

/// Reads a key of 32 bytes from hexadecimal.
fn read_key(text: &str, wrong_length: &str) -> (r: Result<[u8; 32], CryptoError>)
    ensures
        match r {
            Ok(k) => key_bytes(text@, wrong_length@) == Ok::<Seq<u8>, CryptoFailure>(k@),
            Err(e) => key_bytes(text@, wrong_length@) == Err::<Seq<u8>, CryptoFailure>(e@),
        },
{
    match decode(text) {
        Err(e) => Err(CryptoError::Hex(e)),
        Ok(b) => if b.len() == 32 {
            let k: [u8; 32] = array_of(b.as_slice());
            assert(k@ =~= b@);
            Ok(k)
        } else {
            Err(CryptoError::KeyGeneration(wrong_length.to_owned()))
        },
    }
}

impl PublicKeys {
    /// The keys, written in hexadecimal.
    pub fn new(signing: &[u8; 32], encryption: &[u8; 32]) -> (r: PublicKeys)
        ensures
            r.signing@ == hex_text(signing@),
            r.encryption@ == hex_text(encryption@),
    {
        PublicKeys { signing: encode(signing), encryption: encode(encryption) }
    }

    /// The signing key.
    pub fn signing_bytes(&self) -> (r: Result<[u8; 32], CryptoError>)
        ensures
            match r {
                Ok(k) => key_bytes(self.signing@, "Неверная длина signing key"@) == Ok::<
                    Seq<u8>,
                    CryptoFailure,
                >(k@),
                Err(e) => key_bytes(self.signing@, "Неверная длина signing key"@) == Err::<
                    Seq<u8>,
                    CryptoFailure,
                >(e@),
            },
    {
        read_key(self.signing.as_str(), "Неверная длина signing key")
    }

    /// The encryption key.
    pub fn encryption_bytes(&self) -> (r: Result<[u8; 32], CryptoError>)
        ensures
            match r {
                Ok(k) => key_bytes(self.encryption@, "Неверная длина encryption key"@) == Ok::<
                    Seq<u8>,
                    CryptoFailure,
                >(k@),
                Err(e) => key_bytes(self.encryption@, "Неверная длина encryption key"@) == Err::<
                    Seq<u8>,
                    CryptoFailure,
                >(e@),
            },
    {
        read_key(self.encryption.as_str(), "Неверная длина encryption key")
    }
}

/// Public keys that were written in hexadecimal read back as the same bytes.
pub proof fn law_public_keys_read_back(key: Seq<u8>, wrong_length: Seq<char>)
    requires
        key.len() == 32,
    ensures
        key_bytes(hex_text(key), wrong_length) == Ok::<Seq<u8>, CryptoFailure>(key),
{
    lemma_unhex_hex(key);
}

/// A key is read just where its text stands for 32 bytes, and is then these bytes. What is no
/// hexadecimal is refused as that, and any other length for its length.
pub proof fn law_keys_have_32_bytes(text: Seq<char>, wrong_length: Seq<char>)
    ensures
        match unhex(text) {
            Ok(b) => if b.len() == 32 {
                key_bytes(text, wrong_length) == Ok::<Seq<u8>, CryptoFailure>(b)
            } else {
                key_bytes(text, wrong_length) == Err::<Seq<u8>, CryptoFailure>(
                    CryptoFailure::KeyGeneration(wrong_length),
                )
            },
            Err(e) => key_bytes(text, wrong_length) == Err::<Seq<u8>, CryptoFailure>(
                CryptoFailure::Hex(e),
            ),
        },
{
}

} // verus!
