//! Signed messages.

use vstd::prelude::*;

use crate::crypto::error::{CryptoError, CryptoFailure};
use crate::crypto::keys::SigningKeypair;
use crate::crypto::primitives::{
    ed25519_decode, ed25519_decodes, ed25519_holds, ed25519_public, ed25519_signature,
    ed25519_verify,
};
use crate::util::bytes::array_of;
use crate::util::hex::{decode, encode, hex_text, lemma_unhex_hex, unhex};

verus! {

/// A payload with its signature and the public key of the signer.
#[derive(Debug, Clone, PartialEq, Eq)]
pub struct SignedMessage {
    /// The signed data.
    pub payload: Vec<u8>,
    /// The Ed25519 signature in hexadecimal.
    pub signature: String,
    /// The signer's public key in hexadecimal: the signer's account.
    pub signer: String,
}

/// What the check of a signature comes to once its parts are known.
pub open spec fn conclusion(decodes: bool, holds: bool) -> Result<(), CryptoFailure> {
    if !decodes {
        Err(CryptoFailure::KeyGeneration("signature error: Cannot decompress Edwards point"@))
    } else if !holds {
        Err(CryptoFailure::InvalidSignature)
    } else {
        Ok(())
    }
}

/// What the check of a signature comes to: the signature is read first, the signer's
/// key next, and only then is the one held against the other.
pub open spec fn verdict(payload: Seq<u8>, signature: Seq<char>, signer: Seq<char>) -> Result<
    (),
    CryptoFailure,
> {
    match unhex(signature) {
        Err(e) => Err(CryptoFailure::Hex(e)),
        Ok(sig) => if sig.len() != 64 {
            Err(CryptoFailure::Signing("Неверная длина подписи"@))
        } else {
            match unhex(signer) {
                Err(e) => Err(CryptoFailure::Hex(e)),
                Ok(key) => if key.len() != 32 {
                    Err(CryptoFailure::KeyGeneration("Неверная длина ключа"@))
                } else {
                    conclusion(ed25519_decodes(key), ed25519_holds(key, payload, sig))
                },
            }
        },
    }
}

impl SignedMessage {
    /// What the check of this message's signature comes to.
    pub open spec fn verdict(&self) -> Result<(), CryptoFailure> {
        verdict(self.payload@, self.signature@, self.signer@)
    }

    /// Signs a payload. It never fails, and the result passes the check.
    pub fn sign(payload: Vec<u8>, keypair: &SigningKeypair) -> (r: Result<
        SignedMessage,
        CryptoError,
    >)
        ensures
            r matches Ok(m) && {
                &&& m.payload@ == payload@
                &&& m.signature@ == hex_text(ed25519_signature(keypair.seed(), payload@))
                &&& m.signer@ == hex_text(ed25519_public(keypair.seed()))
                &&& m.verdict() == Ok::<(), CryptoFailure>(())
            },
    {
        let signature: [u8; 64] = keypair.sign(payload.as_slice());
        let public: [u8; 32] = keypair.public_bytes();
        proof {
            lemma_unhex_hex(signature@);
            lemma_unhex_hex(public@);
        }
        Ok(SignedMessage { payload, signature: encode(&signature), signer: encode(&public) })
    }

    /// The bytes of the signature.
    pub fn signature_bytes(&self) -> (r: Result<[u8; 64], CryptoError>)
        ensures
            match (r, unhex(self.signature@)) {
                (Ok(s), Ok(b)) => s@ == b,
                (Err(CryptoError::Hex(e)), Err(f)) => e == f,
                (Err(CryptoError::Signing(m)), Ok(b)) => b.len() != 64 && m@
                    == "Неверная длина подписи"@,
                _ => false,
            },
    {
        match decode(self.signature.as_str()) {
            Err(e) => Err(CryptoError::Hex(e)),
            Ok(b) => if b.len() == 64 {
                let s: [u8; 64] = array_of(b.as_slice());
                assert(s@ =~= b@);
                Ok(s)
            } else {
                Err(CryptoError::Signing("Неверная длина подписи".to_owned()))
            },
        }
    }

    /// The bytes of the signer's key.
    pub fn signer_bytes(&self) -> (r: Result<[u8; 32], CryptoError>)
        ensures
            match (r, unhex(self.signer@)) {
                (Ok(s), Ok(b)) => s@ == b,
                (Err(CryptoError::Hex(e)), Err(f)) => e == f,
                (Err(CryptoError::KeyGeneration(m)), Ok(b)) => b.len() != 32 && m@
                    == "Неверная длина ключа"@,
                _ => false,
            },
    {
        match decode(self.signer.as_str()) {
            Err(e) => Err(CryptoError::Hex(e)),
            Ok(b) => if b.len() == 32 {
                let s: [u8; 32] = array_of(b.as_slice());
                assert(s@ =~= b@);
                Ok(s)
            } else {
                Err(CryptoError::KeyGeneration("Неверная длина ключа".to_owned()))
            },
        }
    }

    /// Checks the signature.
    pub fn verify(&self) -> (r: Result<(), CryptoError>)
        ensures
            match r {
                Ok(()) => self.verdict() is Ok,
                Err(e) => self.verdict() == Err::<(), CryptoFailure>(e@),
            },
    {
        let signature: [u8; 64] = match self.signature_bytes() {
            Ok(s) => s,
            Err(e) => {
                return Err(e);
            },
        };
        let key: [u8; 32] = match self.signer_bytes() {
            Ok(k) => k,
            Err(e) => {
                return Err(e);
            },
        };
        match ed25519_decode(&key) {
            Err(m) => Err(CryptoError::KeyGeneration(m)),
            Ok(()) => conclude(ed25519_verify(&key, self.payload.as_slice(), &signature)),
        }
    }

    /// Checks the signature and gives out the payload.
    pub fn verify_and_payload(&self) -> (r: Result<&[u8], CryptoError>)
        ensures
            match r {
                Ok(p) => self.verdict() is Ok && p@ == self.payload@,
                Err(e) => self.verdict() == Err::<(), CryptoFailure>(e@),
            },
    {
        match self.verify() {
            Ok(()) => Ok(self.payload.as_slice()),
            Err(e) => Err(e),
        }
    }
}

/// A signed message with another payload, or with the key of another signer, passes the
/// check just where the signature holds of that payload or under that key too. Where it
/// does not, the answer is `InvalidSignature`, as long as the other key is one.
pub proof fn law_changed_message_is_refused_by_the_signature(
    m: SignedMessage,
    payload: Seq<u8>,
    key: Seq<u8>,
)
    requires
        m.verdict() is Ok,
        key.len() == 32,
    ensures
        match (unhex(m.signature@), unhex(m.signer@)) {
            (Ok(sig), Ok(signer)) => {
                &&& verdict(payload, m.signature@, m.signer@) == (if ed25519_holds(
                    signer,
                    payload,
                    sig,
                ) {
                    Ok::<(), CryptoFailure>(())
                } else {
                    Err(CryptoFailure::InvalidSignature)
                })
                &&& ed25519_decodes(key) ==> verdict(m.payload@, m.signature@, hex_text(key)) == (
                if ed25519_holds(key, m.payload@, sig) {
                    Ok::<(), CryptoFailure>(())
                } else {
                    Err(CryptoFailure::InvalidSignature)
                })
                &&& !ed25519_decodes(key) ==> verdict(m.payload@, m.signature@, hex_text(key)) is Err
            },
            _ => false,
        },
{
    lemma_unhex_hex(key);
}

/// What the check says of a signature that was held against a key that decodes.
pub fn conclude(holds: bool) -> (r: Result<(), CryptoError>)
    ensures
        match r {
            Ok(()) => conclusion(true, holds) is Ok,
            Err(e) => conclusion(true, holds) == Err::<(), CryptoFailure>(e@),
        },
{
    if holds {
        Ok(())
    } else {
        Err(CryptoError::InvalidSignature)
    }
}

/// A message passes the check just where its signature stands for 64 bytes, its signer for
/// a key of 32 bytes that decodes, and the signature holds of the payload under that key.
pub proof fn law_what_passes_the_check(payload: Seq<u8>, signature: Seq<char>, signer: Seq<char>)
    ensures
        verdict(payload, signature, signer) is Ok <==> {
            &&& unhex(signature) is Ok
            &&& unhex(signature)->Ok_0.len() == 64
            &&& unhex(signer) is Ok
            &&& unhex(signer)->Ok_0.len() == 32
            &&& ed25519_decodes(unhex(signer)->Ok_0)
            &&& ed25519_holds(unhex(signer)->Ok_0, payload, unhex(signature)->Ok_0)
        },
{
}

/// Why a message is refused: for its signature first, where that is no hexadecimal or has not
/// 64 bytes; then for its signer, where that is no hexadecimal, has not 32 bytes or does not
/// decode; last, where the signature does not hold.
pub proof fn law_why_a_message_is_refused(
    payload: Seq<u8>,
    signature: Seq<char>,
    signer: Seq<char>,
)
    ensures
        unhex(signature) matches Err(e) ==> verdict(payload, signature, signer) == Err::<
            (),
            CryptoFailure,
        >(CryptoFailure::Hex(e)),
        unhex(signature) matches Ok(sig) ==> sig.len() != 64 ==> verdict(payload, signature, signer)
            == Err::<(), CryptoFailure>(CryptoFailure::Signing("Неверная длина подписи"@)),
        unhex(signature) matches Ok(sig) ==> sig.len() == 64 ==> {
            &&& unhex(signer) matches Err(e) ==> verdict(payload, signature, signer) == Err::<
                (),
                CryptoFailure,
            >(CryptoFailure::Hex(e))
            &&& unhex(signer) matches Ok(key) ==> key.len() != 32 ==> verdict(
                payload,
                signature,
                signer,
            ) == Err::<(), CryptoFailure>(CryptoFailure::KeyGeneration("Неверная длина ключа"@))
            &&& unhex(signer) matches Ok(key) ==> key.len() == 32 && !ed25519_decodes(key)
                ==> verdict(payload, signature, signer) == Err::<(), CryptoFailure>(
                CryptoFailure::KeyGeneration("signature error: Cannot decompress Edwards point"@),
            )
            &&& unhex(signer) matches Ok(key) ==> key.len() == 32 && ed25519_decodes(key)
                && !ed25519_holds(key, payload, sig) ==> verdict(payload, signature, signer)
                == Err::<(), CryptoFailure>(CryptoFailure::InvalidSignature)
        },
{
}

} // verus!
