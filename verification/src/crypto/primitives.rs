//! The primitives that come from outside crates, each behind one function.

use blake3::{derive_key, hash};
use chacha20poly1305::aead::{Aead, KeyInit};
use chacha20poly1305::{Key, XChaCha20Poly1305, XNonce};
use ed25519_dalek::{Signature, Signer, SigningKey, Verifier, VerifyingKey};
use hmac::{Hmac, Mac};
use rand::rngs::OsRng;
use rand::RngCore;
use sha2::{Digest, Sha256};
use vstd::prelude::*;
use x25519_dalek::{PublicKey, StaticSecret};
use zeroize::Zeroize;

verus! {

/// The SHA-256 digest.
pub uninterp spec fn sha256_of(data: Seq<u8>) -> Seq<u8>;

/// The HMAC-SHA256 code of `data` under `key`.
pub uninterp spec fn hmac_sha256_of(key: Seq<u8>, data: Seq<u8>) -> Seq<u8>;

/// The BLAKE3 digest.
pub uninterp spec fn blake3_of(data: Seq<u8>) -> Seq<u8>;

/// The key that BLAKE3 derives from `material` in the given context.
pub uninterp spec fn blake3_derived(context: Seq<char>, material: Seq<u8>) -> Seq<u8>;

/// What XChaCha20-Poly1305 makes of a plaintext: the ciphertext with its tag.
pub uninterp spec fn xchacha_sealed(key: Seq<u8>, nonce: Seq<u8>, plaintext: Seq<u8>) -> Seq<u8>;

/// What XChaCha20-Poly1305 reads from a ciphertext with its tag; nothing if the tag
/// does not fit.
pub uninterp spec fn xchacha_opened(key: Seq<u8>, nonce: Seq<u8>, sealed: Seq<u8>) -> Option<
    Seq<u8>,
>;

/// The Ed25519 public key of a seed.
pub uninterp spec fn ed25519_public(seed: Seq<u8>) -> Seq<u8>;

/// The Ed25519 signature of a message under a seed.
pub uninterp spec fn ed25519_signature(seed: Seq<u8>, message: Seq<u8>) -> Seq<u8>;

/// Whether 32 bytes are the encoding of an Ed25519 public key.
pub uninterp spec fn ed25519_decodes(key: Seq<u8>) -> bool;

/// Whether the signature of the message holds under the encoded public key.
pub uninterp spec fn ed25519_holds(key: Seq<u8>, message: Seq<u8>, signature: Seq<u8>) -> bool;

/// The X25519 public key of a secret.
pub uninterp spec fn x25519_public(secret: Seq<u8>) -> Seq<u8>;

/// The X25519 secret that `secret` shares with the owner of `public`.
pub uninterp spec fn x25519_shared(secret: Seq<u8>, public: Seq<u8>) -> Seq<u8>;

/// `Sha256::digest` of `sha2`: the digest is named by `sha256_of`.
#[verifier::external_body]
pub(crate) fn sha256_digest(data: &[u8]) -> (r: [u8; 32])
    ensures
        r@ == sha256_of(data@),
{
    Sha256::digest(data).into()
}

/// `Hmac<Sha256>` of `hmac`, which takes keys of any length: the code is named by
/// `hmac_sha256_of`.
#[verifier::external_body]
pub(crate) fn hmac_sha256_code(key: &[u8], data: &[u8]) -> (r: [u8; 32])
    ensures
        r@ == hmac_sha256_of(key@, data@),
{
    let mut mac = <Hmac<Sha256> as Mac>::new_from_slice(key).expect("keys of any length");
    mac.update(data);
    mac.finalize().into_bytes().into()
}

/// `blake3::hash`: the digest is named by `blake3_of`.
#[verifier::external_body]
pub(crate) fn blake3_digest(data: &[u8]) -> (r: [u8; 32])
    ensures
        r@ == blake3_of(data@),
{
    *hash(data).as_bytes()
}

/// `blake3::derive_key`: the derived key is named by `blake3_derived`.
#[verifier::external_body]
pub(crate) fn blake3_derive(context: &str, material: &[u8]) -> (r: [u8; 32])
    ensures
        r@ == blake3_derived(context@, material@),
{
    derive_key(context, material)
}

/// The longest plaintext that XChaCha20-Poly1305 takes: its counter of 32 bits stands at
/// one where the plaintext begins, and its last block is not used.
pub const XCHACHA_MAX_PLAINTEXT: u64 = 64 * 0xffff_fffe;

/// Whether XChaCha20-Poly1305 takes a plaintext of `len` bytes: its block counter
/// must not run out.
pub open spec fn xchacha_takes(len: nat) -> bool {
    len <= XCHACHA_MAX_PLAINTEXT
}

/// `Aead::encrypt` of `chacha20poly1305` with `XChaCha20Poly1305`, on a plaintext for
/// which the block counter does not run out. The ciphertext is named by
/// `xchacha_sealed`, is 16 bytes longer than the plaintext, and opens to the plaintext
/// under the same key and nonce.
#[verifier::external_body]
pub(crate) fn xchacha_seal(key: &[u8; 32], nonce: &[u8; 24], plaintext: &[u8]) -> (r: Result<
    Vec<u8>,
    String,
>)
    requires
        xchacha_takes(plaintext@.len()),
    ensures
        match r {
            Ok(c) => {
                &&& c@ == xchacha_sealed(key@, nonce@, plaintext@)
                &&& c@.len() == plaintext@.len() + 16
                &&& xchacha_opened(key@, nonce@, c@) == Some(plaintext@)
            },
            Err(_) => false,
        },
{
    XChaCha20Poly1305::new(Key::from_slice(key)).encrypt(XNonce::from_slice(nonce), plaintext).map_err(
        |e| e.to_string(),
    )
}

/// `Aead::decrypt` of `chacha20poly1305` with `XChaCha20Poly1305`, on a ciphertext with
/// its tag that is no longer than one that can be made: the plaintext, or nothing on an
/// error, is named by `xchacha_opened`. Of a key other than the one that the bytes were
/// sealed under nothing is said: that it is refused is likely, not certain.
#[verifier::external_body]
pub(crate) fn xchacha_open(key: &[u8; 32], nonce: &[u8; 24], sealed: &[u8]) -> (r: Option<Vec<u8>>)
    requires
        sealed@.len() <= XCHACHA_MAX_PLAINTEXT + 16,
    ensures
        match r {
            Some(p) => xchacha_opened(key@, nonce@, sealed@) == Some(p@),
            None => xchacha_opened(key@, nonce@, sealed@) is None,
        },
{
    XChaCha20Poly1305::new(Key::from_slice(key)).decrypt(XNonce::from_slice(nonce), sealed).ok()
}

/// `SigningKey::from_bytes` and `verifying_key` of `ed25519_dalek`: the public key
/// is named by `ed25519_public`, and it decodes.
#[verifier::external_body]
pub(crate) fn ed25519_public_key(seed: &[u8; 32]) -> (r: [u8; 32])
    ensures
        r@ == ed25519_public(seed@),
        ed25519_decodes(r@),
{
    SigningKey::from_bytes(seed).verifying_key().to_bytes()
}

/// `Signer::sign` of `ed25519_dalek`: the signature is named by `ed25519_signature`,
/// and it holds for the message under the seed's public key.
#[verifier::external_body]
pub(crate) fn ed25519_sign(seed: &[u8; 32], message: &[u8]) -> (r: [u8; 64])
    ensures
        r@ == ed25519_signature(seed@, message@),
        ed25519_holds(ed25519_public(seed@), message@, r@),
{
    SigningKey::from_bytes(seed).sign(message).to_bytes()
}

/// `VerifyingKey::from_bytes` of `ed25519_dalek`: whether the bytes decode is named
/// by `ed25519_decodes`. The one error there is has the text that is stated here.
#[verifier::external_body]
pub(crate) fn ed25519_decode(key: &[u8; 32]) -> (r: Result<(), String>)
    ensures
        r is Ok == ed25519_decodes(key@),
        r matches Err(m) ==> m@ == "signature error: Cannot decompress Edwards point"@,
{
    VerifyingKey::from_bytes(key).map(|_k| ()).map_err(|e| e.to_string())
}

/// `Verifier::verify` of `ed25519_dalek` on a key that decodes: whether it accepts
/// is named by `ed25519_holds`. Of a message or a key other than those that were signed
/// nothing is said: that the signature does not hold of them is likely, not certain.
#[verifier::external_body]
pub(crate) fn ed25519_verify(key: &[u8; 32], message: &[u8], signature: &[u8; 64]) -> (r: bool)
    requires
        ed25519_decodes(key@),
    ensures
        r == ed25519_holds(key@, message@, signature@),
{
    match VerifyingKey::from_bytes(key) {
        Ok(k) => k.verify(message, &Signature::from_bytes(signature)).is_ok(),
        Err(_) => false,
    }
}

/// `PublicKey::from(&StaticSecret)` of `x25519_dalek`: the public key is named by
/// `x25519_public`.
#[verifier::external_body]
pub(crate) fn x25519_public_key(secret: &[u8; 32]) -> (r: [u8; 32])
    ensures
        r@ == x25519_public(secret@),
{
    PublicKey::from(&StaticSecret::from(*secret)).to_bytes()
}

/// `StaticSecret::diffie_hellman` of `x25519_dalek`: the shared secret is named by
/// `x25519_shared`. The owner of the public key gets the same one.
#[verifier::external_body]
pub(crate) fn x25519_agree(secret: &[u8; 32], public: &[u8; 32]) -> (r: [u8; 32])
    ensures
        r@ == x25519_shared(secret@, public@),
        forall|other: Seq<u8>|
            other.len() == 32 && public@ == #[trigger] x25519_public(other) ==> r@ == x25519_shared(
                other,
                x25519_public(secret@),
            ),
{
    StaticSecret::from(*secret).diffie_hellman(&PublicKey::from(*public)).to_bytes()
}

/// `RngCore::fill_bytes` of `rand` with `OsRng`: nothing is promised of the bytes.
#[verifier::external_body]
pub(crate) fn random_bytes<const N: usize>() -> (r: [u8; N]) {
    let mut out = [0u8; N];
    OsRng.fill_bytes(&mut out);
    out
}

/// `Zeroize::zeroize` of `zeroize` on a vector: it is emptied after its bytes were
/// overwritten.
#[verifier::external_body]
pub(crate) fn wipe(v: &mut Vec<u8>)
    ensures
        final(v)@.len() == 0,
{
    v.zeroize();
}

/// `Zeroize::zeroize` of `zeroize` on an array: its bytes are overwritten with zeros.
#[verifier::external_body]
pub(crate) fn wipe_key(key: &mut [u8; 32])
    ensures
        forall|i: int| 0 <= i < 32 ==> #[trigger] final(key)@[i] == 0u8,
{
    key.zeroize();
}

} // verus!
