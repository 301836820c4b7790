//! Sealing bytes under a key with XChaCha20-Poly1305, and opening them again.

use vstd::prelude::*;

use crate::crypto::primitives::{
    xchacha_open, xchacha_opened, xchacha_seal, xchacha_sealed, xchacha_takes,
    XCHACHA_MAX_PLAINTEXT,
};

verus! {

/// The length of the cipher's tag.
pub const TAG_LEN: u64 = 16;

/// What is read from sealed bytes: nothing if the tag does not fit, or if they are longer
/// than what the cipher seals.
pub open spec fn opened_bytes(key: Seq<u8>, nonce: Seq<u8>, sealed: Seq<u8>) -> Option<Seq<u8>> {
    if sealed.len() <= XCHACHA_MAX_PLAINTEXT + TAG_LEN {
        xchacha_opened(key, nonce, sealed)
    } else {
        None
    }
}

/// Seals a plaintext. It fails just where the plaintext is too long for the cipher; else
/// the same key and nonce open what it makes.
pub fn seal_bytes(key: &[u8; 32], nonce: &[u8; 24], plaintext: &[u8]) -> (r: Result<Vec<u8>, String>)
    ensures
        match r {
            Ok(c) => {
                &&& xchacha_takes(plaintext@.len())
                &&& c@ == xchacha_sealed(key@, nonce@, plaintext@)
                &&& opened_bytes(key@, nonce@, c@) == Some(plaintext@)
            },
            Err(m) => !xchacha_takes(plaintext@.len()) && m@ == "aead::Error"@,
        },
{
    if plaintext.len() as u64 > XCHACHA_MAX_PLAINTEXT {
        return Err("aead::Error".to_owned());
    }
    xchacha_seal(key, nonce, plaintext)
}

/// Opens sealed bytes.
pub fn open_bytes(key: &[u8; 32], nonce: &[u8; 24], sealed: &[u8]) -> (r: Option<Vec<u8>>)
    ensures
        match r {
            Some(p) => opened_bytes(key@, nonce@, sealed@) == Some(p@),
            None => opened_bytes(key@, nonce@, sealed@) is None,
        },
{
    if sealed.len() as u64 > XCHACHA_MAX_PLAINTEXT + TAG_LEN {
        return None;
    }
    xchacha_open(key, nonce, sealed)
}

/// Sealed bytes of a length that the cipher makes are given to it, and no longer ones.
pub proof fn law_cipher_decides_what_can_be_opened(key: Seq<u8>, nonce: Seq<u8>, sealed: Seq<u8>)
    ensures
        sealed.len() <= XCHACHA_MAX_PLAINTEXT + 16 ==> opened_bytes(key, nonce, sealed)
            == xchacha_opened(key, nonce, sealed),
        sealed.len() > XCHACHA_MAX_PLAINTEXT + 16 ==> opened_bytes(key, nonce, sealed) is None,
{
}

/// The cipher takes as many bytes as its counter of 32 bits has blocks of 64 for, but for the
/// first and the last block.
pub proof fn law_longest_plaintext(len: nat)
    ensures
        xchacha_takes(len) <==> len <= 64 * (0x1_0000_0000 - 2),
        TAG_LEN == 16,
{
}

} // verus!
