//! Digests of content.

use vstd::prelude::*;

use crate::crypto::primitives::{blake3_digest, blake3_of, sha256_digest, sha256_of};
use crate::util::hex::{encode, hex_text};
use crate::util::text::same_text;

verus! {

/// The SHA-256 digest of the data.
pub fn sha256(data: &[u8]) -> (r: [u8; 32])
    ensures
        r@ == sha256_of(data@),
{
    sha256_digest(data)
}

/// The SHA-256 digest in hexadecimal.
pub fn sha256_hex(data: &[u8]) -> (r: String)
    ensures
        r@ == hex_text(sha256_of(data@)),
{
    let digest: [u8; 32] = sha256(data);
    encode(&digest)
}

/// The BLAKE3 digest of the data.
pub fn blake3(data: &[u8]) -> (r: [u8; 32])
    ensures
        r@ == blake3_of(data@),
{
    blake3_digest(data)
}

/// The BLAKE3 digest in hexadecimal.
pub fn blake3_hex(data: &[u8]) -> (r: String)
    ensures
        r@ == hex_text(blake3_of(data@)),
{
    let digest: [u8; 32] = blake3(data);
    encode(&digest)
}

/// Whether a digest is the one that is written in `expected`.
pub fn digest_is(digest: &[u8; 32], expected: &str) -> (r: bool)
    ensures
        r == (hex_text(digest@) == expected@),
{
    let text: String = encode(digest);
    same_text(text.as_str(), expected)
}

/// Whether the data has the expected SHA-256 digest, which is compared as text in
/// lower-case hexadecimal.
pub fn verify_chunk(data: &[u8], expected_sha256_hex: &str) -> (r: bool)
    ensures
        r == (hex_text(sha256_of(data@)) == expected_sha256_hex@),
{
    let digest: [u8; 32] = sha256(data);
    digest_is(&digest, expected_sha256_hex)
}

} // verus!
