//! Chunks are what their hashes say.

use vstd::prelude::*;
use vstd::utf8::*;

use crate::crypto::hash::sha256_hex;
use crate::crypto::primitives::sha256_of;
use crate::db::chunks::string_texts;
use crate::storage::error::StorageError;
use crate::util::bytes::append_bytes;
use crate::util::hex::{hex_text, lemma_hex_injective};
use crate::util::text::same_text;

verus! {

/// The hash of a chunk.
pub open spec fn chunk_hash(data: Seq<u8>) -> Seq<char> {
    hex_text(sha256_of(data))
}

/// The hash of a chunk: its SHA-256 digest in lower-case hexadecimal.
pub fn hash_chunk(data: &[u8]) -> (r: String)
    ensures
        r@ == chunk_hash(data@),
{
    sha256_hex(data)
}

/// Holds a hash that was computed against the expected one.
pub fn check_hash(expected: &str, actual: String) -> (r: Result<(), StorageError>)
    ensures
        match r {
            Ok(()) => expected@ == actual@,
            Err(StorageError::IntegrityFailure { expected: e, actual: a }) => {
                &&& expected@ != actual@
                &&& e@ == expected@
                &&& a == actual
            },
            Err(_) => false,
        },
{
    if same_text(expected, actual.as_str()) {
        Ok(())
    } else {
        Err(StorageError::IntegrityFailure { expected: expected.to_owned(), actual })
    }
}

/// Whether the data is what its hash says.
pub fn verify_chunk(expected_hash: &str, data: &[u8]) -> (r: Result<(), StorageError>)
    ensures
        match r {
            Ok(()) => chunk_hash(data@) == expected_hash@,
            Err(StorageError::IntegrityFailure { expected, actual }) => {
                &&& chunk_hash(data@) != expected_hash@
                &&& expected@ == expected_hash@
                &&& actual@ == chunk_hash(data@)
            },
            Err(_) => false,
        },
{
    check_hash(expected_hash, hash_chunk(data))
}

/// The bytes of all hashes in a row.
pub open spec fn hashes_in_row(hashes: Seq<Seq<char>>) -> Seq<u8>
    decreases hashes.len(),
{
    if hashes.len() == 0 {
        seq![]
    } else {
        hashes_in_row(hashes.drop_last()) + encode_utf8(hashes.last())
    }
}

/// The name of a file with the given chunks.
pub open spec fn file_name_of(hashes: Seq<Seq<char>>) -> Seq<char> {
    hex_text(sha256_of(hashes_in_row(hashes)))
}

/// The name of a file: the digest of its chunks' hashes, in their order.
pub fn compute_file_id(chunk_hashes: &Vec<String>) -> (r: String)
    ensures
        r@ == file_name_of(string_texts(chunk_hashes@)),
{
    let ghost texts = string_texts(chunk_hashes@);
    let mut row: Vec<u8> = Vec::new();
    let mut i: usize = 0;
    assert(texts.take(0).len() == 0);
    while i < chunk_hashes.len()
        invariant
            i <= chunk_hashes@.len(),
            texts == string_texts(chunk_hashes@),
            row@ == hashes_in_row(texts.take(i as int)),
        decreases chunk_hashes@.len() - i,
    {
        assert(texts.take(i + 1).drop_last() =~= texts.take(i as int));
        assert(texts.take(i + 1).last() == chunk_hashes@[i as int]@);
        append_bytes(&mut row, chunk_hashes[i].as_str().as_bytes());
        i = i + 1;
    }
    assert(texts.take(i as int) =~= texts);
    sha256_hex(row.as_slice())
}

/// A file is named after the hashes of its chunks in their order: one more chunk adds the bytes
/// of its hash to what is digested.
pub proof fn law_file_is_named_after_its_chunks(hashes: Seq<Seq<char>>, hash: Seq<char>)
    ensures
        hashes_in_row(seq![]) == Seq::<u8>::empty(),
        hashes_in_row(hashes.push(hash)) == hashes_in_row(hashes) + encode_utf8(hash),
        file_name_of(hashes) == hex_text(sha256_of(hashes_in_row(hashes))),
{
    assert(hashes.push(hash).drop_last() =~= hashes);
}

/// Files with different chunks are digested from different bytes, where the hashes have the
/// length that hashes have.
pub proof fn law_rows_of_hashes_differ(a: Seq<Seq<char>>, b: Seq<Seq<char>>)
    requires
        forall|i: int| 0 <= i < a.len() ==> encode_utf8(#[trigger] a[i]).len() == 64,
        forall|i: int| 0 <= i < b.len() ==> encode_utf8(#[trigger] b[i]).len() == 64,
        hashes_in_row(a) == hashes_in_row(b),
    ensures
        a == b,
    decreases a.len(),
{
    lemma_row_length(a);
    lemma_row_length(b);
    if a.len() > 0 {
        let (x, y) = (hashes_in_row(a.drop_last()), hashes_in_row(b.drop_last()));
        let (p, q) = (encode_utf8(a.last()), encode_utf8(b.last()));
        assert(a.last() == a[a.len() - 1] && b.last() == b[b.len() - 1]);
        let n: int = hashes_in_row(a).len() - 64;
        assert(x =~= hashes_in_row(a).take(n));
        assert(y =~= hashes_in_row(b).take(n));
        assert(p =~= hashes_in_row(a).skip(n));
        assert(q =~= hashes_in_row(b).skip(n));
        encode_utf8_decode_utf8(a.last());
        encode_utf8_decode_utf8(b.last());
        assert forall|i: int| 0 <= i < a.drop_last().len() implies encode_utf8(
            #[trigger] a.drop_last()[i],
        ).len() == 64 by {
            assert(a.drop_last()[i] == a[i]);
        }
        assert forall|i: int| 0 <= i < b.drop_last().len() implies encode_utf8(
            #[trigger] b.drop_last()[i],
        ).len() == 64 by {
            assert(b.drop_last()[i] == b[i]);
        }
        law_rows_of_hashes_differ(a.drop_last(), b.drop_last());
        assert(a =~= a.drop_last().push(a.last()));
        assert(b =~= b.drop_last().push(b.last()));
    }
    assert(a =~= b);
}

/// Hashes of 64 bytes make a row of so many times 64.
proof fn lemma_row_length(hashes: Seq<Seq<char>>)
    requires
        forall|i: int| 0 <= i < hashes.len() ==> encode_utf8(#[trigger] hashes[i]).len() == 64,
    ensures
        hashes_in_row(hashes).len() == 64 * hashes.len(),
    decreases hashes.len(),
{
    if hashes.len() > 0 {
        let t = hashes.drop_last();
        assert forall|i: int| 0 <= i < t.len() implies encode_utf8(#[trigger] t[i]).len() == 64 by {
            assert(t[i] == hashes[i]);
        }
        lemma_row_length(t);
        assert(hashes.last() == hashes[hashes.len() - 1]);
    }
}

/// The hash of a chunk is its SHA-256 digest in hexadecimal, whatever the chunk is; chunks with
/// different digests have different hashes.
pub proof fn law_hash_is_the_digest(a: Seq<u8>, b: Seq<u8>)
    ensures
        chunk_hash(a) == hex_text(sha256_of(a)),
        chunk_hash(a) == chunk_hash(b) ==> sha256_of(a) == sha256_of(b),
{
    if chunk_hash(a) == chunk_hash(b) {
        lemma_hex_injective(sha256_of(a), sha256_of(b));
    }
}

} // verus!
