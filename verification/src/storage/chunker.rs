//! Files in chunks.

use vstd::prelude::*;
use vstd::slice::*;

use crate::db::chunks::string_texts;
use crate::storage::integrity::{chunk_hash, compute_file_id, file_name_of, hash_chunk};
use crate::util::bytes::{append_bytes, bytes_of};

verus! {

/// The size of a chunk. The last one of a file may be smaller.
pub const CHUNK_SIZE: usize = 262144;

/// One chunk of a file.
#[derive(Debug, Clone, PartialEq, Eq)]
pub struct ChunkMeta {
    pub hash: String,
    pub index: u32,
    pub size: usize,
}

/// A file in chunks.
#[derive(Debug, PartialEq, Eq)]
pub struct SplitResult {
    pub file_id: String,
    pub file_name: String,
    pub total_size: u64,
    pub chunks: Vec<ChunkMeta>,
    /// The bytes of each chunk.
    pub data: Vec<Vec<u8>>,
}

/// How many chunks a content of the given length has.
pub open spec fn chunk_count(len: nat) -> nat {
    (len + CHUNK_SIZE - 1) as nat / CHUNK_SIZE as nat
}

/// Where a chunk ends.
pub open spec fn chunk_end(len: nat, i: int) -> int {
    if (i + 1) * CHUNK_SIZE < len {
        (i + 1) * CHUNK_SIZE
    } else {
        len as int
    }
}

/// A chunk of a content.
pub open spec fn piece(content: Seq<u8>, i: int) -> Seq<u8> {
    content.subrange(i * CHUNK_SIZE, chunk_end(content.len(), i))
}

/// The chunks of a content.
pub open spec fn pieces(content: Seq<u8>) -> Seq<Seq<u8>> {
    Seq::new(chunk_count(content.len()), |i: int| piece(content, i))
}

/// Chunks in a row.
pub open spec fn joined(chunks: Seq<Seq<u8>>) -> Seq<u8>
    decreases chunks.len(),
{
    if chunks.len() == 0 {
        seq![]
    } else {
        joined(chunks.drop_last()) + chunks.last()
    }
}

/// The bytes of a list of chunks.
pub open spec fn chunk_bytes(data: Seq<Vec<u8>>) -> Seq<Seq<u8>> {
    data.map_values(|d: Vec<u8>| d@)
}

/// The hashes of a content's chunks.
pub open spec fn piece_hashes(content: Seq<u8>) -> Seq<Seq<char>> {
    pieces(content).map_values(|p: Seq<u8>| chunk_hash(p))
}

/// Whether a file in chunks is that of the given content.
pub open spec fn splits(r: SplitResult, content: Seq<u8>) -> bool {
    &&& chunk_bytes(r.data@) == pieces(content)
    &&& r.chunks@.len() == r.data@.len()
    &&& forall|i: int|
        0 <= i < r.chunks@.len() ==> {
            &&& (#[trigger] r.chunks@[i]).hash@ == chunk_hash(piece(content, i))
            &&& r.chunks@[i].index == i
            &&& r.chunks@[i].size == piece(content, i).len()
        }
    &&& r.file_id@ == file_name_of(piece_hashes(content))
}

/// Puts a content into chunks. A file whose name cannot be told is called `unknown`.
pub fn split_bytes(file_name: Option<String>, total_size: u64, content: &[u8]) -> (r: SplitResult)
    requires
        chunk_count(content@.len()) <= u32::MAX,
    ensures
        splits(r, content@),
        r.file_name@ == (match file_name {
            Some(n) => n@,
            None => "unknown"@,
        }),
        r.total_size == total_size,
{
    let file_name: String = match file_name {
        Some(n) => n,
        None => "unknown".to_owned(),
    };
    let mut chunks: Vec<ChunkMeta> = Vec::new();
    let mut data: Vec<Vec<u8>> = Vec::new();
    let mut hashes: Vec<String> = Vec::new();
    let mut start: usize = 0;
    let mut index: u32 = 0;
    while start < content.len()
        invariant
            chunk_count(content@.len()) <= u32::MAX,
            index <= chunk_count(content@.len()),
            start == index * CHUNK_SIZE || start == content@.len(),
            start < content@.len() ==> start == index * CHUNK_SIZE,
            start == content@.len() ==> index == chunk_count(content@.len()),
            start <= content@.len(),
            chunks@.len() == index,
            data@.len() == index,
            hashes@.len() == index,
            forall|i: int|
                0 <= i < index ==> {
                    &&& (#[trigger] chunks@[i]).hash@ == chunk_hash(piece(content@, i))
                    &&& chunks@[i].index == i
                    &&& chunks@[i].size == piece(content@, i).len()
                },
            forall|i: int| 0 <= i < index ==> (#[trigger] data@[i])@ == piece(content@, i),
            forall|i: int|
                0 <= i < index ==> (#[trigger] hashes@[i])@ == chunk_hash(piece(content@, i)),
        decreases content@.len() - start,
    {
        let end: usize = if content.len() - start > CHUNK_SIZE {
            start + CHUNK_SIZE
        } else {
            content.len()
        };
        let raw: &[u8] = slice_subrange(content, start, end);
        assert(end == chunk_end(content@.len(), index as int));
        assert(raw@ =~= piece(content@, index as int));
        let hash: String = hash_chunk(raw);
        hashes.push(hash.clone());
        chunks.push(ChunkMeta { hash, index, size: raw.len() });
        data.push(bytes_of(raw));
        assert(index < chunk_count(content@.len()));
        start = end;
        index = index + 1;
    }
    assert(chunk_bytes(data@) =~= pieces(content@));
    assert(string_texts(hashes@) =~= piece_hashes(content@));
    SplitResult { file_id: compute_file_id(&hashes), file_name, total_size, chunks, data }
}

/// Puts chunks back together.
pub fn concat_chunks(ordered: &Vec<Vec<u8>>) -> (r: Vec<u8>)
    ensures
        r@ == joined(chunk_bytes(ordered@)),
{
    let ghost all = chunk_bytes(ordered@);
    let mut out: Vec<u8> = Vec::new();
    let mut i: usize = 0;
    assert(all.take(0).len() == 0);
    while i < ordered.len()
        invariant
            i <= ordered@.len(),
            all == chunk_bytes(ordered@),
            out@ == joined(all.take(i as int)),
        decreases ordered@.len() - i,
    {
        assert(all.take(i + 1).drop_last() =~= all.take(i as int));
        assert(all.take(i + 1).last() == ordered@[i as int]@);
        append_bytes(&mut out, ordered[i].as_slice());
        i = i + 1;
    }
    assert(all.take(i as int) =~= all);
    out
}

/// How many bytes the chunks have together.
pub fn assembled_size(ordered: &Vec<Vec<u8>>) -> (r: u64)
    requires
        joined(chunk_bytes(ordered@)).len() <= u64::MAX,
    ensures
        r == joined(chunk_bytes(ordered@)).len(),
{
    let ghost all = chunk_bytes(ordered@);
    let mut total: u64 = 0;
    let mut i: usize = 0;
    assert(all.take(0).len() == 0);
    while i < ordered.len()
        invariant
            i <= ordered@.len(),
            all == chunk_bytes(ordered@),
            joined(all).len() <= u64::MAX,
            total == joined(all.take(i as int)).len(),
        decreases ordered@.len() - i,
    {
        assert(all.take(i + 1).drop_last() =~= all.take(i as int));
        assert(all.take(i + 1).last() == ordered@[i as int]@);
        proof {
            lemma_joined_grows(all, i + 1);
        }
        total = total + ordered[i].len() as u64;
        i = i + 1;
    }
    assert(all.take(i as int) =~= all);
    total
}

/// More chunks are never fewer bytes.
proof fn lemma_joined_grows(chunks: Seq<Seq<u8>>, n: int)
    requires
        0 <= n <= chunks.len(),
    ensures
        joined(chunks.take(n)).len() <= joined(chunks).len(),
    decreases chunks.len(),
{
    if n == chunks.len() {
        assert(chunks.take(n) =~= chunks);
    } else {
        lemma_joined_grows(chunks.drop_last(), n);
        assert(chunks.drop_last().take(n) =~= chunks.take(n));
    }
}

/// The first chunks of a content make up its first part.
proof fn lemma_first_pieces(content: Seq<u8>, n: int)
    requires
        0 <= n <= chunk_count(content.len()),
    ensures
        joined(pieces(content).take(n)) == content.take(
            if n * CHUNK_SIZE < content.len() {
                n * CHUNK_SIZE
            } else {
                content.len() as int
            },
        ),
    decreases n,
{
    let p = pieces(content);
    if n == 0 {
        assert(p.take(0).len() == 0);
        assert(joined(p.take(0)) =~= content.take(0));
    } else {
        lemma_first_pieces(content, n - 1);
        assert(p.take(n).drop_last() =~= p.take(n - 1));
        assert(p.take(n).last() == piece(content, n - 1));
        assert((n - 1) * CHUNK_SIZE < content.len());
        assert(joined(p.take(n)) =~= content.take(
            if n * CHUNK_SIZE < content.len() {
                n * CHUNK_SIZE
            } else {
                content.len() as int
            },
        ));
    }
}

/// The chunks of a content, put back together, are the content.
pub proof fn law_split_joins_back(content: Seq<u8>)
    ensures
        joined(pieces(content)) == content,
{
    let n = chunk_count(content.len()) as int;
    lemma_first_pieces(content, n);
    assert(pieces(content).take(n) =~= pieces(content));
    assert(content.take(content.len() as int) =~= content);
}

/// Every chunk but the last is full, and none is empty or larger.
pub proof fn law_chunk_sizes(content: Seq<u8>, i: int)
    requires
        0 <= i < pieces(content).len(),
    ensures
        0 < pieces(content)[i].len() <= CHUNK_SIZE,
        i < pieces(content).len() - 1 ==> pieces(content)[i].len() == CHUNK_SIZE,
{
}

/// A content has as many chunks of 262144 bytes as are needed to hold it.
pub proof fn law_chunks_hold_the_content(len: nat)
    ensures
        chunk_count(len) * 262144 >= len,
        chunk_count(len) > 0 ==> (chunk_count(len) - 1) * 262144 < len,
        chunk_count(0) == 0,
{
}

/// Every byte of a content is in the chunk of its place: the byte numbered `k` is in the chunk
/// numbered by how often 262144 goes into `k`, as far from its start as is left over.
pub proof fn law_every_byte_is_in_its_chunk(content: Seq<u8>, k: int)
    requires
        0 <= k < content.len(),
    ensures
        k / 262144 < pieces(content).len(),
        k % 262144 < pieces(content)[k / 262144].len(),
        pieces(content)[k / 262144][k % 262144] == content[k],
{
    let i: int = k / 262144;
    assert(i * CHUNK_SIZE + k % 262144 == k);
}

/// Chunks are put together one after the other.
pub proof fn law_chunks_follow_each_other(chunks: Seq<Seq<u8>>, chunk: Seq<u8>)
    ensures
        joined(seq![]) == Seq::<u8>::empty(),
        joined(chunks.push(chunk)) == joined(chunks) + chunk,
{
    assert(chunks.push(chunk).drop_last() =~= chunks);
}

/// A file in chunks holds the content: the chunks in a row are it; each chunk's description has
/// its number, its size and its hash; and the file is named after the hashes in their order.
pub proof fn law_split_holds_the_content(r: SplitResult, content: Seq<u8>, i: int)
    requires
        splits(r, content),
        0 <= i < r.chunks@.len(),
    ensures
        joined(chunk_bytes(r.data@)) == content,
        r.chunks@.len() == r.data@.len(),
        r.chunks@[i].index == i,
        r.chunks@[i].size == r.data@[i]@.len(),
        r.chunks@[i].hash@ == chunk_hash(r.data@[i]@),
        r.file_id@ == file_name_of(r.chunks@.map_values(|c: ChunkMeta| c.hash@)),
{
    law_split_joins_back(content);
    assert(chunk_bytes(r.data@)[i] == r.data@[i]@);
    assert(chunk_bytes(r.data@).len() == r.data@.len());
    let hashes = r.chunks@.map_values(|c: ChunkMeta| c.hash@);
    assert(hashes =~= piece_hashes(content)) by {
        assert forall|j: int| 0 <= j < hashes.len() implies hashes[j] == piece_hashes(
            content,
        )[j] by {
            assert(r.chunks@[j].hash@ == chunk_hash(piece(content, j)));
            assert(pieces(content)[j] == piece(content, j));
        }
    }
}

} // verus!
