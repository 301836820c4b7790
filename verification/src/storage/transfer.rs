//! How one node gets a chunk from another: a request, an answer, and the bytes.

use vstd::prelude::*;
use vstd::utf8::*;

use crate::node::addr::SocketAddr;
use crate::node::identity::{
    law_ascii_names_can_be_shown, short_text, shortened, shortens, NodeId,
};
use crate::storage::chunker::{law_chunk_sizes, pieces};
use crate::storage::error::StorageError;
use crate::storage::integrity::{chunk_hash, verify_chunk};
use crate::util::text::{decimal, push_decimal};

verus! {

/// The longest request or answer, in bytes.
pub const MAX_HEADER: usize = 65_536;

/// The longest chunk that is taken, in bytes.
pub const MAX_DATA_LEN: u32 = 524_288;

/// The wish for a chunk.
#[derive(Debug, Clone, PartialEq, Eq)]
pub struct ChunkRequest {
    pub chunk_hash: String,
    /// Who asks.
    pub requester_id: String,
}

/// The answer to that.
#[derive(Debug, Clone, PartialEq, Eq)]
pub struct ChunkResponse {
    pub chunk_hash: String,
    pub status: ChunkResponseStatus,
    /// How many bytes follow.
    pub data_len: u32,
}

/// Whether there is such a chunk.
#[derive(Debug, Clone, Copy, PartialEq, Eq, Structural)]
pub enum ChunkResponseStatus {
    Found,
    NotFound,
    Error,
}

/// The wish for a chunk.
pub fn request_for(chunk_hash: &str, my_id: &NodeId) -> (r: ChunkRequest)
    ensures
        r.chunk_hash@ == chunk_hash@,
        r.requester_id@ == my_id@,
{
    ChunkRequest { chunk_hash: chunk_hash.to_owned(), requester_id: my_id.0.clone() }
}

/// The error for a header that is too long.
pub fn header_too_large() -> (r: StorageError)
    ensures
        r matches StorageError::Network(m) && m@ == "message header too large"@,
{
    StorageError::Network("message header too large".to_owned())
}

/// The answer to a request, by what the store has given. Only a chunk that was found is
/// followed by bytes.
pub fn respond(request: &ChunkRequest, found: &Result<Vec<u8>, StorageError>) -> (r: ChunkResponse)
    requires
        *found matches Ok(d) ==> d@.len() <= u32::MAX,
    ensures
        r.chunk_hash@ == request.chunk_hash@,
        match *found {
            Ok(d) => r.status == ChunkResponseStatus::Found && r.data_len == d@.len(),
            Err(StorageError::ChunkNotFound(_)) => r.status == ChunkResponseStatus::NotFound
                && r.data_len == 0,
            Err(_) => r.status == ChunkResponseStatus::Error && r.data_len == 0,
        },
{
    let chunk_hash: String = request.chunk_hash.clone();
    match found {
        Ok(d) => ChunkResponse {
            chunk_hash,
            status: ChunkResponseStatus::Found,
            data_len: d.len() as u32,
        },
        Err(StorageError::ChunkNotFound(_)) => ChunkResponse {
            chunk_hash,
            status: ChunkResponseStatus::NotFound,
            data_len: 0,
        },
        Err(_) => ChunkResponse { chunk_hash, status: ChunkResponseStatus::Error, data_len: 0 },
    }
}

/// Whether the hash has the eight bytes that an error shows of it.
pub open spec fn shows_hash(hash: Seq<char>) -> bool {
    encode_utf8(hash).len() >= 8 && shortens(hash)
}

/// How many bytes follow an answer. There has to be a chunk, of a size that chunks have.
pub fn expected_len(response: &ChunkResponse, chunk_hash: &str, peer_addr: &SocketAddr) -> (r:
    Result<usize, StorageError>)
    requires
        response.status == ChunkResponseStatus::Error ==> shows_hash(chunk_hash@),
    ensures
        match response.status {
            ChunkResponseStatus::Found => if response.data_len == 0 || response.data_len
                > MAX_DATA_LEN {
                r matches Err(StorageError::Network(m)) && m@ == "invalid data_len: "@ + decimal(
                    response.data_len as nat,
                )
            } else {
                r == Ok::<usize, StorageError>(response.data_len as usize)
            },
            ChunkResponseStatus::NotFound => r matches Err(StorageError::ChunkNotFound(h)) && h@
                == chunk_hash@,
            ChunkResponseStatus::Error => r matches Err(StorageError::Network(m)) && m@ == "peer "@
                + peer_addr.text() + " returned error for chunk "@ + shortened(chunk_hash@),
        },
{
    match response.status {
        ChunkResponseStatus::Found => {
            if response.data_len == 0 || response.data_len > MAX_DATA_LEN {
                let mut text: String = "invalid data_len: ".to_owned();
                push_decimal(&mut text, response.data_len as u64);
                return Err(StorageError::Network(text));
            }
            Ok(response.data_len as usize)
        },
        ChunkResponseStatus::NotFound => Err(StorageError::ChunkNotFound(chunk_hash.to_owned())),
        ChunkResponseStatus::Error => {
            let mut text: String = "peer ".to_owned();
            let addr: String = peer_addr.to_text();
            text.append(addr.as_str());
            text.append(" returned error for chunk ");
            text.append(short_text(chunk_hash));
            Err(StorageError::Network(text))
        },
    }
}

/// Takes the bytes that have come, if they are what their hash says.
pub fn accept_data(hash: &str, data: Vec<u8>) -> (r: Result<Vec<u8>, StorageError>)
    ensures
        match r {
            Ok(d) => d == data && chunk_hash(d@) == hash@,
            Err(StorageError::IntegrityFailure { expected, actual }) => {
                &&& chunk_hash(data@) != hash@
                &&& expected@ == hash@
                &&& actual@ == chunk_hash(data@)
            },
            Err(_) => false,
        },
{
    match verify_chunk(hash, data.as_slice()) {
        Ok(()) => Ok(data),
        Err(e) => Err(e),
    }
}

/// Every chunk of a published file can be fetched: it has a size that is taken.
pub proof fn law_published_chunks_can_be_fetched(content: Seq<u8>, i: int)
    requires
        0 <= i < pieces(content).len(),
    ensures
        0 < pieces(content)[i].len() <= MAX_DATA_LEN,
{
    law_chunk_sizes(content, i);
}

/// The longest chunk that is taken has twice the bytes of the longest that is made.
pub proof fn law_longest_chunk()
    ensures
        MAX_DATA_LEN == 2 * 262144,
{
}

/// An error can show a hash that has eight bytes of ASCII or more.
pub proof fn law_hashes_can_be_shown(hash: Seq<char>)
    requires
        is_ascii_chars(hash),
    ensures
        shows_hash(hash) <==> hash.len() >= 8,
{
    law_ascii_names_can_be_shown(hash);
    is_ascii_chars_encode_utf8(hash);
}

/// Requests and answers have up to 64 kibibytes.
pub proof fn law_longest_header()
    ensures
        MAX_HEADER == 0x1_0000,
{
}

} // verus!
