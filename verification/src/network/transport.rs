//! Frames between nodes.

use vstd::prelude::*;

use crate::network::error::NetworkError;
use crate::util::bytes::be32;
use crate::util::frame::{body_length, encode_frame, framed};
use crate::util::text::{decimal, push_decimal};

verus! {

/// The longest frame that is read, in bytes.
pub const MAX_FRAME_BYTES: usize = 16 * 1024 * 1024;

/// What a link runs over.
#[derive(Debug, Clone, Copy, PartialEq, Eq, Structural)]
pub enum TransportKind {
    Tcp,
    WebSocket,
}

/// The unit of transfer between nodes.
#[derive(Debug, Clone, PartialEq, Eq)]
pub struct Frame {
    /// The version of the protocol.
    pub version: u8,
    /// A message in bytes.
    pub payload: Vec<u8>,
}

impl Frame {
    /// A frame of this version.
    pub fn new(payload: Vec<u8>) -> (r: Frame)
        ensures
            r == (Frame { version: 1, payload }),
    {
        Frame { version: 1, payload }
    }
}

/// A serialised frame as it goes over a stream: its length in four bytes, then itself.
pub fn to_tcp_bytes(data: &[u8]) -> (r: Vec<u8>)
    requires
        data@.len() <= u32::MAX,
    ensures
        r@ == framed(data@),
{
    match encode_frame(data, u32::MAX as usize) {
        Ok(f) => f,
        Err(_) => Vec::new(),
    }
}

/// The length of the frame that follows a header. Too long a frame breaks the protocol.
pub fn tcp_frame_length(header: &[u8; 4]) -> (r: Result<usize, NetworkError>)
    ensures
        match r {
            Ok(n) => n <= MAX_FRAME_BYTES && n == be32(header@, 0),
            Err(NetworkError::Protocol(m)) => be32(header@, 0) > MAX_FRAME_BYTES && m@
                == "Frame too large: "@ + decimal(be32(header@, 0) as nat) + " bytes"@,
            Err(_) => false,
        },
{
    match body_length(header, MAX_FRAME_BYTES) {
        Ok(n) => Ok(n),
        Err(_) => {
            let n: u32 = crate::util::bytes::read_be32(header, 0);
            let mut text: String = "Frame too large: ".to_owned();
            push_decimal(&mut text, n as u64);
            text.append(" bytes");
            Err(NetworkError::Protocol(text))
        },
    }
}

/// The longest frame that is read has sixteen mebibytes.
pub proof fn law_longest_frame()
    ensures
        MAX_FRAME_BYTES == 16_777_216,
{
}

} // verus!
