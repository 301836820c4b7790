//! Frames on a stream: a length in four bytes, the most significant first, then the
//! body.

use vstd::prelude::*;

use crate::util::bytes::{
    append_bytes, be32, be32_bytes, bytes_of, lemma_be32_bytes, read_be32, write_be32,
};

verus! {

/// A body is longer than the protocol allows.
#[derive(Debug, Clone, Copy, PartialEq, Eq)]
pub struct FrameTooLarge;

/// The frame round a body.
pub open spec fn framed(body: Seq<u8>) -> Seq<u8> {
    be32_bytes(body.len() as int) + body
}

/// Puts a body into a frame, unless it is longer than `max`.
pub fn encode_frame(body: &[u8], max: usize) -> (r: Result<Vec<u8>, FrameTooLarge>)
    requires
        max <= u32::MAX,
    ensures
        match r {
            Ok(f) => body@.len() <= max && f@ == framed(body@),
            Err(_) => body@.len() > max,
        },
{
    if body.len() > max {
        return Err(FrameTooLarge);
    }
    let header: [u8; 4] = write_be32(body.len() as u32);
    let mut out: Vec<u8> = bytes_of(&header);
    append_bytes(&mut out, body);
    Ok(out)
}

/// Reads the length of the body that follows, unless it is longer than `max`.
pub fn body_length(header: &[u8; 4], max: usize) -> (r: Result<usize, FrameTooLarge>)
    ensures
        match r {
            Ok(n) => n <= max && n == be32(header@, 0),
            Err(_) => be32(header@, 0) > max,
        },
{
    let n: u32 = read_be32(header, 0);
    if n as usize > max {
        Err(FrameTooLarge)
    } else {
        Ok(n as usize)
    }
}

/// A reader that takes four bytes of a frame, and as many more as these say, has the
/// body.
pub proof fn law_frame_reads_back(body: Seq<u8>)
    requires
        body.len() <= u32::MAX,
    ensures
        framed(body).len() == 4 + body.len(),
        be32(framed(body).take(4), 0) == body.len(),
        framed(body).skip(4) == body,
{
    lemma_be32_bytes(body.len() as u32);
    assert(framed(body).take(4) =~= be32_bytes(body.len() as int));
    assert(framed(body).skip(4) =~= body);
}

/// Two frames in a row part where the first one ends.
pub proof fn law_frames_part(first: Seq<u8>, rest: Seq<u8>)
    requires
        first.len() <= u32::MAX,
    ensures
        ({
            let stream = framed(first) + rest;
            let n = be32(stream.take(4), 0);
            &&& n == first.len()
            &&& stream.subrange(4, 4 + n) == first
            &&& stream.skip(4 + n) == rest
        }),
{
    law_frame_reads_back(first);
    let stream = framed(first) + rest;
    assert(stream.take(4) =~= framed(first).take(4));
    assert(stream.subrange(4, 4 + first.len() as int) =~= first);
    assert(stream.skip(4 + first.len() as int) =~= rest);
}

} // verus!
