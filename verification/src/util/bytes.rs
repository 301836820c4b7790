//! Byte strings: numbers in network order, fixed-size copies, concatenation.

use vstd::prelude::*;
use vstd::slice::*;

verus! {

/// The big-endian number in two bytes.
pub open spec fn be16(a: u8, b: u8) -> int {
    a * 0x100 + b
}

/// The big-endian number in the four bytes of `b` from `at` on.
pub open spec fn be32(b: Seq<u8>, at: int) -> int {
    b[at] * 0x100_0000 + b[at + 1] * 0x1_0000 + b[at + 2] * 0x100 + b[at + 3]
}

/// The little-endian number in the four bytes of `b` from `at` on.
pub open spec fn le32(b: Seq<u8>, at: int) -> int {
    b[at] + b[at + 1] * 0x100 + b[at + 2] * 0x1_0000 + b[at + 3] * 0x100_0000
}

/// The four bytes of `n`, the most significant first.
pub open spec fn be32_bytes(n: int) -> Seq<u8> {
    seq![
        (n / 0x100 / 0x100 / 0x100 % 0x100) as u8,
        (n / 0x100 / 0x100 % 0x100) as u8,
        (n / 0x100 % 0x100) as u8,
        (n % 0x100) as u8,
    ]
}

/// Reads a big-endian number of two bytes.
pub fn read_be16(b: &[u8], at: usize) -> (n: u16)
    requires
        at + 2 <= b@.len(),
    ensures
        n == be16(b@[at as int], b@[at + 1]),
{
    b[at] as u16 * 0x100 + b[at + 1] as u16
}

/// Reads a big-endian number of four bytes.
pub fn read_be32(b: &[u8], at: usize) -> (n: u32)
    requires
        at + 4 <= b@.len(),
    ensures
        n == be32(b@, at as int),
{
    b[at] as u32 * 0x100_0000 + b[at + 1] as u32 * 0x1_0000 + b[at + 2] as u32 * 0x100 + b[at
        + 3] as u32
}

/// Reads a little-endian number of four bytes.
pub fn read_le32(b: &[u8], at: usize) -> (n: u32)
    requires
        at + 4 <= b@.len(),
    ensures
        n == le32(b@, at as int),
{
    b[at] as u32 + b[at + 1] as u32 * 0x100 + b[at + 2] as u32 * 0x1_0000 + b[at + 3] as u32
        * 0x100_0000
}

/// The four bytes of `n`, the most significant first.
pub fn write_be32(n: u32) -> (r: [u8; 4])
    ensures
        r@ == be32_bytes(n as int),
        be32(r@, 0) == n,
{
    let high: u32 = n / 0x100;
    let higher: u32 = high / 0x100;
    let highest: u32 = higher / 0x100;
    let r: [u8; 4] = [
        highest as u8,
        (higher % 0x100) as u8,
        (high % 0x100) as u8,
        (n % 0x100) as u8,
    ];
    assert(r@ =~= be32_bytes(n as int));
    r
}

/// Four bytes written in network order read back as the number.
pub proof fn lemma_be32_bytes(n: u32)
    ensures
        be32_bytes(n as int).len() == 4,
        be32(be32_bytes(n as int), 0) == n,
{
}

/// Appends the bytes of `b`.
pub fn append_bytes(out: &mut Vec<u8>, b: &[u8])
    ensures
        final(out)@ == old(out)@ + b@,
{
    out.extend_from_slice(b);
    assert(out@ =~= old(out)@ + b@);
}

/// A copy of the bytes.
pub fn bytes_of(b: &[u8]) -> (r: Vec<u8>)
    ensures
        r@ == b@,
{
    slice_to_vec(b)
}

/// The first `N` bytes.
pub fn array_of<const N: usize>(b: &[u8]) -> (r: [u8; N])
    requires
        N <= b@.len(),
    ensures
        r@ == b@.take(N as int),
{
    let mut out: [u8; N] = [0u8; N];
    let mut i: usize = 0;
    while i < N
        invariant
            i <= N <= b@.len(),
            forall|j: int| 0 <= j < i ==> out@[j] == b@[j],
        decreases N - i,
    {
        out[i] = b[i];
        i = i + 1;
    }
    assert(out@ =~= b@.take(N as int));
    out
}

/// The higher byte of a number of two counts 256 times, and so on for four: numbers are read
/// in network order, and in the other order where that is asked for.
pub proof fn law_bytes_have_their_places(b: Seq<u8>, at: int)
    ensures
        be16(b[at], b[at + 1]) == 256 * b[at] + b[at + 1],
        be32(b, at) == 0x1_0000 * be16(b[at], b[at + 1]) + be16(b[at + 2], b[at + 3]),
        le32(b, at) == 0x1_0000 * be16(b[at + 3], b[at + 2]) + be16(b[at + 1], b[at]),
{
}

} // verus!
