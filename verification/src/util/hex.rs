//! Bytes as hexadecimal text.

use vstd::prelude::*;
use vstd::utf8::*;

verus! {

/// Why a text is not hexadecimal.
#[derive(Debug, Clone, Copy, PartialEq, Eq)]
pub enum HexError {
    /// A character that is no hexadecimal digit, with its place in the text.
    InvalidHexCharacter { c: char, index: usize },
    /// The text has an odd number of digits.
    OddLength,
    /// The text does not fill the target.
    InvalidStringLength,
}

/// The lower-case hexadecimal digit for `n`.
pub open spec fn hex_digit(n: int) -> char {
    if n < 10 {
        ('0' as u32 + n) as char
    } else {
        ('a' as u32 + (n - 10)) as char
    }
}

/// The bytes as lower-case hexadecimal text, two digits for each byte.
pub open spec fn hex_text(b: Seq<u8>) -> Seq<char> {
    Seq::new(
        (2 * b.len()) as nat,
        |i: int|
            if i % 2 == 0 {
                hex_digit(b[i / 2] as int / 16)
            } else {
                hex_digit(b[i / 2] as int % 16)
            },
    )
}

/// Whether the byte is a hexadecimal digit of either case.
pub open spec fn is_hex_byte(b: u8) -> bool {
    0x30 <= b <= 0x39 || 0x41 <= b <= 0x46 || 0x61 <= b <= 0x66
}

/// The value of a hexadecimal digit.
pub open spec fn hex_value(b: u8) -> int {
    if b <= 0x39 {
        b - 0x30
    } else if b <= 0x46 {
        b - 0x41 + 10
    } else {
        b - 0x61 + 10
    }
}

/// The place of the first byte from `from` on that is no hexadecimal digit, or the
/// length.
pub open spec fn first_non_hex(b: Seq<u8>, from: int) -> int
    decreases b.len() - from,
{
    if 0 <= from < b.len() && is_hex_byte(b[from]) {
        first_non_hex(b, from + 1)
    } else {
        from
    }
}

/// What a hexadecimal text stands for. The digits are the bytes of the text.
pub open spec fn unhex(s: Seq<char>) -> Result<Seq<u8>, HexError> {
    let b = encode_utf8(s);
    let bad = first_non_hex(b, 0);
    if b.len() % 2 != 0 {
        Err(HexError::OddLength)
    } else if bad < b.len() {
        Err(HexError::InvalidHexCharacter { c: b[bad] as char, index: bad as usize })
    } else {
        Ok(
            Seq::new(
                (b.len() / 2) as nat,
                |i: int| (16 * hex_value(b[2 * i]) + hex_value(b[2 * i + 1])) as u8,
            ),
        )
    }
}

/// `hex::encode`: each byte becomes two lower-case digits, the high half first.
#[verifier::external_body]
pub(crate) fn encode(data: &[u8]) -> (r: String)
    ensures
        r@ == hex_text(data@),
{
    hex::encode(data)
}

/// `hex::decode`: an odd number of bytes is refused first, then the first byte that
/// is no digit; else each two digits become a byte. Both cases of letters are read.
#[verifier::external_body]
pub(crate) fn decode(text: &str) -> (r: Result<Vec<u8>, HexError>)
    ensures
        match r {
            Ok(v) => unhex(text@) == Ok::<Seq<u8>, HexError>(v@),
            Err(e) => unhex(text@) == Err::<Seq<u8>, HexError>(e),
        },
{
    match hex::decode(text) {
        Ok(v) => Ok(v),
        Err(hex::FromHexError::InvalidHexCharacter { c, index }) => {
            Err(HexError::InvalidHexCharacter { c, index })
        },
        Err(hex::FromHexError::OddLength) => Err(HexError::OddLength),
        Err(hex::FromHexError::InvalidStringLength) => Err(HexError::InvalidStringLength),
    }
}

/// Where every byte is a digit there is no first one that is none.
proof fn lemma_all_hex(b: Seq<u8>, from: int)
    requires
        0 <= from <= b.len(),
        forall|i: int| 0 <= i < b.len() ==> is_hex_byte(#[trigger] b[i]),
    ensures
        first_non_hex(b, from) == b.len(),
    decreases b.len() - from,
{
    if from < b.len() {
        lemma_all_hex(b, from + 1);
    }
}

/// Hexadecimal text is ASCII, so its bytes are its characters.
pub proof fn lemma_hex_text_ascii(b: Seq<u8>)
    ensures
        is_ascii_chars(hex_text(b)),
        encode_utf8(hex_text(b)).len() == 2 * b.len(),
{
    assert forall|i: int| 0 <= i < hex_text(b).len() implies '\0' <= #[trigger] hex_text(b)[i]
        <= '\u{7f}' by {
        assert(0 <= b[i / 2] as int / 16 < 16);
    }
    is_ascii_chars_encode_utf8(hex_text(b));
}

/// What is written in hexadecimal reads back as the same bytes.
pub proof fn lemma_unhex_hex(b: Seq<u8>)
    ensures
        unhex(hex_text(b)) == Ok::<Seq<u8>, HexError>(b),
{
    let t = hex_text(b);
    let e = encode_utf8(t);
    lemma_hex_text_ascii(b);
    is_ascii_chars_encode_utf8(t);
    assert forall|i: int| 0 <= i < e.len() implies is_hex_byte(#[trigger] e[i]) by {
        assert(t[i] as u8 == e[i]);
        assert(0 <= b[i / 2] as int / 16 < 16);
    }
    lemma_all_hex(e, 0);
    let back = Seq::new(
        (e.len() / 2) as nat,
        |i: int| (16 * hex_value(e[2 * i]) + hex_value(e[2 * i + 1])) as u8,
    );
    assert forall|i: int| 0 <= i < b.len() implies back[i] == b[i] by {
        assert(t[2 * i] as u8 == e[2 * i]);
        assert(t[2 * i + 1] as u8 == e[2 * i + 1]);
        assert((2 * i) / 2 == i && (2 * i + 1) / 2 == i && (2 * i + 1) % 2 == 1);
        assert(0 <= b[i] as int / 16 < 16);
    }
    assert(back =~= b);
}

/// Different byte strings have different hexadecimal texts.
pub proof fn lemma_hex_injective(a: Seq<u8>, b: Seq<u8>)
    requires
        hex_text(a) == hex_text(b),
    ensures
        a == b,
{
    lemma_unhex_hex(a);
    lemma_unhex_hex(b);
}

} // verus!
