//! The safety number by which two people compare, outside the network, that each
//! has the other's key.

use vstd::prelude::*;
use vstd::utf8::*;

use crate::crypto::primitives::{blake3_digest, blake3_of};
use crate::util::bytes::{append_bytes, bytes_of, le32, read_le32};
use crate::util::text::{
    digit, digit_char, digits_value, is_digit, law_digits_have_their_places, is_text_before, lemma_text_before_irreflexive,
    lemma_text_before_total, lemma_text_before_transitive, text_before,
};

verus! {

/// What is digested for a pair of accounts: a fixed context, the account that comes
/// first, a line feed, the other one.
pub open spec fn safety_material(id_a: Seq<char>, id_b: Seq<char>) -> Seq<u8> {
    let (lo, hi) = if text_before(id_b, id_a) {
        (id_b, id_a)
    } else {
        (id_a, id_b)
    };
    encode_utf8("void-connect/safety-number/v1"@) + encode_utf8(lo) + seq![0x0au8] + encode_utf8(hi)
}

/// Ten to the power of `n`, for the five places of a group.
pub open spec fn place(n: int) -> int {
    if n <= 0 {
        1
    } else if n == 1 {
        10
    } else if n == 2 {
        100
    } else if n == 3 {
        1000
    } else {
        10000
    }
}

/// The number that a group of the code shows: four bytes of the digest, little end
/// first, modulo a hundred thousand.
pub open spec fn group_value(digest: Seq<u8>, group: int) -> int {
    le32(digest, 4 * group) % 100_000
}

/// The code that a digest gives: eight groups of five digits with a space between
/// the groups.
pub open spec fn safety_text(digest: Seq<u8>) -> Seq<char> {
    Seq::new(
        47,
        |i: int|
            if i % 6 == 5 {
                ' '
            } else {
                digit(group_value(digest, i / 6) / place(4 - i % 6) % 10)
            },
    )
}

/// The safety number of two accounts.
pub open spec fn safety_code(id_a: Seq<char>, id_b: Seq<char>) -> Seq<char> {
    safety_text(blake3_of(safety_material(id_a, id_b)))
}

/// The safety number of two accounts.
pub fn safety_number(id_a: &str, id_b: &str) -> (r: String)
    ensures
        r@ == safety_code(id_a@, id_b@),
{
    let swapped: bool = is_text_before(id_b, id_a);
    let (lo, hi): (&str, &str) = if swapped {
        (id_b, id_a)
    } else {
        (id_a, id_b)
    };
    let mut material: Vec<u8> = bytes_of("void-connect/safety-number/v1".as_bytes());
    append_bytes(&mut material, lo.as_bytes());
    material.push(0x0a);
    append_bytes(&mut material, hi.as_bytes());
    assert(material@ =~= safety_material(id_a@, id_b@));
    let digest: [u8; 32] = blake3_digest(material.as_slice());
    safety_digits(&digest)
}

/// The code that a digest gives.
pub fn safety_digits(digest: &[u8; 32]) -> (r: String)
    ensures
        r@ == safety_text(digest@),
{
    let mut out: String = String::new();
    let mut group: usize = 0;
    while group < 8
        invariant
            group <= 8,
            out@ == safety_text(digest@).take(if group == 0 {
                0
            } else {
                6 * group - 1
            }),
        decreases 8 - group,
    {
        let v: u32 = read_le32(digest, 4 * group) % 100_000;
        let ghost before = out@;
        if group > 0 {
            out.push(' ');
        }
        out.push(digit_char((v / 10000 % 10) as u8));
        out.push(digit_char((v / 1000 % 10) as u8));
        out.push(digit_char((v / 100 % 10) as u8));
        out.push(digit_char((v / 10 % 10) as u8));
        out.push(digit_char((v % 10) as u8));
        proof {
            let t = safety_text(digest@);
            let g = 6 * group as int;
            assert(v == group_value(digest@, group as int));
            assert(g / 6 == group && (g + 1) / 6 == group && (g + 2) / 6 == group && (g + 3) / 6
                == group && (g + 4) / 6 == group);
            assert(g % 6 == 0 && (g + 1) % 6 == 1 && (g + 2) % 6 == 2 && (g + 3) % 6 == 3 && (g
                + 4) % 6 == 4);
            if group > 0 {
                assert((g - 1) % 6 == 5);
                assert(t.take(g) =~= before.push(' '));
            } else {
                assert(t.take(g) =~= before);
            }
            assert(out@ =~= t.take(g + 5));
        }
        group = group + 1;
    }
    assert(safety_text(digest@).take(47) =~= safety_text(digest@));
    out
}

/// Both sides of a pair see the same safety number.
pub proof fn law_safety_number_symmetric(id_a: Seq<char>, id_b: Seq<char>)
    ensures
        safety_code(id_a, id_b) == safety_code(id_b, id_a),
{
    if id_a != id_b {
        lemma_text_before_total(id_a, id_b);
        if text_before(id_a, id_b) && text_before(id_b, id_a) {
            lemma_text_before_transitive(id_a, id_b, id_a);
            lemma_text_before_irreflexive(id_a);
        }
    }
}

/// A safety number is forty digits in eight groups of five with single spaces
/// between them.
pub proof fn law_safety_number_format(id_a: Seq<char>, id_b: Seq<char>)
    ensures
        safety_code(id_a, id_b).len() == 47,
        forall|i: int|
            0 <= i < 47 ==> if i % 6 == 5 {
                #[trigger] safety_code(id_a, id_b)[i] == ' '
            } else {
                is_digit(safety_code(id_a, id_b)[i])
            },
{
}

/// The bytes before and after the first occurrence of a byte are fixed by the whole,
/// where the parts before it hold no such byte.
proof fn lemma_first_cut(a: Seq<u8>, b: Seq<u8>, c: Seq<u8>, d: Seq<u8>, cut: u8)
    requires
        a + seq![cut] + b == c + seq![cut] + d,
        !a.contains(cut),
        !c.contains(cut),
    ensures
        a == c,
        b == d,
{
    let x = a + seq![cut] + b;
    let y = c + seq![cut] + d;
    if a.len() < c.len() {
        assert(x[a.len() as int] == cut);
        assert(y[a.len() as int] == c[a.len() as int]);
    } else if c.len() < a.len() {
        assert(y[c.len() as int] == cut);
        assert(x[c.len() as int] == a[c.len() as int]);
    }
    assert(a =~= x.take(a.len() as int));
    assert(c =~= y.take(c.len() as int));
    assert(b =~= x.skip(a.len() as int + 1));
    assert(d =~= y.skip(c.len() as int + 1));
}

/// Another peer gives other material to digest: with our own account fixed, two
/// different peers' accounts never lead to the same bytes, as long as no account
/// holds a line feed.
pub proof fn law_safety_material_tells_peers_apart(me: Seq<char>, a: Seq<char>, b: Seq<char>)
    requires
        !encode_utf8(me).contains(0x0au8),
        !encode_utf8(a).contains(0x0au8),
        !encode_utf8(b).contains(0x0au8),
        safety_material(me, a) == safety_material(me, b),
    ensures
        a == b,
{
    let head = encode_utf8("void-connect/safety-number/v1"@);
    let (lo_a, hi_a) = if text_before(a, me) {
        (a, me)
    } else {
        (me, a)
    };
    let (lo_b, hi_b) = if text_before(b, me) {
        (b, me)
    } else {
        (me, b)
    };
    let rest_a = encode_utf8(lo_a) + seq![0x0au8] + encode_utf8(hi_a);
    let rest_b = encode_utf8(lo_b) + seq![0x0au8] + encode_utf8(hi_b);
    assert(rest_a =~= safety_material(me, a).skip(head.len() as int));
    assert(rest_b =~= safety_material(me, b).skip(head.len() as int));
    lemma_first_cut(
        encode_utf8(lo_a),
        encode_utf8(hi_a),
        encode_utf8(lo_b),
        encode_utf8(hi_b),
        0x0au8,
    );
    encode_utf8_decode_utf8(me);
    encode_utf8_decode_utf8(a);
    encode_utf8_decode_utf8(b);
}

/// Each group of a safety number shows, in five digits, four bytes of the digest, little end
/// first, modulo a hundred thousand; a space stands between two groups.
pub proof fn law_groups_show_the_digest(digest: Seq<u8>, group: int)
    requires
        digest.len() == 32,
        0 <= group < 8,
    ensures
        safety_text(digest).len() == 47,
        digits_value(safety_text(digest).subrange(6 * group, 6 * group + 5)) == (digest[4 * group]
            + 0x100 * digest[4 * group + 1] + 0x1_0000 * digest[4 * group + 2] + 0x100_0000
            * digest[4 * group + 3]) % 100_000,
        group < 7 ==> safety_text(digest)[6 * group + 5] == ' ',
{
    let t = safety_text(digest);
    let g: int = 6 * group;
    let s = t.subrange(g, g + 5);
    let v = group_value(digest, group);
    lemma_places_of_a_group(group);
    lemma_five_digits(v);
    assert(s =~= five_digits(v)) by {
        assert(s[0] == t[g] && s[1] == t[g + 1] && s[2] == t[g + 2] && s[3] == t[g + 3] && s[4]
            == t[g + 4]);
    }
}

/// Five decimal digits.
spec fn five_digits(v: int) -> Seq<char> {
    seq![
        digit(v / 10000 % 10),
        digit(v / 1000 % 10),
        digit(v / 100 % 10),
        digit(v / 10 % 10),
        digit(v / 1 % 10),
    ]
}

/// The places of a group in the text.
proof fn lemma_places_of_a_group(group: int)
    ensures
        forall|i: int|
            0 <= i < 6 ==> (#[trigger] (6 * group + i)) / 6 == group && (6 * group + i) % 6 == i,
{
}

/// Five digits stand for the number.
proof fn lemma_five_digits(v: int)
    requires
        0 <= v < 100_000,
    ensures
        digits_value(five_digits(v)) == v,
{
    let a: int = v / 10000 % 10;
    let b: int = v / 1000 % 10;
    let c: int = v / 100 % 10;
    let d: int = v / 10 % 10;
    let e: int = v / 1 % 10;
    lemma_digits_of(a, b, c, d, e);
    assert(v / 10000 == a);
    assert(v / 1000 == 10 * (v / 10000) + b);
    assert(v / 100 == 10 * (v / 1000) + c);
    assert(v / 10 == 10 * (v / 100) + d);
    assert(v == 10 * (v / 10) + e);
}

/// Digits have their places.
proof fn lemma_digits_of(a: int, b: int, c: int, d: int, e: int)
    requires
        0 <= a < 10,
        0 <= b < 10,
        0 <= c < 10,
        0 <= d < 10,
        0 <= e < 10,
    ensures
        digits_value(seq![digit(a), digit(b), digit(c), digit(d), digit(e)]) == 10 * (10 * (10 * (10
            * a + b) + c) + d) + e,
{
    let s = seq![digit(a), digit(b), digit(c), digit(d), digit(e)];
    law_digits_have_their_places(seq![], digit(a));
    law_digits_have_their_places(s.take(1), digit(b));
    law_digits_have_their_places(s.take(2), digit(c));
    law_digits_have_their_places(s.take(3), digit(d));
    law_digits_have_their_places(s.take(4), digit(e));
    assert(Seq::<char>::empty().push(digit(a)) =~= s.take(1));
    assert(s.take(1).push(digit(b)) =~= s.take(2));
    assert(s.take(2).push(digit(c)) =~= s.take(3));
    assert(s.take(3).push(digit(d)) =~= s.take(4));
    assert(s.take(4).push(digit(e)) =~= s);
}

/// What is digested for two accounts is the context and both of them with a line feed
/// between, the one that comes first in the first place.
pub proof fn law_first_account_is_digested_first(a: Seq<char>, b: Seq<char>)
    requires
        text_before(a, b),
    ensures
        safety_material(a, b) == encode_utf8("void-connect/safety-number/v1"@) + encode_utf8(a)
            + seq![0x0au8] + encode_utf8(b),
        safety_material(b, a) == safety_material(a, b),
        safety_code(a, b) == safety_text(blake3_of(safety_material(a, b))),
{
    if text_before(b, a) {
        lemma_text_before_transitive(a, b, a);
        lemma_text_before_irreflexive(a);
    }
}

} // verus!
