//! Text as sequences of characters: trimming, comparing, numbers in decimal.

use vstd::prelude::*;
use vstd::slice::*;
use vstd::utf8::*;

verus! {

/// `String::push` of std: the character is appended at the end.
pub assume_specification[ String::push ](s: &mut String, ch: char)
    ensures
        final(s)@ == old(s)@.push(ch),
;

/// The characters with the Unicode property `White_Space`.
pub open spec fn white_space(c: char) -> bool {
    ||| 0x09 <= c as u32 <= 0x0d
    ||| c as u32 == 0x20
    ||| c as u32 == 0x85
    ||| c as u32 == 0xa0
    ||| c as u32 == 0x1680
    ||| 0x2000 <= c as u32 <= 0x200a
    ||| c as u32 == 0x2028
    ||| c as u32 == 0x2029
    ||| c as u32 == 0x202f
    ||| c as u32 == 0x205f
    ||| c as u32 == 0x3000
}

/// `char::is_whitespace` of std: whether the character has the Unicode property
/// `White_Space`.
pub assume_specification[ char::is_whitespace ](c: char) -> (r: bool)
    ensures
        r == white_space(c),
;

/// `s` without the longest run of leading characters that satisfy `p`.
pub open spec fn drop_leading(s: Seq<char>, p: spec_fn(char) -> bool) -> Seq<char>
    decreases s.len(),
{
    if s.len() > 0 && p(s[0]) {
        drop_leading(s.drop_first(), p)
    } else {
        s
    }
}

/// `s` without the longest run of trailing characters that satisfy `p`.
pub open spec fn drop_trailing(s: Seq<char>, p: spec_fn(char) -> bool) -> Seq<char>
    decreases s.len(),
{
    if s.len() > 0 && p(s.last()) {
        drop_trailing(s.drop_last(), p)
    } else {
        s
    }
}

/// The property of being white space.
pub open spec fn is_white() -> spec_fn(char) -> bool {
    |x: char| white_space(x)
}

/// The property of being the character `c`.
pub open spec fn is_char(c: char) -> spec_fn(char) -> bool {
    |x: char| x == c
}

/// `s` without white space at either end.
pub open spec fn trim_text(s: Seq<char>) -> Seq<char> {
    drop_trailing(drop_leading(s, is_white()), is_white())
}

/// `s` without the character `c` at either end.
pub open spec fn trim_char(s: Seq<char>, c: char) -> Seq<char> {
    drop_trailing(drop_leading(s, is_char(c)), is_char(c))
}

/// `s` with every trailing occurrence of `suffix` taken away.
pub open spec fn drop_suffixes(s: Seq<char>, suffix: Seq<char>) -> Seq<char>
    decreases s.len(),
{
    if suffix.len() > 0 && suffix.is_suffix_of(s) {
        drop_suffixes(s.subrange(0, s.len() - suffix.len()), suffix)
    } else {
        s
    }
}

/// What is left after dropping leading characters starts with none of them, and
/// nothing else is lost.
pub proof fn lemma_drop_leading(s: Seq<char>, p: spec_fn(char) -> bool)
    ensures
        drop_leading(s, p).is_suffix_of(s),
        drop_leading(s, p).len() > 0 ==> !p(drop_leading(s, p)[0]),
    decreases s.len(),
{
    if s.len() > 0 && p(s[0]) {
        lemma_drop_leading(s.drop_first(), p);
        let r = drop_leading(s, p);
        assert(r =~= s.subrange(s.len() - r.len(), s.len() as int));
    }
}

/// What is left after dropping trailing characters ends with none of them, and
/// nothing else is lost.
pub proof fn lemma_drop_trailing(s: Seq<char>, p: spec_fn(char) -> bool)
    ensures
        drop_trailing(s, p).is_prefix_of(s),
        drop_trailing(s, p).len() > 0 ==> !p(drop_trailing(s, p).last()),
    decreases s.len(),
{
    if s.len() > 0 && p(s.last()) {
        lemma_drop_trailing(s.drop_last(), p);
    }
}

/// Where nothing leading or trailing satisfies `p`, nothing is dropped.
pub proof fn lemma_nothing_to_drop(s: Seq<char>, p: spec_fn(char) -> bool)
    requires
        s.len() > 0 ==> !p(s[0]) && !p(s.last()),
    ensures
        drop_leading(s, p) == s,
        drop_trailing(s, p) == s,
{
}

/// The characters of a text.
pub fn chars_of(s: &str) -> (r: Vec<char>)
    ensures
        r@ == s@,
{
    let mut out: Vec<char> = Vec::new();
    for c in it: s.chars()
        invariant
            out@ == s@.take(it.index() as int),
            it.seq() == s@,
    {
        out.push(c);
    }
    out
}

/// The text made of the given characters.
pub fn text_of(chars: &[char]) -> (r: String)
    ensures
        r@ == chars@,
{
    let mut out: String = String::new();
    let mut i: usize = 0;
    while i < chars.len()
        invariant
            i <= chars@.len(),
            out@ == chars@.take(i as int),
        decreases chars@.len() - i,
    {
        out.push(chars[i]);
        i = i + 1;
    }
    assert(chars@.take(i as int) == chars@);
    out
}

/// Whether two texts are equal.
pub fn same_text(a: &str, b: &str) -> (r: bool)
    ensures
        r == (a@ == b@),
{
    let r: bool = same_bytes(a.as_bytes(), b.as_bytes());
    proof {
        encode_utf8_decode_utf8(a@);
        encode_utf8_decode_utf8(b@);
    }
    r
}

/// Whether two byte strings are equal.
pub fn same_bytes(a: &[u8], b: &[u8]) -> (r: bool)
    ensures
        r == (a@ == b@),
{
    if a.len() != b.len() {
        return false;
    }
    let mut i: usize = 0;
    while i < a.len()
        invariant
            i <= a@.len(),
            a@.len() == b@.len(),
            forall|j: int| 0 <= j < i ==> a@[j] == b@[j],
        decreases a@.len() - i,
    {
        if a[i] != b[i] {
            return false;
        }
        i = i + 1;
    }
    assert(a@ =~= b@);
    true
}

/// Whether `a` and `b` first differ at `k`, and `a` is the smaller one there.
pub open spec fn smaller_at(a: Seq<u8>, b: Seq<u8>, k: int) -> bool {
    &&& 0 <= k <= a.len()
    &&& k < b.len()
    &&& a.take(k) == b.take(k)
    &&& k == a.len() || a[k] < b[k]
}

/// The lexicographic order of byte strings: a proper prefix comes first, else the
/// first difference decides.
pub open spec fn bytes_before(a: Seq<u8>, b: Seq<u8>) -> bool {
    exists|k: int| smaller_at(a, b, k)
}

/// The order of texts: that of their UTF-8 bytes.
pub open spec fn text_before(a: Seq<char>, b: Seq<char>) -> bool {
    bytes_before(encode_utf8(a), encode_utf8(b))
}

/// No text comes before itself.
pub proof fn lemma_text_before_irreflexive(a: Seq<char>)
    ensures
        !text_before(a, a),
{
}

/// Of two different texts one comes before the other.
pub proof fn lemma_text_before_total(a: Seq<char>, b: Seq<char>)
    requires
        a != b,
    ensures
        text_before(a, b) || text_before(b, a),
{
    let x = encode_utf8(a);
    let y = encode_utf8(b);
    encode_utf8_decode_utf8(a);
    encode_utf8_decode_utf8(b);
    lemma_bytes_before_total(x, y);
}

/// Of two different byte strings one comes before the other.
pub proof fn lemma_bytes_before_total(x: Seq<u8>, y: Seq<u8>)
    requires
        x != y,
    ensures
        bytes_before(x, y) || bytes_before(y, x),
    decreases x.len(),
{
    if x.len() == 0 {
        assert(y.len() > 0) by {
            if y.len() == 0 {
                assert(x =~= y);
            }
        }
        assert(x.take(0) =~= y.take(0));
        assert(smaller_at(x, y, 0));
    } else if y.len() == 0 {
        assert(x.take(0) =~= y.take(0));
        assert(smaller_at(y, x, 0));
    } else if x[0] != y[0] {
        assert(x.take(0) =~= y.take(0));
        assert(smaller_at(x, y, 0) || smaller_at(y, x, 0));
    } else {
        let u = x.drop_first();
        let v = y.drop_first();
        assert(x =~= seq![x[0]] + u);
        assert(y =~= seq![y[0]] + v);
        lemma_bytes_before_total(u, v);
        if bytes_before(u, v) {
            let k: int = choose|k: int| smaller_at(u, v, k);
            assert(x.take(k + 1) =~= seq![x[0]] + u.take(k));
            assert(y.take(k + 1) =~= seq![y[0]] + v.take(k));
            assert(smaller_at(x, y, k + 1));
        } else {
            let k: int = choose|k: int| smaller_at(v, u, k);
            assert(x.take(k + 1) =~= seq![x[0]] + u.take(k));
            assert(y.take(k + 1) =~= seq![y[0]] + v.take(k));
            assert(smaller_at(y, x, k + 1));
        }
    }
}

/// The order of byte strings is transitive.
pub proof fn lemma_bytes_before_transitive(a: Seq<u8>, b: Seq<u8>, c: Seq<u8>)
    requires
        bytes_before(a, b),
        bytes_before(b, c),
    ensures
        bytes_before(a, c),
{
    let i: int = choose|k: int| smaller_at(a, b, k);
    let j: int = choose|k: int| smaller_at(b, c, k);
    let k: int = if i < j {
        i
    } else {
        j
    };
    assert(a.take(k) =~= a.take(i).take(k));
    assert(b.take(k) =~= b.take(i).take(k));
    assert(b.take(k) =~= b.take(j).take(k));
    assert(c.take(k) =~= c.take(j).take(k));
    if i < j {
        assert(b.take(j)[i] == b[i]);
        assert(c.take(j)[i] == c[i]);
    } else if j < i {
        assert(b.take(i)[j] == b[j]);
        assert(a.take(i)[j] == a[j]);
    }
    assert(smaller_at(a, c, k));
}

/// The order of texts is transitive.
pub proof fn lemma_text_before_transitive(a: Seq<char>, b: Seq<char>, c: Seq<char>)
    requires
        text_before(a, b),
        text_before(b, c),
    ensures
        text_before(a, c),
{
    lemma_bytes_before_transitive(encode_utf8(a), encode_utf8(b), encode_utf8(c));
}

/// Whether the text `a` comes before the text `b`.
pub fn is_text_before(a: &str, b: &str) -> (r: bool)
    ensures
        r == text_before(a@, b@),
{
    let x: &[u8] = a.as_bytes();
    let y: &[u8] = b.as_bytes();
    let mut i: usize = 0;
    while i < x.len() && i < y.len()
        invariant
            i <= x@.len(),
            i <= y@.len(),
            x@ == encode_utf8(a@),
            y@ == encode_utf8(b@),
            x@.take(i as int) == y@.take(i as int),
        decreases x@.len() - i,
    {
        if x[i] < y[i] {
            assert(smaller_at(x@, y@, i as int));
            return true;
        }
        if y[i] < x[i] {
            assert forall|k: int| !smaller_at(x@, y@, k) by {
                if i < k <= x@.len() && k <= y@.len() {
                    assert(x@.take(k)[i as int] == x@[i as int]);
                    assert(y@.take(k)[i as int] == y@[i as int]);
                } else if 0 <= k < i {
                    assert(x@.take(i as int)[k] == x@[k]);
                    assert(y@.take(i as int)[k] == y@[k]);
                }
            }
            return false;
        }
        assert(x@.take(i + 1) =~= x@.take(i as int).push(x@[i as int]));
        assert(y@.take(i + 1) =~= y@.take(i as int).push(y@[i as int]));
        i = i + 1;
    }
    if i < y.len() {
        assert(smaller_at(x@, y@, i as int));
        true
    } else {
        assert forall|k: int| !smaller_at(x@, y@, k) by {
            if 0 <= k < i {
                assert(x@.take(i as int)[k] == x@[k]);
                assert(y@.take(i as int)[k] == y@[k]);
            }
        }
        false
    }
}

/// The characters without white space at either end.
pub fn trim_white(s: &[char]) -> (r: &[char])
    ensures
        r@ == trim_text(s@),
{
    let ghost p = is_white();
    let mut i: usize = 0;
    assert(s@.skip(0) =~= s@);
    while i < s.len() && s[i].is_whitespace()
        invariant
            i <= s@.len(),
            p == is_white(),
            drop_leading(s@, p) == drop_leading(s@.skip(i as int), p),
        decreases s@.len() - i,
    {
        assert(s@.skip(i as int).drop_first() =~= s@.skip(i + 1));
        i = i + 1;
    }
    let rest: &[char] = slice_subrange(s, i, s.len());
    let mut j: usize = rest.len();
    assert(rest@.take(j as int) =~= rest@);
    while j > 0 && rest[j - 1].is_whitespace()
        invariant
            j <= rest@.len(),
            p == is_white(),
            drop_trailing(rest@, p) == drop_trailing(rest@.take(j as int), p),
        decreases j,
    {
        assert(rest@.take(j as int).drop_last() =~= rest@.take(j - 1));
        j = j - 1;
    }
    slice_subrange(rest, 0, j)
}

/// The characters without `c` at either end.
pub fn trim_matching(s: &[char], c: char) -> (r: &[char])
    ensures
        r@ == trim_char(s@, c),
{
    let ghost p = is_char(c);
    let rest: &[char] = skip_matching(s, c);
    let mut j: usize = rest.len();
    assert(rest@.take(j as int) =~= rest@);
    while j > 0 && rest[j - 1] == c
        invariant
            j <= rest@.len(),
            p == is_char(c),
            drop_trailing(rest@, p) == drop_trailing(rest@.take(j as int), p),
        decreases j,
    {
        assert(rest@.take(j as int).drop_last() =~= rest@.take(j - 1));
        j = j - 1;
    }
    slice_subrange(rest, 0, j)
}

/// The characters without `c` at the front.
pub fn skip_matching(s: &[char], c: char) -> (r: &[char])
    ensures
        r@ == drop_leading(s@, is_char(c)),
{
    let ghost p = is_char(c);
    let mut i: usize = 0;
    assert(s@.skip(0) =~= s@);
    while i < s.len() && s[i] == c
        invariant
            i <= s@.len(),
            p == is_char(c),
            drop_leading(s@, p) == drop_leading(s@.skip(i as int), p),
        decreases s@.len() - i,
    {
        assert(s@.skip(i as int).drop_first() =~= s@.skip(i + 1));
        i = i + 1;
    }
    slice_subrange(s, i, s.len())
}

/// Whether `s` ends with `suffix`.
pub fn has_suffix(s: &[char], suffix: &[char]) -> (r: bool)
    ensures
        r == suffix@.is_suffix_of(s@),
{
    if suffix.len() > s.len() {
        return false;
    }
    let base: usize = s.len() - suffix.len();
    let mut i: usize = 0;
    while i < suffix.len()
        invariant
            i <= suffix@.len(),
            base + suffix@.len() == s@.len(),
            s@.len() == s.len(),
            forall|j: int| base <= j < base + i ==> suffix@[j - base] == #[trigger] s@[j],
        decreases suffix@.len() - i,
    {
        if suffix[i] != s[base + i] {
            assert(s@.subrange(base as int, s@.len() as int)[i as int] == s@[base + i]);
            return false;
        }
        i = i + 1;
    }
    let ghost tail = s@.subrange(base as int, s@.len() as int);
    assert forall|j: int| 0 <= j < suffix@.len() implies suffix@[j] == tail[j] by {
        assert(tail[j] == s@[base + j]);
    }
    assert(suffix@ =~= tail);
    true
}

/// Whether `s` starts with `prefix`.
pub fn has_prefix(s: &[char], prefix: &[char]) -> (r: bool)
    ensures
        r == prefix@.is_prefix_of(s@),
{
    if prefix.len() > s.len() {
        return false;
    }
    let mut i: usize = 0;
    while i < prefix.len()
        invariant
            i <= prefix@.len() <= s@.len(),
            forall|j: int| 0 <= j < i ==> prefix@[j] == s@[j],
        decreases prefix@.len() - i,
    {
        if prefix[i] != s[i] {
            assert(s@.subrange(0, prefix@.len() as int)[i as int] == s@[i as int]);
            return false;
        }
        i = i + 1;
    }
    assert(prefix@ =~= s@.subrange(0, prefix@.len() as int));
    true
}

/// The characters with every trailing occurrence of `suffix` taken away.
pub fn strip_suffixes<'a>(s: &'a [char], suffix: &[char]) -> (r: &'a [char])
    requires
        suffix@.len() > 0,
    ensures
        r@ == drop_suffixes(s@, suffix@),
{
    let mut n: usize = s.len();
    assert(s@.subrange(0, n as int) =~= s@);
    while has_suffix(slice_subrange(s, 0, n), suffix)
        invariant
            n <= s@.len(),
            suffix@.len() > 0,
            drop_suffixes(s@, suffix@) == drop_suffixes(s@.subrange(0, n as int), suffix@),
        decreases n,
    {
        assert(s@.subrange(0, n as int).subrange(0, n - suffix@.len()) =~= s@.subrange(
            0,
            n - suffix@.len(),
        ));
        n = n - suffix.len();
    }
    slice_subrange(s, 0, n)
}

/// The decimal digit `d`.
pub open spec fn digit(d: int) -> char {
    ('0' as u32 + d) as char
}

/// `n` in decimal, without leading zeros.
pub open spec fn decimal(n: nat) -> Seq<char>
    decreases n,
{
    if n < 10 {
        seq![digit(n as int)]
    } else {
        decimal(n / 10).push(digit(n as int % 10))
    }
}

/// The decimal digit `d`.
pub fn digit_char(d: u8) -> (c: char)
    requires
        d < 10,
    ensures
        c == digit(d as int),
{
    (48 + d) as char
}

/// Appends `n` in decimal.
pub fn push_decimal(out: &mut String, n: u64)
    ensures
        final(out)@ == old(out)@ + decimal(n as nat),
    decreases n,
{
    if n >= 10 {
        push_decimal(out, n / 10);
    }
    out.push(digit_char((n % 10) as u8));
}

/// Whether the character is a decimal digit.
pub open spec fn is_digit(c: char) -> bool {
    '0' <= c && c <= '9'
}

/// The number that a run of decimal digits stands for.
pub open spec fn digits_value(s: Seq<char>) -> nat
    decreases s.len(),
{
    if s.len() == 0 {
        0
    } else {
        (digits_value(s.drop_last()) * 10 + (s.last() as u32 - '0' as u32)) as nat
    }
}

/// Whether all characters are decimal digits.
pub open spec fn all_digits(s: Seq<char>) -> bool {
    forall|i: int| 0 <= i < s.len() ==> is_digit(#[trigger] s[i])
}

/// The text without an optional plus sign at its front.
pub open spec fn after_plus(s: Seq<char>) -> Seq<char> {
    if s.len() > 0 && s[0] == '+' {
        s.drop_first()
    } else {
        s
    }
}

/// A number as `u16` reads it: an optional plus sign, at least one digit, nothing
/// else, and a value that fits.
pub open spec fn parse_u16_text(s: Seq<char>) -> Option<u16> {
    let digits = after_plus(s);
    if digits.len() > 0 && all_digits(digits) && digits_value(digits) <= u16::MAX {
        Some(digits_value(digits) as u16)
    } else {
        None
    }
}

/// More digits never make the number smaller.
proof fn lemma_digits_value_grows(s: Seq<char>, n: int)
    requires
        0 <= n <= s.len(),
        all_digits(s),
    ensures
        digits_value(s.take(n)) <= digits_value(s),
    decreases s.len(),
{
    if n == s.len() {
        assert(s.take(n) =~= s);
    } else {
        lemma_digits_value_grows(s.drop_last(), n);
        assert(s.drop_last().take(n) =~= s.take(n));
    }
}

/// Reads a number.
pub fn parse_u16(s: &[char]) -> (r: Option<u16>)
    ensures
        r == parse_u16_text(s@),
{
    let start: usize = if s.len() > 0 && s[0] == '+' {
        1
    } else {
        0
    };
    let digits: &[char] = slice_subrange(s, start, s.len());
    assert(digits@ =~= after_plus(s@));
    if digits.len() == 0 {
        return None;
    }
    let mut i: usize = 0;
    let mut value: u32 = 0;
    while i < digits.len()
        invariant
            i <= digits@.len(),
            digits@ == after_plus(s@),
            digits@.len() > 0,
            value == digits_value(digits@.take(i as int)),
            value <= u16::MAX,
            forall|j: int| 0 <= j < i ==> is_digit(#[trigger] digits@[j]),
        decreases digits@.len() - i,
    {
        let c: char = digits[i];
        if c < '0' || c > '9' {
            assert(!is_digit(digits@[i as int]));
            return None;
        }
        assert(digits@.take(i + 1).drop_last() =~= digits@.take(i as int));
        value = value * 10 + (c as u32 - '0' as u32);
        i = i + 1;
        if value > u16::MAX as u32 {
            proof {
                if all_digits(digits@) {
                    lemma_digits_value_grows(digits@, i as int);
                }
            }
            return None;
        }
    }
    assert(digits@.take(i as int) =~= digits@);
    Some(value as u16)
}

/// A number written in decimal reads back as itself.
pub proof fn lemma_parse_decimal(n: u16)
    ensures
        parse_u16_text(decimal(n as nat)) == Some(n),
{
    lemma_decimal_digits(n as nat);
}

/// A number in decimal is made of digits and stands for the number.
pub proof fn lemma_decimal_digits(n: nat)
    ensures
        decimal(n).len() > 0,
        all_digits(decimal(n)),
        digits_value(decimal(n)) == n,
    decreases n,
{
    if n < 10 {
        assert(decimal(n).drop_last() =~= Seq::<char>::empty());
        reveal_with_fuel(digits_value, 2);
    } else {
        lemma_decimal_digits(n / 10);
        assert(decimal(n).drop_last() =~= decimal(n / 10));
    }
}

/// The place of the first `c`, or the length.
pub open spec fn first_index(s: Seq<char>, c: char) -> int
    decreases s.len(),
{
    if s.len() == 0 || s[0] == c {
        0
    } else {
        1 + first_index(s.drop_first(), c)
    }
}

/// The pieces of `s` between the occurrences of `c`: one more than there are
/// occurrences.
pub open spec fn split_at_char(s: Seq<char>, c: char) -> Seq<Seq<char>>
    decreases s.len(),
{
    let n = first_index(s, c);
    if 0 <= n < s.len() {
        seq![s.take(n)] + split_at_char(s.skip(n + 1), c)
    } else {
        seq![s]
    }
}

/// The first occurrence, where there is one, is the character, and nothing before it
/// is.
pub proof fn lemma_first_index(s: Seq<char>, c: char)
    ensures
        0 <= first_index(s, c) <= s.len(),
        first_index(s, c) < s.len() ==> s[first_index(s, c)] == c,
        forall|i: int| 0 <= i < first_index(s, c) ==> s[i] != c,
    decreases s.len(),
{
    if s.len() > 0 && s[0] != c {
        lemma_first_index(s.drop_first(), c);
        assert forall|i: int| 0 <= i < first_index(s, c) implies s[i] != c by {
            if i > 0 {
                assert(s.drop_first()[i - 1] == s[i]);
            }
        }
    }
}

/// A place that holds `c` with none before it is the first one.
proof fn lemma_is_first_index(s: Seq<char>, c: char, n: int)
    requires
        0 <= n <= s.len(),
        n < s.len() ==> s[n] == c,
        forall|i: int| 0 <= i < n ==> s[i] != c,
    ensures
        first_index(s, c) == n,
{
    lemma_first_index(s, c);
}

/// The texts of a list of character lists.
pub open spec fn texts(v: Seq<Vec<char>>) -> Seq<Seq<char>> {
    v.map_values(|x: Vec<char>| x@)
}

/// Splits the characters at every `c`.
pub fn split_on(s: &[char], c: char) -> (r: Vec<Vec<char>>)
    ensures
        texts(r@) == split_at_char(s@, c),
        r@.len() > 0,
{
    let mut out: Vec<Vec<char>> = Vec::new();
    let mut start: usize = 0;
    let mut i: usize = 0;
    assert(s@.skip(0) =~= s@);
    assert(texts(out@) + split_at_char(s@, c) =~= split_at_char(s@, c));
    while i < s.len()
        invariant
            start <= i <= s@.len(),
            forall|j: int| start <= j < i ==> s@[j] != c,
            texts(out@) + split_at_char(s@.skip(start as int), c) == split_at_char(s@, c),
        decreases s@.len() - i,
    {
        if s[i] == c {
            let ghost rest = s@.skip(start as int);
            let ghost before = texts(out@);
            let piece: Vec<char> = slice_to_vec(slice_subrange(s, start, i));
            proof {
                assert forall|j: int| 0 <= j < i - start implies rest[j] != c by {
                    assert(rest[j] == s@[start + j]);
                }
                lemma_is_first_index(rest, c, i - start);
                assert(rest.take(i - start) =~= piece@);
                assert(rest.skip(i - start + 1) =~= s@.skip(i + 1));
            }
            out.push(piece);
            assert(texts(out@) =~= before.push(piece@));
            assert(texts(out@) + split_at_char(s@.skip(i + 1), c) =~= before + split_at_char(
                rest,
                c,
            ));
            start = i + 1;
        }
        i = i + 1;
    }
    let ghost rest = s@.skip(start as int);
    let ghost before = texts(out@);
    let piece: Vec<char> = slice_to_vec(slice_subrange(s, start, s.len()));
    proof {
        assert forall|j: int| 0 <= j < rest.len() implies rest[j] != c by {
            assert(rest[j] == s@[start + j]);
        }
        lemma_is_first_index(rest, c, rest.len() as int);
        assert(rest =~= piece@);
    }
    out.push(piece);
    assert(texts(out@) =~= before + seq![piece@]);
    out
}

/// Whether `needle` occurs in `s`.
pub open spec fn occurs_in(needle: Seq<char>, s: Seq<char>) -> bool {
    exists|i: int| occurs_at(needle, s, i)
}

/// Whether `needle` stands in `s` at the place `i`.
pub open spec fn occurs_at(needle: Seq<char>, s: Seq<char>, i: int) -> bool {
    0 <= i <= s.len() - needle.len() && s.subrange(i, i + needle.len()) == needle
}

/// Whether `needle` occurs in `s`.
pub fn contains_text(s: &[char], needle: &[char]) -> (r: bool)
    ensures
        r == occurs_in(needle@, s@),
{
    if needle.len() > s.len() {
        return false;
    }
    let mut i: usize = 0;
    let last: usize = s.len() - needle.len();
    while i <= last
        invariant
            last == s@.len() - needle@.len(),
            i <= last + 1,
            s@.len() <= usize::MAX,
            forall|j: int| 0 <= j < i ==> !occurs_at(needle@, s@, j),
        decreases last + 1 - i,
    {
        let rest: &[char] = slice_subrange(s, i, s.len());
        if has_prefix(rest, needle) {
            assert(rest@.subrange(0, needle@.len() as int) =~= s@.subrange(
                i as int,
                i + needle@.len(),
            ));
            assert(occurs_at(needle@, s@, i as int));
            return true;
        }
        assert(rest@.subrange(0, needle@.len() as int) =~= s@.subrange(
            i as int,
            i + needle@.len(),
        ));
        assert(!occurs_at(needle@, s@, i as int));
        if i == last {
            assert(forall|j: int| !occurs_at(needle@, s@, j));
            return false;
        }
        i = i + 1;
    }
    false
}

/// The bytes of two texts in a row are the bytes of the one, then of the other.
pub proof fn lemma_encode_concat(a: Seq<char>, b: Seq<char>)
    ensures
        encode_utf8(a + b) == encode_utf8(a) + encode_utf8(b),
    decreases a.len(),
{
    if a.len() == 0 {
        assert(a + b =~= b);
        assert(encode_utf8(a) + encode_utf8(b) =~= encode_utf8(b));
    } else {
        assert((a + b).drop_first() =~= a.drop_first() + b);
        lemma_encode_concat(a.drop_first(), b);
        assert(encode_utf8(a + b) =~= encode_utf8(a) + encode_utf8(b));
    }
}

/// The text of an optional borrowed text.
pub open spec fn option_text(o: Option<&str>) -> Option<Seq<char>> {
    match o {
        Some(s) => Some(s@),
        None => None,
    }
}

/// The text of an optional text.
pub open spec fn option_string(o: Option<String>) -> Option<Seq<char>> {
    match o {
        Some(s) => Some(s@),
        None => None,
    }
}

/// What `String::from_utf8_lossy` makes of bytes.
pub uninterp spec fn utf8_lossy(bytes: Seq<u8>) -> Seq<char>;

/// `String::from_utf8_lossy` of std: the text is named by `utf8_lossy`. Bytes that
/// are valid UTF-8 give the text that they encode.
#[verifier::external_body]
pub(crate) fn lossy_text(bytes: &[u8]) -> (r: String)
    ensures
        r@ == utf8_lossy(bytes@),
        valid_utf8(bytes@) ==> r@ == decode_utf8(bytes@),
{
    String::from_utf8_lossy(bytes).to_string()
}

/// A letter in lower case, if it is an ASCII letter.
pub open spec fn lower(c: char) -> char {
    if 'A' <= c && c <= 'Z' {
        (c as u32 + 32) as char
    } else {
        c
    }
}

/// A letter in lower case, if it is an ASCII letter.
pub fn lower_char(c: char) -> (r: char)
    ensures
        r == lower(c),
{
    if 'A' <= c && c <= 'Z' {
        (c as u8 + 32) as char
    } else {
        c
    }
}

/// What `str::to_lowercase` makes of a text.
pub uninterp spec fn lowercase_of(s: Seq<char>) -> Seq<char>;

/// `str::to_lowercase` of std: the text is named by `lowercase_of`. ASCII text has its
/// letters from `A` to `Z` made small, and nothing else changed.
#[verifier::external_body]
pub(crate) fn lowercase_text(s: &str) -> (r: String)
    ensures
        r@ == lowercase_of(s@),
        is_ascii_chars(s@) ==> r@ == s@.map_values(|c: char| lower(c)),
{
    s.to_lowercase()
}

/// What is dropped in front is the longest run of characters with the property: each of
/// them has it, and the first one that is left has it not.
pub proof fn law_front_is_dropped(s: Seq<char>, p: spec_fn(char) -> bool)
    ensures
        ({
            let n = s.len() - drop_leading(s, p).len();
            &&& 0 <= n <= s.len()
            &&& drop_leading(s, p) == s.skip(n)
            &&& forall|i: int| 0 <= i < n ==> p(#[trigger] s[i])
            &&& n < s.len() ==> !p(s[n])
        }),
    decreases s.len(),
{
    let n = s.len() - drop_leading(s, p).len();
    if s.len() > 0 && p(s[0]) {
        let t = s.drop_first();
        law_front_is_dropped(t, p);
        assert(drop_leading(s, p) =~= s.skip(n));
        assert forall|i: int| 0 <= i < n implies p(#[trigger] s[i]) by {
            if i > 0 {
                assert(t[i - 1] == s[i]);
            }
        }
        if n < s.len() {
            assert(t[n - 1] == s[n]);
        }
    } else {
        assert(s.skip(0) =~= s);
    }
}

/// What is dropped at the end is the longest run of characters with the property: each of
/// them has it, and the last one that is left has it not.
pub proof fn law_end_is_dropped(s: Seq<char>, p: spec_fn(char) -> bool)
    ensures
        ({
            let n = drop_trailing(s, p).len();
            &&& n <= s.len()
            &&& drop_trailing(s, p) == s.take(n as int)
            &&& forall|i: int| n <= i < s.len() ==> p(#[trigger] s[i])
            &&& n > 0 ==> !p(s[n - 1])
        }),
    decreases s.len(),
{
    let n = drop_trailing(s, p).len();
    if s.len() > 0 && p(s.last()) {
        let t = s.drop_last();
        law_end_is_dropped(t, p);
        assert(drop_trailing(s, p) =~= s.take(n as int));
        assert forall|i: int| n <= i < s.len() implies p(#[trigger] s[i]) by {
            if i < s.len() - 1 {
                assert(t[i] == s[i]);
            }
        }
        if n > 0 {
            assert(t[n - 1] == s[n - 1]);
        }
    } else {
        assert(s.take(s.len() as int) =~= s);
    }
}

/// A text that starts and ends with none of the characters is what is left when any number
/// of them stand round it: of white space, and of a single character.
pub proof fn law_only_what_stands_round_is_trimmed(
    front: Seq<char>,
    s: Seq<char>,
    end: Seq<char>,
    c: char,
)
    ensures
        (forall|i: int| 0 <= i < front.len() ==> white_space(#[trigger] front[i])) && (forall|i: int|
            0 <= i < end.len() ==> white_space(#[trigger] end[i])) && (s.len() > 0 ==> !white_space(
            s[0],
        ) && !white_space(s.last())) ==> trim_text(front + s + end) == s,
        (forall|i: int| 0 <= i < front.len() ==> #[trigger] front[i] == c) && (forall|i: int|
            0 <= i < end.len() ==> #[trigger] end[i] == c) && (s.len() > 0 ==> s[0] != c && s.last()
            != c) ==> trim_char(front + s + end, c) == s,
{
    if (forall|i: int| 0 <= i < front.len() ==> white_space(#[trigger] front[i])) && (forall|i: int|
        0 <= i < end.len() ==> white_space(#[trigger] end[i])) && (s.len() > 0 ==> !white_space(
        s[0],
    ) && !white_space(s.last())) {
        lemma_trimmed(front, s, end, is_white());
    }
    if (forall|i: int| 0 <= i < front.len() ==> #[trigger] front[i] == c) && (forall|i: int|
        0 <= i < end.len() ==> #[trigger] end[i] == c) && (s.len() > 0 ==> s[0] != c && s.last()
        != c) {
        lemma_trimmed(front, s, end, is_char(c));
    }
}

/// What stands round a text goes, and nothing else.
proof fn lemma_trimmed(
    front: Seq<char>,
    s: Seq<char>,
    end: Seq<char>,
    p: spec_fn(char) -> bool,
)
    requires
        forall|i: int| 0 <= i < front.len() ==> p(#[trigger] front[i]),
        forall|i: int| 0 <= i < end.len() ==> p(#[trigger] end[i]),
        s.len() > 0 ==> !p(s[0]) && !p(s.last()),
    ensures
        drop_trailing(drop_leading(front + s + end, p), p) == s,
{
    let all = front + s + end;
    let l = drop_leading(all, p);
    let n: int = all.len() - l.len();
    law_front_is_dropped(all, p);
    law_end_is_dropped(l, p);
    let r = drop_trailing(l, p);
    assert forall|i: int| 0 <= i < front.len() implies p(#[trigger] all[i]) by {
        assert(all[i] == front[i]);
    }
    if s.len() == 0 {
        assert forall|i: int| 0 <= i < all.len() implies p(#[trigger] all[i]) by {
            if i >= front.len() {
                assert(all[i] == end[i - front.len()]);
            }
        }
        if r.len() > 0 {
            assert(l[r.len() - 1] == all[n + r.len() - 1]);
        }
        assert(r =~= s);
    } else {
        let f: int = front.len() as int;
        assert(all[f] == s[0]);
        assert(n == f);
        assert(l =~= s + end);
        let k: int = s.len() as int;
        assert(l[k - 1] == s.last());
        assert forall|i: int| k <= i < l.len() implies p(#[trigger] l[i]) by {
            assert(l[i] == end[i - k]);
        }
        assert(r.len() == k);
        assert(r =~= s);
    }
}

/// What stands before the repeated ending does not end so any more, and the ending stands
/// after it again and again up to the end.
pub proof fn law_repeated_ending_goes(s: Seq<char>, suffix: Seq<char>)
    requires
        suffix.len() > 0,
    ensures
        !suffix.is_suffix_of(drop_suffixes(s, suffix)),
        drop_suffixes(s, suffix).is_prefix_of(s),
        (s.len() - drop_suffixes(s, suffix).len()) % suffix.len() as int == 0,
        !suffix.is_suffix_of(s) ==> drop_suffixes(s, suffix) == s,
        drop_suffixes(s + suffix, suffix) == drop_suffixes(s, suffix),
    decreases s.len(),
{
    let m: int = suffix.len() as int;
    let t = s + suffix;
    assert(t.subrange(t.len() - m, t.len() as int) =~= suffix);
    assert(t.subrange(0, t.len() - m) =~= s);
    if suffix.is_suffix_of(s) {
        let head = s.subrange(0, s.len() - m);
        law_repeated_ending_goes(head, suffix);
        let r = drop_suffixes(s, suffix);
        let d: int = head.len() - r.len();
        assert((d + m) % m == 0) by {
            vstd::arithmetic::div_mod::lemma_mod_add_multiples_vanish(d, m);
        }
        assert(r.is_prefix_of(s));
    } else {
        assert(0int % m == 0) by {
            vstd::arithmetic::div_mod::lemma_small_mod(0nat, m as nat);
        }
    }
}

/// Texts are ordered by the first byte at which they differ, and a text goes before every
/// longer one that starts with it.
pub proof fn law_first_difference_decides(a: Seq<char>, b: Seq<char>, k: int)
    requires
        0 <= k <= encode_utf8(a).len(),
        k < encode_utf8(b).len(),
        encode_utf8(a).take(k) == encode_utf8(b).take(k),
        k == encode_utf8(a).len() || encode_utf8(a)[k] < encode_utf8(b)[k],
    ensures
        text_before(a, b),
        !text_before(b, a),
        a != b,
{
    assert(smaller_at(encode_utf8(a), encode_utf8(b), k));
    if text_before(b, a) {
        lemma_text_before_transitive(a, b, a);
        lemma_text_before_irreflexive(a);
    }
    lemma_text_before_irreflexive(a);
}

/// A number is read just where it is written as one: at least one digit, with at most one
/// plus sign in front, any zeros in front, and no more than fits.
pub proof fn law_numbers_are_read(s: Seq<char>)
    requires
        s.len() > 0,
        forall|i: int| 0 <= i < s.len() ==> '0' <= #[trigger] s[i] && s[i] <= '9',
    ensures
        digits_value(s) <= 65535 ==> parse_u16_text(s) == Some(digits_value(s) as u16),
        digits_value(s) > 65535 ==> parse_u16_text(s) is None,
        parse_u16_text(seq!['+'] + s) == parse_u16_text(s),
        parse_u16_text(seq!['0'] + s) == parse_u16_text(s),
        digits_value(seq!['0'] + s) == digits_value(s),
{
    assert((seq!['+'] + s).drop_first() =~= s);
    let z = seq!['0'] + s;
    lemma_zero_in_front(s);
    assert(all_digits(z)) by {
        assert forall|i: int| 0 <= i < z.len() implies is_digit(#[trigger] z[i]) by {
            if i > 0 {
                assert(z[i] == s[i - 1]);
            }
        }
    }
}

/// A zero in front changes no number.
proof fn lemma_zero_in_front(s: Seq<char>)
    ensures
        digits_value(seq!['0'] + s) == digits_value(s),
    decreases s.len(),
{
    let z = seq!['0'] + s;
    if s.len() == 0 {
        assert(z.drop_last() =~= seq![]);
        reveal_with_fuel(digits_value, 2);
    } else {
        lemma_zero_in_front(s.drop_last());
        assert(z.drop_last() =~= seq!['0'] + s.drop_last());
    }
}

/// A text with anything but digits after an optional plus sign is no number, and neither is
/// one without digits.
pub proof fn law_other_texts_are_no_numbers(s: Seq<char>, i: int)
    requires
        0 <= i < s.len(),
        s[i] < '0' || s[i] > '9',
        i > 0 || s[0] != '+',
    ensures
        parse_u16_text(s) is None,
        parse_u16_text(seq![]) is None,
        parse_u16_text(seq!['+']) is None,
{
    let d = after_plus(s);
    if s[0] == '+' {
        assert(d[i - 1] == s[i]);
    } else {
        assert(d[i] == s[i]);
    }
    assert(seq!['+'].drop_first() =~= Seq::<char>::empty());
}

/// The value of digits is that of all but the last, ten times, and the last.
pub proof fn law_digits_have_their_places(s: Seq<char>, c: char)
    requires
        '0' <= c && c <= '9',
    ensures
        digits_value(s.push(c)) == 10 * digits_value(s) + (c as u32 - 48),
        digits_value(seq![]) == 0,
{
    assert(s.push(c).drop_last() =~= s);
}

/// A number is written without zeros in front, and differently from every other number.
pub proof fn law_numbers_are_written_shortest(n: nat, m: nat)
    ensures
        n > 0 ==> decimal(n)[0] != '0',
        n == 0 ==> decimal(n) == seq!['0'],
        decimal(n) == decimal(m) ==> n == m,
    decreases n,
{
    lemma_decimal_digits(n);
    lemma_decimal_digits(m);
    if n >= 10 {
        law_numbers_are_written_shortest(n / 10, m);
        lemma_decimal_digits(n / 10);
        assert(decimal(n)[0] == decimal(n / 10)[0]);
    }
}

/// The pieces of a text hold none of the characters at which it was split, and one more
/// piece follows each of these: the text is the first piece, the character, and a text that
/// is split into the other pieces.
pub proof fn law_text_is_split_at_each(piece: Seq<char>, rest: Seq<char>, c: char)
    requires
        !piece.contains(c),
    ensures
        split_at_char(piece, c) == seq![piece],
        split_at_char(piece + seq![c] + rest, c) == seq![piece] + split_at_char(rest, c),
{
    lemma_first_index(piece, c);
    let s = piece + seq![c] + rest;
    lemma_first_index(s, c);
    let n: int = piece.len() as int;
    assert(s[n] == c);
    assert forall|i: int| 0 <= i < n implies s[i] != c by {
        assert(s[i] == piece[i]);
    }
    assert(first_index(s, c) == n);
    assert(s.take(n) =~= piece);
    assert(s.skip(n + 1) =~= rest);
}

/// A text occurs in another just where that one is something, the text, and something.
pub proof fn law_occurrence(needle: Seq<char>, s: Seq<char>)
    ensures
        occurs_in(needle, s) <==> exists|front: Seq<char>, end: Seq<char>|
            s == #[trigger] (front + needle + end),
{
    if occurs_in(needle, s) {
        let i: int = choose|i: int| occurs_at(needle, s, i);
        let front = s.take(i);
        let end = s.skip(i + needle.len());
        assert(s =~= front + needle + end) by {
            assert forall|j: int| i <= j < i + needle.len() implies s[j] == needle[j - i] by {
                assert(s.subrange(i, i + needle.len())[j - i] == s[j]);
            }
        }
    }
    if exists|front: Seq<char>, end: Seq<char>| s == #[trigger] (front + needle + end) {
        let (front, end) = choose|front: Seq<char>, end: Seq<char>|
            s == #[trigger] (front + needle + end);
        let i: int = front.len() as int;
        assert(s.subrange(i, i + needle.len()) =~= needle);
        assert(occurs_at(needle, s, i));
    }
}

/// The capital letters from `A` to `Z` become the small ones with the same place in the
/// alphabet, and no other character changes.
pub proof fn law_capitals_become_small(c: char)
    ensures
        'A' <= c && c <= 'Z' ==> 'a' <= lower(c) && lower(c) <= 'z' && lower(c) as u32 - 97 == c as u32
            - 65,
        c < 'A' || c > 'Z' ==> lower(c) == c,
{
}

/// Texts are compared whole: those of a list in their order, and one that may be missing by
/// whether it is there and what it is.
pub proof fn law_texts_are_seen_whole(v: Seq<Vec<char>>, i: int, s: String)
    requires
        0 <= i < v.len(),
    ensures
        texts(v).len() == v.len(),
        texts(v)[i] == v[i]@,
        option_string(Some(s)) == Some(s@),
        option_string(None) is None,
        option_text(None) is None,
        forall|t: &str| #[trigger] option_text(Some(t)) == Some(t@),
{
}

} // verus!
