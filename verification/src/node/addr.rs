//! Internet addresses.

use vstd::prelude::*;
use vstd::slice::*;

use crate::util::bytes::be16;
use crate::util::hex::hex_digit;
use crate::util::text::{
    decimal, law_text_is_split_at_each, lemma_decimal_digits, push_decimal, split_at_char,
};

verus! {

/// An internet address: four bytes, or eight groups of two bytes.
#[derive(Debug, Clone, Copy, PartialEq, Eq, Hash, Structural)]
pub enum IpAddr {
    V4(u8, u8, u8, u8),
    V6(u16, u16, u16, u16, u16, u16, u16, u16),
}

/// An address with a port.
#[derive(Debug, Clone, Copy, PartialEq, Eq, Hash, Structural)]
pub struct SocketAddr {
    pub ip: IpAddr,
    pub port: u16,
}

/// `n` in hexadecimal without leading zeros.
pub open spec fn hex_short(n: nat) -> Seq<char>
    decreases n,
{
    if n < 16 {
        seq![hex_digit(n as int)]
    } else {
        hex_short(n / 16).push(hex_digit(n as int % 16))
    }
}

/// Four bytes in decimal with dots between them.
pub open spec fn dotted(a: u8, b: u8, c: u8, d: u8) -> Seq<char> {
    decimal(a as nat) + seq!['.'] + decimal(b as nat) + seq!['.'] + decimal(c as nat) + seq!['.']
        + decimal(d as nat)
}

/// Groups in hexadecimal with colons between them.
pub open spec fn groups_text(s: Seq<u16>) -> Seq<char>
    decreases s.len(),
{
    if s.len() == 0 {
        seq![]
    } else if s.len() == 1 {
        hex_short(s[0] as nat)
    } else {
        groups_text(s.drop_last()) + seq![':'] + hex_short(s.last() as nat)
    }
}

/// How many groups from the place `i` on are zero, up to the first that is not.
pub open spec fn zeros_at(s: Seq<u16>, i: int) -> int
    decreases s.len() - i,
{
    if 0 <= i < s.len() && s[i] == 0 {
        1 + zeros_at(s, i + 1)
    } else {
        0
    }
}

/// The longest run of zeros that starts at `i` or later, if it is longer than `len`;
/// else the run of that length at `start`. Of runs of one length the first counts.
pub open spec fn longest_zeros(s: Seq<u16>, i: int, start: int, len: int) -> (int, int)
    decreases s.len() - i,
{
    if i < 0 || i >= s.len() {
        (start, len)
    } else if zeros_at(s, i) > len {
        longest_zeros(s, i + 1, i, zeros_at(s, i))
    } else {
        longest_zeros(s, i + 1, start, len)
    }
}

/// Eight groups as text: an address that stands for one of four bytes shows those;
/// else the first of the longest runs of two or more zeros becomes a double colon.
pub open spec fn v6_text(s: Seq<u16>) -> Seq<char> {
    if s[0] == 0 && s[1] == 0 && s[2] == 0 && s[3] == 0 && s[4] == 0 && s[5] == 0xffff {
        "::ffff:"@ + dotted(
            (s[6] / 256) as u8,
            (s[6] % 256) as u8,
            (s[7] / 256) as u8,
            (s[7] % 256) as u8,
        )
    } else {
        let (start, len) = longest_zeros(s, 0, 0, 0);
        if len > 1 {
            groups_text(s.take(start)) + "::"@ + groups_text(s.skip(start + len))
        } else {
            groups_text(s)
        }
    }
}

impl IpAddr {
    /// The address as text.
    pub open spec fn text(self) -> Seq<char> {
        match self {
            IpAddr::V4(a, b, c, d) => dotted(a, b, c, d),
            IpAddr::V6(a, b, c, d, e, f, g, h) => v6_text(seq![a, b, c, d, e, f, g, h]),
        }
    }

    /// Whether the address is one of the machine itself.
    pub open spec fn loopback(self) -> bool {
        match self {
            IpAddr::V4(a, _, _, _) => a == 127,
            IpAddr::V6(a, b, c, d, e, f, g, h) => a == 0 && b == 0 && c == 0 && d == 0 && e == 0
                && f == 0 && g == 0 && h == 1,
        }
    }

    /// Whether the address is all zeros.
    pub open spec fn unspecified(self) -> bool {
        match self {
            IpAddr::V4(a, b, c, d) => a == 0 && b == 0 && c == 0 && d == 0,
            IpAddr::V6(a, b, c, d, e, f, g, h) => a == 0 && b == 0 && c == 0 && d == 0 && e == 0
                && f == 0 && g == 0 && h == 0,
        }
    }

    /// Whether the address cannot be reached from another network: a private, a
    /// local, a link-local or an unspecified one. Of the addresses of eight groups those
    /// of `fc00::/7` are private, and those of `fe80::/10` link-local.
    pub open spec fn private_looking(self) -> bool {
        ||| self.loopback()
        ||| self.unspecified()
        ||| self matches IpAddr::V4(a, b, _, _) && {
            ||| a == 10
            ||| a == 172 && 16 <= b <= 31
            ||| a == 192 && b == 168
            ||| a == 169 && b == 254
        }
        ||| self matches IpAddr::V6(a, _, _, _, _, _, _, _) && {
            ||| 0xfc00 <= a <= 0xfdff
            ||| 0xfe80 <= a <= 0xfebf
        }
    }

    /// The machine itself.
    pub fn localhost() -> (r: IpAddr)
        ensures
            r == IpAddr::V4(127, 0, 0, 1),
    {
        IpAddr::V4(127, 0, 0, 1)
    }

    /// Whether the address is one of the machine itself.
    pub fn is_loopback(&self) -> (r: bool)
        ensures
            r == self.loopback(),
    {
        match *self {
            IpAddr::V4(a, _, _, _) => a == 127,
            IpAddr::V6(a, b, c, d, e, f, g, h) => a == 0 && b == 0 && c == 0 && d == 0 && e == 0
                && f == 0 && g == 0 && h == 1,
        }
    }

    /// Whether the address is all zeros.
    pub fn is_unspecified(&self) -> (r: bool)
        ensures
            r == self.unspecified(),
    {
        match *self {
            IpAddr::V4(a, b, c, d) => a == 0 && b == 0 && c == 0 && d == 0,
            IpAddr::V6(a, b, c, d, e, f, g, h) => a == 0 && b == 0 && c == 0 && d == 0 && e == 0
                && f == 0 && g == 0 && h == 0,
        }
    }

    /// Whether the address cannot be reached from another network.
    pub fn looks_private(&self) -> (r: bool)
        ensures
            r == self.private_looking(),
    {
        if self.is_loopback() || self.is_unspecified() {
            return true;
        }
        match *self {
            IpAddr::V4(a, b, _, _) => a == 10 || (a == 172 && 16 <= b && b <= 31) || (a == 192 && b
                == 168) || (a == 169 && b == 254),
            IpAddr::V6(a, _, _, _, _, _, _, _) => (0xfc00 <= a && a <= 0xfdff) || (0xfe80 <= a && a
                <= 0xfebf),
        }
    }

    /// The address as text.
    pub fn to_text(&self) -> (r: String)
        ensures
            r@ == self.text(),
    {
        let mut out: String = String::new();
        match *self {
            IpAddr::V4(a, b, c, d) => {
                push_dotted(&mut out, a, b, c, d);
            },
            IpAddr::V6(a, b, c, d, e, f, g, h) => {
                let s: [u16; 8] = [a, b, c, d, e, f, g, h];
                assert(s@ =~= seq![a, b, c, d, e, f, g, h]);
                push_v6(&mut out, &s);
            },
        }
        assert(Seq::<char>::empty() + self.text() =~= self.text());
        out
    }
}

/// Appends four bytes in decimal with dots between them.
fn push_dotted(out: &mut String, a: u8, b: u8, c: u8, d: u8)
    ensures
        final(out)@ == old(out)@ + dotted(a, b, c, d),
{
    push_decimal(out, a as u64);
    out.push('.');
    push_decimal(out, b as u64);
    out.push('.');
    push_decimal(out, c as u64);
    out.push('.');
    push_decimal(out, d as u64);
    assert(out@ =~= old(out)@ + dotted(a, b, c, d));
}

/// The lower-case hexadecimal digit for `n`.
fn hex_char(n: u8) -> (c: char)
    requires
        n < 16,
    ensures
        c == hex_digit(n as int),
{
    if n < 10 {
        (48 + n) as char
    } else {
        (97 + (n - 10)) as char
    }
}

/// Appends `n` in hexadecimal without leading zeros.
fn push_hex(out: &mut String, n: u16)
    ensures
        final(out)@ == old(out)@ + hex_short(n as nat),
    decreases n,
{
    if n >= 16 {
        push_hex(out, n / 16);
    }
    out.push(hex_char((n % 16) as u8));
    assert(out@ =~= old(out)@ + hex_short(n as nat));
}

/// Appends groups in hexadecimal with colons between them.
fn push_groups(out: &mut String, s: &[u16])
    ensures
        final(out)@ == old(out)@ + groups_text(s@),
{
    let ghost before = out@;
    let mut i: usize = 0;
    assert(s@.take(0).len() == 0);
    while i < s.len()
        invariant
            i <= s@.len(),
            out@ == before + groups_text(s@.take(i as int)),
        decreases s@.len() - i,
    {
        assert(s@.take(i + 1).drop_last() =~= s@.take(i as int));
        if i > 0 {
            out.push(':');
        }
        push_hex(out, s[i]);
        assert(out@ =~= before + groups_text(s@.take(i + 1)));
        i = i + 1;
    }
    assert(s@.take(i as int) =~= s@);
}

/// A run of zeros stays within the groups.
proof fn lemma_zeros_at(s: Seq<u16>, i: int)
    requires
        0 <= i <= s.len(),
    ensures
        0 <= zeros_at(s, i) <= s.len() - i,
    decreases s.len() - i,
{
    if i < s.len() && s[i] == 0 {
        lemma_zeros_at(s, i + 1);
    }
}

/// Counts the zeros from a place on.
fn count_zeros(s: &[u16; 8], i: usize) -> (n: usize)
    requires
        i <= 8,
    ensures
        n == zeros_at(s@, i as int),
        n <= 8 - i,
{
    let mut n: usize = 0;
    while i + n < 8 && s[i + n] == 0
        invariant
            i + n <= 8,
            zeros_at(s@, i as int) == n + zeros_at(s@, i + n),
        decreases 8 - n,
    {
        n = n + 1;
    }
    n
}

/// Appends eight groups as text.
fn push_v6(out: &mut String, s: &[u16; 8])
    ensures
        final(out)@ == old(out)@ + v6_text(s@),
{
    let ghost before = out@;
    if s[0] == 0 && s[1] == 0 && s[2] == 0 && s[3] == 0 && s[4] == 0 && s[5] == 0xffff {
        out.append("::ffff:");
        push_dotted(
            out,
            (s[6] / 256) as u8,
            (s[6] % 256) as u8,
            (s[7] / 256) as u8,
            (s[7] % 256) as u8,
        );
        assert(out@ =~= before + v6_text(s@));
        return;
    }
    let mut start: usize = 0;
    let mut len: usize = 0;
    let mut i: usize = 0;
    while i < 8
        invariant
            i <= 8,
            start + len <= 8,
            longest_zeros(s@, 0, 0, 0) == longest_zeros(s@, i as int, start as int, len as int),
        decreases 8 - i,
    {
        let n: usize = count_zeros(s, i);
        if n > len {
            start = i;
            len = n;
        }
        i = i + 1;
    }
    if len > 1 {
        push_groups(out, slice_subrange(s, 0, start));
        out.append("::");
        push_groups(out, slice_subrange(s, start + len, 8));
        assert(s@.subrange(start + len, 8) =~= s@.skip(start + len));
        assert(out@ =~= before + v6_text(s@));
    } else {
        push_groups(out, s);
    }
}

/// The address that sixteen bytes stand for.
pub open spec fn v6_of(b: Seq<u8>) -> IpAddr {
    IpAddr::V6(
        be16(b[0], b[1]) as u16,
        be16(b[2], b[3]) as u16,
        be16(b[4], b[5]) as u16,
        be16(b[6], b[7]) as u16,
        be16(b[8], b[9]) as u16,
        be16(b[10], b[11]) as u16,
        be16(b[12], b[13]) as u16,
        be16(b[14], b[15]) as u16,
    )
}

/// The address and a port as text, with nothing round the address.
pub open spec fn addr_text(ip: IpAddr, port: u16) -> Seq<char> {
    ip.text() + seq![':'] + decimal(port as nat)
}

/// The address and a port as text.
pub fn addr_string(ip: &IpAddr, port: u16) -> (r: String)
    ensures
        r@ == addr_text(*ip, port),
{
    let mut out: String = ip.to_text();
    out.push(':');
    push_decimal(&mut out, port as u64);
    assert(out@ =~= addr_text(*ip, port));
    out
}

impl SocketAddr {
    /// The address with its port as text. An address of eight groups stands in square
    /// brackets.
    pub open spec fn text(self) -> Seq<char> {
        match self.ip {
            IpAddr::V4(_, _, _, _) => addr_text(self.ip, self.port),
            IpAddr::V6(_, _, _, _, _, _, _, _) => seq!['['] + self.ip.text() + seq![']', ':']
                + decimal(self.port as nat),
        }
    }

    /// The address with its port as text.
    pub fn to_text(&self) -> (r: String)
        ensures
            r@ == self.text(),
    {
        match self.ip {
            IpAddr::V4(_, _, _, _) => addr_string(&self.ip, self.port),
            IpAddr::V6(_, _, _, _, _, _, _, _) => {
                let mut out: String = String::new();
                out.push('[');
                let ip: String = self.ip.to_text();
                out.append(ip.as_str());
                out.push(']');
                out.push(':');
                push_decimal(&mut out, self.port as u64);
                assert(out@ =~= self.text());
                out
            },
        }
    }
}

/// The addresses of the machine itself, and the one that is all zeros.
pub proof fn law_addresses_of_the_machine(ip: IpAddr)
    ensures
        ip.loopback() <==> match ip {
            IpAddr::V4(a, _, _, _) => a == 127,
            IpAddr::V6(a, b, c, d, e, f, g, h) => h == 1 && a == 0 && b == 0 && c == 0 && d == 0 && e
                == 0 && f == 0 && g == 0,
        },
        ip.unspecified() <==> ip == IpAddr::V4(0, 0, 0, 0) || ip == IpAddr::V6(
            0,
            0,
            0,
            0,
            0,
            0,
            0,
            0,
        ),
{
}

/// Of the addresses of four bytes just these cannot be reached from another network: those
/// from 10.0.0.0 to 10.255.255.255, from 127.0.0.0 to 127.255.255.255, from 169.254.0.0 to
/// 169.254.255.255, from 172.16.0.0 to 172.31.255.255, from 192.168.0.0 to 192.168.255.255,
/// and 0.0.0.0.
pub proof fn law_private_ranges_of_four_bytes(a: u8, b: u8, c: u8, d: u8)
    ensures
        ({
            let n = a * 0x100_0000 + b * 0x1_0000 + c * 0x100 + d;
            IpAddr::V4(a, b, c, d).private_looking() <==> {
                ||| 0x0a00_0000 <= n <= 0x0aff_ffff
                ||| 0x7f00_0000 <= n <= 0x7fff_ffff
                ||| 0xa9fe_0000 <= n <= 0xa9fe_ffff
                ||| 0xac10_0000 <= n <= 0xac1f_ffff
                ||| 0xc0a8_0000 <= n <= 0xc0a8_ffff
                ||| n == 0
            }
        }),
{
}

/// Of the addresses of eight groups just these cannot be reached from another network: those
/// whose first group is from `fc00` to `fdff` or from `fe80` to `febf`, `::1` and `::`.
pub proof fn law_private_ranges_of_eight_groups(
    a: u16,
    b: u16,
    c: u16,
    d: u16,
    e: u16,
    f: u16,
    g: u16,
    h: u16,
)
    ensures
        IpAddr::V6(a, b, c, d, e, f, g, h).private_looking() <==> {
            ||| a / 0x200 == 0x7e
            ||| a / 0x40 == 0x3fa
            ||| a == 0 && b == 0 && c == 0 && d == 0 && e == 0 && f == 0 && g == 0 && h <= 1
        },
{
}

/// The number that hexadecimal digits stand for.
pub open spec fn hex_number(s: Seq<char>) -> nat
    decreases s.len(),
{
    if s.len() == 0 {
        0
    } else {
        let c = s.last();
        let d: int = if c <= '9' {
            c as u32 - 48
        } else {
            c as u32 - 97 + 10
        };
        (16 * hex_number(s.drop_last()) + d) as nat
    }
}

/// A group is written in small hexadecimal digits that stand for it, without zeros in front.
pub proof fn law_groups_are_written_in_hexadecimal(n: nat)
    ensures
        hex_short(n).len() > 0,
        hex_number(hex_short(n)) == n,
        n > 0 ==> hex_short(n)[0] != '0',
        n < 0x1_0000 ==> hex_short(n).len() <= 4,
        forall|i: int|
            0 <= i < hex_short(n).len() ==> ('0' <= #[trigger] hex_short(n)[i] && hex_short(n)[i]
                <= '9') || ('a' <= hex_short(n)[i] && hex_short(n)[i] <= 'f'),
    decreases n,
{
    let s = hex_short(n);
    if n < 16 {
        assert(s.drop_last() =~= seq![]);
        reveal_with_fuel(hex_number, 2);
    } else {
        let t = hex_short(n / 16);
        law_groups_are_written_in_hexadecimal(n / 16);
        assert(s.drop_last() =~= t);
        assert(s[0] == t[0]);
        assert forall|i: int| 0 <= i < s.len() implies ('0' <= #[trigger] s[i] && s[i] <= '9') || (
        'a' <= s[i] && s[i] <= 'f') by {
            if i < t.len() {
                assert(s[i] == t[i]);
            }
        }
        if n < 0x1_0000 {
            assert(hex_short(n / 16 / 16 / 16).len() == 1 || n < 0x1000);
            reveal_with_fuel(hex_short, 5);
        }
    }
}

/// An address of four bytes is written as its bytes in decimal between dots.
pub proof fn law_bytes_stand_between_dots(a: u8, b: u8, c: u8, d: u8)
    ensures
        split_at_char(IpAddr::V4(a, b, c, d).text(), '.') == seq![
            decimal(a as nat),
            decimal(b as nat),
            decimal(c as nat),
            decimal(d as nat),
        ],
{
    let (x, y, z, w) = (
        decimal(a as nat),
        decimal(b as nat),
        decimal(c as nat),
        decimal(d as nat),
    );
    lemma_decimal_digits(a as nat);
    lemma_decimal_digits(b as nat);
    lemma_decimal_digits(c as nat);
    lemma_decimal_digits(d as nat);
    law_text_is_split_at_each(w, seq![], '.');
    law_text_is_split_at_each(z, w, '.');
    law_text_is_split_at_each(y, z + seq!['.'] + w, '.');
    law_text_is_split_at_each(x, y + seq!['.'] + (z + seq!['.'] + w), '.');
    assert(dotted(a, b, c, d) =~= x + seq!['.'] + (y + seq!['.'] + (z + seq!['.'] + w)));
    assert(split_at_char(dotted(a, b, c, d), '.') =~= seq![x, y, z, w]);
}

/// Groups are written in hexadecimal between colons.
pub proof fn law_groups_stand_between_colons(s: Seq<u16>)
    requires
        s.len() > 0,
    ensures
        split_at_char(groups_text(s), ':') == s.map_values(|n: u16| hex_short(n as nat)),
    decreases s.len(),
{
    let f = |n: u16| hex_short(n as nat);
    let first = hex_short(s[0] as nat);
    law_groups_are_written_in_hexadecimal(s[0] as nat);
    assert(!first.contains(':'));
    if s.len() == 1 {
        law_text_is_split_at_each(first, seq![], ':');
        assert(split_at_char(groups_text(s), ':') =~= s.map_values(f));
    } else {
        let rest = s.drop_first();
        lemma_groups_from_the_front(s);
        law_groups_stand_between_colons(rest);
        law_text_is_split_at_each(first, groups_text(rest), ':');
        assert(split_at_char(groups_text(s), ':') =~= s.map_values(f)) by {
            assert(s.map_values(f) =~= seq![first] + rest.map_values(f));
        }
    }
}

/// The first group, a colon, and the others.
proof fn lemma_groups_from_the_front(s: Seq<u16>)
    requires
        s.len() > 1,
    ensures
        groups_text(s) == hex_short(s[0] as nat) + seq![':'] + groups_text(s.drop_first()),
    decreases s.len(),
{
    let first = hex_short(s[0] as nat);
    let rest = s.drop_first();
    if s.len() == 2 {
        assert(groups_text(s.drop_last()) =~= first);
        assert(rest.len() == 1 && rest[0] == s[1]);
    } else {
        let t = s.drop_last();
        lemma_groups_from_the_front(t);
        assert(t.drop_first() =~= rest.drop_last());
        assert(groups_text(s) =~= first + seq![':'] + groups_text(rest));
    }
}

/// A run of zeros goes on up to the first group that is none.
pub proof fn law_run_of_zeros(s: Seq<u16>, i: int)
    requires
        0 <= i <= s.len(),
    ensures
        0 <= zeros_at(s, i) <= s.len() - i,
        forall|j: int| i <= j < i + zeros_at(s, i) ==> #[trigger] s[j] == 0,
        i + zeros_at(s, i) < s.len() ==> s[i + zeros_at(s, i)] != 0,
    decreases s.len() - i,
{
    if i < s.len() && s[i] == 0 {
        law_run_of_zeros(s, i + 1);
    }
}

/// The run of zeros that is found is no shorter than any other, and longer than every one
/// that starts before it.
pub proof fn law_longest_run_is_found(s: Seq<u16>, i: int)
    requires
        0 <= i < s.len(),
    ensures
        ({
            let (start, len) = longest_zeros(s, 0, 0, 0);
            &&& zeros_at(s, i) <= len
            &&& i < start ==> zeros_at(s, i) < len
            &&& len > 0 ==> 0 <= start < s.len() && zeros_at(s, start) == len
            &&& 0 <= len && 0 <= start && start + len <= s.len()
        }),
{
    lemma_longest_run(s, 0, 0, 0);
    let (start, len) = longest_zeros(s, 0, 0, 0);
    assert(zeros_at(s, i) <= len);
    if len > 0 {
        lemma_zeros_at(s, start);
    }
}

/// The longest run from a place on, or the one that was found before.
proof fn lemma_longest_run(s: Seq<u16>, i: int, start: int, len: int)
    requires
        0 <= i <= s.len(),
        0 <= len,
    ensures
        ({
            let (a, n) = longest_zeros(s, i, start, len);
            &&& n >= len
            &&& n == len ==> a == start
            &&& n > len ==> i <= a < s.len() && zeros_at(s, a) == n
            &&& forall|j: int| i <= j < s.len() ==> #[trigger] zeros_at(s, j) <= n
            &&& n > len ==> forall|j: int| i <= j < a ==> #[trigger] zeros_at(s, j) < n
        }),
    decreases s.len() - i,
{
    if i < s.len() {
        if zeros_at(s, i) > len {
            lemma_longest_run(s, i + 1, i, zeros_at(s, i));
        } else {
            lemma_longest_run(s, i + 1, start, len);
        }
    }
}

/// An address of eight groups that stands for one of four bytes shows those. In any other
/// the longest run of zeros, where there are two or more in a row, becomes a double colon
/// between the groups before it and after it; where there is none the groups are shown.
pub proof fn law_eight_groups_are_written_short(s: Seq<u16>)
    requires
        s.len() == 8,
    ensures
        s.take(6) == seq![0u16, 0, 0, 0, 0, 0xffff] ==> v6_text(s) == "::ffff:"@ + IpAddr::V4(
            (s[6] / 256) as u8,
            (s[6] % 256) as u8,
            (s[7] / 256) as u8,
            (s[7] % 256) as u8,
        ).text(),
        s.take(6) != seq![0u16, 0, 0, 0, 0, 0xffff] ==> ({
            let (start, len) = longest_zeros(s, 0, 0, 0);
            v6_text(s) == (if len >= 2 {
                groups_text(s.take(start)) + "::"@ + groups_text(s.skip(start + len))
            } else {
                groups_text(s)
            })
        }),
{
    let t = s.take(6);
    assert(t =~= seq![0u16, 0, 0, 0, 0, 0xffff] <==> (s[0] == 0 && s[1] == 0 && s[2] == 0 && s[3]
        == 0 && s[4] == 0 && s[5] == 0xffff)) by {
        assert(t[0] == s[0] && t[1] == s[1] && t[2] == s[2] && t[3] == s[3] && t[4] == s[4] && t[5]
            == s[5]);
    }
}

/// An address is written with its port after a colon. One of eight groups stands in square
/// brackets where it is read again, and bare where it is shown.
pub proof fn law_port_is_written_after_a_colon(ip: IpAddr, port: u16)
    ensures
        addr_text(ip, port) == ip.text() + seq![':'] + decimal(port as nat),
        (SocketAddr { ip, port }).text() == (match ip {
            IpAddr::V4(_, _, _, _) => ip.text(),
            _ => seq!['['] + ip.text() + seq![']'],
        }) + seq![':'] + decimal(port as nat),
        ip matches IpAddr::V6(a, b, c, d, e, f, g, h) ==> ip.text() == v6_text(
            seq![a, b, c, d, e, f, g, h],
        ),
{
    assert(seq![']', ':'] =~= seq![']'] + seq![':']);
    assert(seq!['['] + ip.text() + seq![']', ':'] + decimal(port as nat) =~= seq!['['] + ip.text()
        + seq![']'] + seq![':'] + decimal(port as nat));
}

/// Sixteen bytes are eight groups, the first byte of each the higher one.
pub proof fn law_sixteen_bytes_are_eight_groups(b: Seq<u8>)
    requires
        b.len() == 16,
    ensures
        v6_of(b) matches IpAddr::V6(s, t, u, v, w, x, y, z) && {
            &&& s == 256 * b[0] + b[1] && t == 256 * b[2] + b[3]
            &&& u == 256 * b[4] + b[5] && v == 256 * b[6] + b[7]
            &&& w == 256 * b[8] + b[9] && x == 256 * b[10] + b[11]
            &&& y == 256 * b[12] + b[13] && z == 256 * b[14] + b[15]
        },
{
}

} // verus!
