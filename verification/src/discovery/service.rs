//! The addresses of a node's services: each has its port a fixed step above the
//! node's own.

use vstd::prelude::*;
use vstd::slice::*;

use crate::util::text::{
    chars_of, decimal, is_white, lemma_decimal_digits, lemma_nothing_to_drop, lemma_parse_decimal,
    parse_u16, parse_u16_text, push_decimal, text_of, trim_text, trim_white,
};

verus! {

/// Why a text is not the address of a node.
#[derive(Debug, Clone, Copy, PartialEq, Eq, Structural)]
pub enum ServiceAddrError {
    /// There is no colon between a host and a port.
    NoPort,
    /// The port is no number that fits.
    BadPort,
    /// The service's port would be too large.
    PortTooLarge,
}

impl ServiceAddrError {
    /// The error in words.
    pub fn message(&self) -> (r: &'static str)
        ensures
            r@ == (match *self {
                ServiceAddrError::NoPort => "ожидался host:port"@,
                ServiceAddrError::BadPort => "неверный порт"@,
                ServiceAddrError::PortTooLarge => "базовый порт слишком велик (переполнение)"@,
            }),
    {
        match self {
            ServiceAddrError::NoPort => "ожидался host:port",
            ServiceAddrError::BadPort => "неверный порт",
            ServiceAddrError::PortTooLarge => "базовый порт слишком велик (переполнение)",
        }
    }
}

/// The place of the last `c`, or -1.
pub open spec fn last_index(s: Seq<char>, c: char) -> int
    decreases s.len(),
{
    if s.len() == 0 {
        -1
    } else if s.last() == c {
        s.len() - 1
    } else {
        last_index(s.drop_last(), c)
    }
}

/// The address of a service: what stands before the last colon, without white space
/// round it, and the port after it, moved up by `offset`.
pub open spec fn service_text(base: Seq<char>, offset: u16) -> Result<Seq<char>, ServiceAddrError> {
    let colon = last_index(base, ':');
    if colon < 0 {
        Err(ServiceAddrError::NoPort)
    } else {
        match parse_u16_text(trim_text(base.skip(colon + 1))) {
            None => Err(ServiceAddrError::BadPort),
            Some(p) => if p + offset > u16::MAX {
                Err(ServiceAddrError::PortTooLarge)
            } else {
                Ok(trim_text(base.take(colon)) + seq![':'] + decimal((p + offset) as nat))
            },
        }
    }
}

/// Makes the address of a service from that of the node.
pub fn offset_addr(base_addr: &str, offset: u16) -> (r: Result<String, ServiceAddrError>)
    ensures
        match r {
            Ok(t) => service_text(base_addr@, offset) == Ok::<Seq<char>, ServiceAddrError>(t@),
            Err(e) => service_text(base_addr@, offset) == Err::<Seq<char>, ServiceAddrError>(e),
        },
{
    let chars: Vec<char> = chars_of(base_addr);
    let s: &[char] = chars.as_slice();
    let mut n: usize = s.len();
    assert(s@.take(n as int) =~= s@);
    while n > 0 && s[n - 1] != ':'
        invariant
            n <= s@.len(),
            s@ == base_addr@,
            last_index(base_addr@, ':') == last_index(s@.take(n as int), ':'),
        decreases n,
    {
        assert(s@.take(n as int).drop_last() =~= s@.take(n - 1));
        n = n - 1;
    }
    if n == 0 {
        return Err(ServiceAddrError::NoPort);
    }
    let host: &[char] = trim_white(slice_subrange(s, 0, n - 1));
    let port: &[char] = trim_white(slice_subrange(s, n, s.len()));
    assert(s@.subrange(0, n - 1) =~= base_addr@.take(n - 1));
    assert(s@.subrange(n as int, s@.len() as int) =~= base_addr@.skip(n as int));
    match parse_u16(port) {
        None => Err(ServiceAddrError::BadPort),
        Some(p) => match p.checked_add(offset) {
            None => Err(ServiceAddrError::PortTooLarge),
            Some(q) => {
                let mut out: String = text_of(host);
                out.push(':');
                push_decimal(&mut out, q as u64);
                assert(out@ =~= host@ + seq![':'] + decimal(q as nat));
                Ok(out)
            },
        },
    }
}

/// The last place of a character is one where it stands, and none comes after; there is no
/// such place just where it does not occur.
pub proof fn law_last_place(s: Seq<char>, c: char)
    ensures
        -1 <= last_index(s, c) < s.len(),
        last_index(s, c) >= 0 ==> s[last_index(s, c)] == c,
        forall|i: int| last_index(s, c) < i < s.len() ==> s[i] != c,
    decreases s.len(),
{
    if s.len() > 0 && s.last() != c {
        law_last_place(s.drop_last(), c);
        assert forall|i: int| last_index(s, c) < i < s.len() implies s[i] != c by {
            if i < s.len() - 1 {
                assert(s.drop_last()[i] == s[i]);
            }
        }
    }
}

/// A service of a node listens at the node's host, white space round it aside, with the
/// port moved up, wherever the sum is a port.
pub proof fn law_service_port_is_moved_up(host: Seq<char>, port: u16, offset: u16)
    ensures
        service_text(host + seq![':'] + decimal(port as nat), offset) == (if port + offset
            <= 65535 {
            Ok::<Seq<char>, ServiceAddrError>(
                trim_text(host) + seq![':'] + decimal((port + offset) as nat),
            )
        } else {
            Err(ServiceAddrError::PortTooLarge)
        }),
{
    let d = decimal(port as nat);
    let base = host + seq![':'] + d;
    lemma_decimal_digits(port as nat);
    lemma_parse_decimal(port);
    law_last_place(base, ':');
    let n: int = host.len() as int;
    assert(base[n] == ':');
    assert forall|i: int| n < i < base.len() implies base[i] != ':' by {
        assert(base[i] == d[i - n - 1]);
    }
    assert(last_index(base, ':') == n);
    assert(base.take(n) =~= host);
    assert(base.skip(n + 1) =~= d);
    assert(d.last() == d[d.len() - 1]);
    lemma_nothing_to_drop(d, is_white());
}

/// An address without a colon has no port, and any other one is read at its last colon: it
/// is refused for its port just where what follows, white space round it aside, is no
/// number.
pub proof fn law_port_stands_after_the_last_colon(host: Seq<char>, tail: Seq<char>, offset: u16)
    requires
        !tail.contains(':'),
    ensures
        service_text(tail, offset) == Err::<Seq<char>, ServiceAddrError>(ServiceAddrError::NoPort),
        service_text(host + seq![':'] + tail, offset) == Err::<Seq<char>, ServiceAddrError>(
            ServiceAddrError::BadPort,
        ) <==> parse_u16_text(trim_text(tail)) is None,
        parse_u16_text(trim_text(tail)) matches Some(p) ==> service_text(
            host + seq![':'] + tail,
            offset,
        ) == (if p + offset <= 65535 {
            Ok::<Seq<char>, ServiceAddrError>(
                trim_text(host) + seq![':'] + decimal((p + offset) as nat),
            )
        } else {
            Err(ServiceAddrError::PortTooLarge)
        }),
{
    law_last_place(tail, ':');
    let base = host + seq![':'] + tail;
    law_last_place(base, ':');
    let n: int = host.len() as int;
    assert(base[n] == ':');
    assert forall|i: int| n < i < base.len() implies base[i] != ':' by {
        assert(base[i] == tail[i - n - 1]);
    }
    assert(last_index(base, ':') == n);
    assert(base.take(n) =~= host);
    assert(base.skip(n + 1) =~= tail);
}

} // verus!
