//! The part of STUN (RFC 5389) by which a node learns its address outside of its own
//! network: the request, and the answer with the mapped address.

use vstd::prelude::*;
use vstd::slice::*;

use crate::node::addr::{v6_of, IpAddr, SocketAddr};
use crate::util::bytes::{be16, be32, be32_bytes, read_be16, write_be32};

verus! {

/// The magic number of the header, which also masks addresses.
pub const MAGIC_COOKIE: u32 = 0x2112_A442;

/// A request for the mapped address.
pub const BINDING_REQUEST: u16 = 0x0001;

/// The answer with the mapped address.
pub const BINDING_SUCCESS: u16 = 0x0101;

/// The attribute with the address as it is.
pub const ATTR_MAPPED_ADDRESS: u16 = 0x0001;

/// The attribute with the masked address.
pub const ATTR_XOR_MAPPED_ADDRESS: u16 = 0x0020;

/// The request with the given transaction number: no attributes.
pub open spec fn request_bytes(txid: Seq<u8>) -> Seq<u8> {
    seq![0u8, 1u8, 0u8, 0u8, 0x21u8, 0x12u8, 0xA4u8, 0x42u8] + txid
}

/// Makes a request with the given transaction number.
pub fn build_binding_request(txid: &[u8; 12]) -> (r: [u8; 20])
    ensures
        r@ == request_bytes(txid@),
        be16(r@[0], r@[1]) == BINDING_REQUEST,
        be32(r@, 4) == MAGIC_COOKIE,
{
    let r: [u8; 20] = [
        0,
        1,
        0,
        0,
        0x21,
        0x12,
        0xA4,
        0x42,
        txid[0],
        txid[1],
        txid[2],
        txid[3],
        txid[4],
        txid[5],
        txid[6],
        txid[7],
        txid[8],
        txid[9],
        txid[10],
        txid[11],
    ];
    assert(r@ =~= request_bytes(txid@));
    r
}

/// The bytes that mask an address: the magic number, then the transaction number.
pub open spec fn mask(txid: Seq<u8>) -> Seq<u8> {
    seq![0x21u8, 0x12u8, 0xA4u8, 0x42u8] + txid
}

/// The address in an attribute as it is.
pub open spec fn plain_mapped(val: Seq<u8>) -> Option<SocketAddr> {
    let port = be16(val[2], val[3]) as u16;
    if val.len() < 8 {
        None
    } else if val[1] == 1 {
        Some(SocketAddr { ip: IpAddr::V4(val[4], val[5], val[6], val[7]), port })
    } else if val[1] == 2 && val.len() >= 20 {
        Some(SocketAddr { ip: v6_of(val.subrange(4, 20)), port })
    } else {
        None
    }
}

/// Sixteen bytes under their mask.
pub open spec fn masked(b: Seq<u8>, m: Seq<u8>) -> Seq<u8> {
    Seq::new(b.len(), |i: int| b[i] ^ m[i])
}

/// The address in an attribute under its mask. The port is masked with the upper half
/// of the magic number.
pub open spec fn xor_mapped(val: Seq<u8>, txid: Seq<u8>) -> Option<SocketAddr> {
    let m = mask(txid);
    let port = (be16(val[2], val[3]) as u16) ^ 0x2112u16;
    if val.len() < 8 {
        None
    } else if val[1] == 1 {
        Some(
            SocketAddr {
                ip: IpAddr::V4(val[4] ^ m[0], val[5] ^ m[1], val[6] ^ m[2], val[7] ^ m[3]),
                port,
            },
        )
    } else if val[1] == 2 && val.len() >= 20 {
        Some(SocketAddr { ip: v6_of(masked(val.subrange(4, 20), m)), port })
    } else {
        None
    }
}

/// How many bytes follow a value up to the next multiple of four.
pub open spec fn padding(len: int) -> int {
    if len % 4 == 0 {
        0
    } else {
        4 - len % 4
    }
}

/// The attributes from the place `i` on: a kind, a length, as many bytes, and then
/// bytes up to the next multiple of four. A value that runs beyond the answer ends
/// the list.
pub open spec fn attributes(resp: Seq<u8>, end: int, i: int) -> Seq<(int, Seq<u8>)>
    decreases
            (if end > i {
                end - i
            } else {
                0
            }),
{
    if i < 0 || i + 4 > end || end > resp.len() {
        seq![]
    } else {
        let kind = be16(resp[i], resp[i + 1]);
        let len = be16(resp[i + 2], resp[i + 3]);
        if i + 4 + len > resp.len() {
            seq![]
        } else {
            seq![(kind, resp.subrange(i + 4, i + 4 + len))] + attributes(
                resp,
                end,
                i + 4 + len + padding(len),
            )
        }
    }
}

/// The first masked address that can be read.
pub open spec fn first_xor(attrs: Seq<(int, Seq<u8>)>, txid: Seq<u8>) -> Option<SocketAddr>
    decreases attrs.len(),
{
    if attrs.len() == 0 {
        None
    } else if attrs[0].0 == ATTR_XOR_MAPPED_ADDRESS && xor_mapped(attrs[0].1, txid) is Some {
        xor_mapped(attrs[0].1, txid)
    } else {
        first_xor(attrs.drop_first(), txid)
    }
}

/// The first plain address that can be read.
pub open spec fn first_plain(attrs: Seq<(int, Seq<u8>)>) -> Option<SocketAddr>
    decreases attrs.len(),
{
    if attrs.len() == 0 {
        None
    } else if attrs[0].0 == ATTR_MAPPED_ADDRESS && plain_mapped(attrs[0].1) is Some {
        plain_mapped(attrs[0].1)
    } else {
        first_plain(attrs.drop_first())
    }
}

/// Where the attributes of an answer end.
pub open spec fn attributes_end(resp: Seq<u8>) -> int {
    let said = 20 + be16(resp[2], resp[3]);
    if said < resp.len() {
        said
    } else {
        resp.len() as int
    }
}

/// The mapped address in an answer to the request with the given transaction number:
/// the first masked one, or else the first plain one.
pub open spec fn mapped_address(resp: Seq<u8>, txid: Seq<u8>) -> Option<SocketAddr> {
    if resp.len() < 20 || be16(resp[0], resp[1]) != BINDING_SUCCESS || resp.subrange(4, 8)
        != seq![0x21u8, 0x12u8, 0xA4u8, 0x42u8] || resp.subrange(8, 20) != txid {
        None
    } else {
        let attrs = attributes(resp, attributes_end(resp), 20);
        match first_xor(attrs, txid) {
            Some(a) => Some(a),
            None => first_plain(attrs),
        }
    }
}

/// Whether bytes of the answer are those of the transaction number.
fn same_txid(resp: &[u8], txid: &[u8; 12]) -> (r: bool)
    requires
        resp@.len() >= 20,
    ensures
        r == (resp@.subrange(8, 20) == txid@),
{
    let mut i: usize = 0;
    while i < 12
        invariant
            i <= 12,
            resp@.len() >= 20,
            forall|j: int| 0 <= j < i ==> resp@[8 + j] == #[trigger] txid@[j],
        decreases 12 - i,
    {
        if resp[8 + i] != txid[i] {
            assert(resp@.subrange(8, 20)[i as int] != txid@[i as int]);
            return false;
        }
        i = i + 1;
    }
    assert(resp@.subrange(8, 20) =~= txid@);
    true
}

/// Finds the mapped address in an answer.
pub fn parse_mapped_address(resp: &[u8], txid: &[u8; 12]) -> (r: Option<SocketAddr>)
    ensures
        r == mapped_address(resp@, txid@),
{
    if resp.len() < 20 {
        return None;
    }
    if read_be16(resp, 0) != BINDING_SUCCESS {
        return None;
    }
    if !(resp[4] == 0x21 && resp[5] == 0x12 && resp[6] == 0xA4 && resp[7] == 0x42) {
        proof {
            let s = resp@.subrange(4, 8);
            assert(s[0] == resp@[4] && s[1] == resp@[5] && s[2] == resp@[6] && s[3] == resp@[7]);
        }
        return None;
    }
    assert(resp@.subrange(4, 8) =~= seq![0x21u8, 0x12u8, 0xA4u8, 0x42u8]);
    if !same_txid(resp, txid) {
        return None;
    }
    let said: usize = 20 + read_be16(resp, 2) as usize;
    let end: usize = if said < resp.len() {
        said
    } else {
        resp.len()
    };
    let ghost attrs = attributes(resp@, end as int, 20);
    let mut plain: Option<SocketAddr> = None;
    let mut i: usize = 20;
    while i <= end && end - i >= 4
        invariant
            20 <= i,
            i <= end + 0x1_0004,
            20 <= end <= resp@.len(),
            end <= 20 + 0xffff,
            end == attributes_end(resp@),
            attrs == attributes(resp@, end as int, 20),
            mapped_address(resp@, txid@) == (match first_xor(attrs, txid@) {
                Some(a) => Some(a),
                None => first_plain(attrs),
            }),
            first_xor(attrs, txid@) == first_xor(attributes(resp@, end as int, i as int), txid@),
            first_plain(attrs) == (match plain {
                Some(a) => Some(a),
                None => first_plain(attributes(resp@, end as int, i as int)),
            }),
        ensures
            first_xor(attrs, txid@) is None,
            first_plain(attrs) == plain,
            mapped_address(resp@, txid@) == (match first_xor(attrs, txid@) {
                Some(a) => Some(a),
                None => first_plain(attrs),
            }),
        decreases end + 0x1_0004 - i,
    {
        let kind: u16 = read_be16(resp, i);
        let len: usize = read_be16(resp, i + 2) as usize;
        let start: usize = i + 4;
        if len > resp.len() - start {
            assert(attributes(resp@, end as int, i as int) =~= seq![]);
            break;
        }
        let val: &[u8] = slice_subrange(resp, start, start + len);
        let pad: usize = if len % 4 == 0 {
            0
        } else {
            4 - len % 4
        };
        let next: usize = start + len + pad;
        let ghost here = attributes(resp@, end as int, i as int);
        let ghost rest = attributes(resp@, end as int, next as int);
        assert(here =~= seq![(kind as int, val@)] + rest);
        assert(here.drop_first() =~= rest);
        if kind == ATTR_XOR_MAPPED_ADDRESS {
            let found: Option<SocketAddr> = parse_xor_mapped(val, txid);
            if found.is_some() {
                return found;
            }
        } else if kind == ATTR_MAPPED_ADDRESS {
            if plain.is_none() {
                plain = parse_plain_mapped(val);
            }
        }
        i = next;
    }
    plain
}

/// Reads an address under its mask.
pub fn parse_xor_mapped(val: &[u8], txid: &[u8; 12]) -> (r: Option<SocketAddr>)
    ensures
        r == xor_mapped(val@, txid@),
{
    if val.len() < 8 {
        return None;
    }
    let port: u16 = read_be16(val, 2) ^ 0x2112u16;
    if val[1] == 1 {
        let ip: IpAddr = IpAddr::V4(
            val[4] ^ 0x21u8,
            val[5] ^ 0x12u8,
            val[6] ^ 0xA4u8,
            val[7] ^ 0x42u8,
        );
        Some(SocketAddr { ip, port })
    } else if val[1] == 2 && val.len() >= 20 {
        let mut key: [u8; 16] = [0u8; 16];
        key[0] = 0x21;
        key[1] = 0x12;
        key[2] = 0xA4;
        key[3] = 0x42;
        let mut k: usize = 4;
        while k < 16
            invariant
                4 <= k <= 16,
                key@[0] == 0x21 && key@[1] == 0x12 && key@[2] == 0xA4 && key@[3] == 0x42,
                forall|j: int| 4 <= j < k ==> key@[j] == txid@[j - 4],
            decreases 16 - k,
        {
            key[k] = txid[k - 4];
            k = k + 1;
        }
        assert(key@ =~= mask(txid@));
        let mut a: [u8; 16] = [0u8; 16];
        let mut j: usize = 0;
        while j < 16
            invariant
                j <= 16,
                val@.len() >= 20,
                forall|x: int| 0 <= x < j ==> a@[x] == val@[4 + x] ^ key@[x],
            decreases 16 - j,
        {
            a[j] = val[4 + j] ^ key[j];
            j = j + 1;
        }
        assert(a@ =~= masked(val@.subrange(4, 20), mask(txid@)));
        Some(SocketAddr { ip: ip_from_bytes(&a), port })
    } else {
        None
    }
}

/// The address that sixteen bytes stand for.
pub fn ip_from_bytes(b: &[u8; 16]) -> (r: IpAddr)
    ensures
        r == v6_of(b@),
{
    IpAddr::V6(
        read_be16(b, 0),
        read_be16(b, 2),
        read_be16(b, 4),
        read_be16(b, 6),
        read_be16(b, 8),
        read_be16(b, 10),
        read_be16(b, 12),
        read_be16(b, 14),
    )
}

/// Reads an address that has no mask.
pub fn parse_plain_mapped(val: &[u8]) -> (r: Option<SocketAddr>)
    ensures
        r == plain_mapped(val@),
{
    if val.len() < 8 {
        return None;
    }
    let port: u16 = read_be16(val, 2);
    if val[1] == 1 {
        Some(SocketAddr { ip: IpAddr::V4(val[4], val[5], val[6], val[7]), port })
    } else if val[1] == 2 && val.len() >= 20 {
        let mut a: [u8; 16] = [0u8; 16];
        let mut j: usize = 0;
        while j < 16
            invariant
                j <= 16,
                val@.len() >= 20,
                forall|x: int| 0 <= x < j ==> a@[x] == val@[4 + x],
            decreases 16 - j,
        {
            a[j] = val[4 + j];
            j = j + 1;
        }
        assert(a@ =~= val@.subrange(4, 20));
        Some(SocketAddr { ip: ip_from_bytes(&a), port })
    } else {
        None
    }
}

/// A transaction number from a time and a counter: the eight bytes of the time, the
/// lower four of the counter.
pub fn gen_txid(nanos: u64, ctr: u64) -> (r: [u8; 12])
    ensures
        r@ == be32_bytes(nanos as int / 0x1_0000_0000) + be32_bytes(nanos as int % 0x1_0000_0000)
            + be32_bytes(ctr as int % 0x1_0000_0000),
{
    let high: [u8; 4] = write_be32((nanos / 0x1_0000_0000) as u32);
    let low: [u8; 4] = write_be32((nanos % 0x1_0000_0000) as u32);
    let count: [u8; 4] = write_be32((ctr % 0x1_0000_0000) as u32);
    let r: [u8; 12] = [
        high[0],
        high[1],
        high[2],
        high[3],
        low[0],
        low[1],
        low[2],
        low[3],
        count[0],
        count[1],
        count[2],
        count[3],
    ];
    assert(r@ =~= high@ + low@ + count@);
    r
}

/// The value of an attribute that holds a masked address of four bytes.
pub open spec fn xor_attribute(a: u8, b: u8, c: u8, d: u8, port: u16) -> Seq<u8> {
    let p = port ^ 0x2112u16;
    seq![
        0u8,
        1u8,
        (p / 256) as u8,
        (p % 256) as u8,
        a ^ 0x21u8,
        b ^ 0x12u8,
        c ^ 0xA4u8,
        d ^ 0x42u8,
    ]
}

/// An answer to a request with one attribute of eight bytes.
pub open spec fn answer(txid: Seq<u8>, kind: u16, val: Seq<u8>) -> Seq<u8> {
    seq![1u8, 1u8, 0u8, 12u8, 0x21u8, 0x12u8, 0xA4u8, 0x42u8] + txid + seq![
        (kind / 256) as u8,
        (kind % 256) as u8,
        0u8,
        8u8,
    ] + val
}

/// An answer with one attribute lists just that.
proof fn lemma_answer(txid: Seq<u8>, kind: u16, val: Seq<u8>)
    requires
        txid.len() == 12,
        val.len() == 8,
    ensures
        ({
            let r = answer(txid, kind, val);
            &&& r.len() == 32
            &&& be16(r[0], r[1]) == BINDING_SUCCESS
            &&& r.subrange(4, 8) == seq![0x21u8, 0x12u8, 0xA4u8, 0x42u8]
            &&& r.subrange(8, 20) == txid
            &&& attributes_end(r) == 32
            &&& attributes(r, 32, 20) == seq![(kind as int, val)]
        }),
{
    let r = answer(txid, kind, val);
    assert(r.subrange(4, 8) =~= seq![0x21u8, 0x12u8, 0xA4u8, 0x42u8]);
    assert(r.subrange(8, 20) =~= txid);
    assert(r.subrange(24, 32) =~= val);
    assert(be16(r[20], r[21]) == kind);
    assert(be16(r[22], r[23]) == 8);
    assert(attributes(r, 32, 32) =~= seq![]);
    assert(attributes(r, 32, 20) =~= seq![(kind as int, val)] + attributes(r, 32, 32));
    assert(attributes(r, 32, 20) =~= seq![(kind as int, val)]);
}

/// An address that a server masks in its answer is read back as it was.
pub proof fn law_masked_address_reads_back(txid: Seq<u8>, a: u8, b: u8, c: u8, d: u8, port: u16)
    requires
        txid.len() == 12,
    ensures
        mapped_address(answer(txid, ATTR_XOR_MAPPED_ADDRESS, xor_attribute(a, b, c, d, port)), txid)
            == Some(SocketAddr { ip: IpAddr::V4(a, b, c, d), port }),
{
    let val = xor_attribute(a, b, c, d, port);
    let p = port ^ 0x2112u16;
    lemma_answer(txid, ATTR_XOR_MAPPED_ADDRESS, val);
    assert(be16(val[2], val[3]) == p);
    assert((port ^ 0x2112u16) ^ 0x2112u16 == port) by (bit_vector);
    assert((a ^ 0x21u8) ^ 0x21u8 == a) by (bit_vector);
    assert((b ^ 0x12u8) ^ 0x12u8 == b) by (bit_vector);
    assert((c ^ 0xA4u8) ^ 0xA4u8 == c) by (bit_vector);
    assert((d ^ 0x42u8) ^ 0x42u8 == d) by (bit_vector);
    let attrs = seq![(ATTR_XOR_MAPPED_ADDRESS as int, val)];
    assert(attrs[0].1 == val);
}

/// The value of an attribute under its mask: the port and the address, of up to sixteen
/// bytes, are masked. What comes after it is not.
pub open spec fn masked_value(val: Seq<u8>, txid: Seq<u8>) -> Seq<u8> {
    let end = if val.len() < 20 {
        val.len() as int
    } else {
        20
    };
    val.take(2) + masked(val.subrange(2, 4), mask(txid)) + masked(
        val.subrange(4, end),
        mask(txid),
    ) + val.skip(end)
}

/// The mask is undone: what is read of a masked address, of four bytes or of sixteen, is
/// what is read of the address as it is, whatever comes after it.
pub proof fn law_mask_is_undone(val: Seq<u8>, txid: Seq<u8>)
    requires
        txid.len() == 12,
        (val.len() >= 8 && val[1] == 1) || (val.len() >= 20 && val[1] == 2),
    ensures
        xor_mapped(masked_value(val, txid), txid) == plain_mapped(val),
        plain_mapped(val) is Some,
{
    let m = mask(txid);
    let w = masked_value(val, txid);
    let x: u8 = val[2];
    let y: u8 = val[3];
    assert(w.len() == val.len() && w[1] == val[1]);
    assert(w[2] == x ^ 0x21u8 && w[3] == y ^ 0x12u8);
    assert((((x ^ 0x21u8) as u16 * 256u16 + (y ^ 0x12u8) as u16) as u16) ^ 0x2112u16 == (x as u16
        * 256u16 + y as u16) as u16) by (bit_vector);
    assert forall|i: int| 4 <= i < val.len() && i < 20 implies #[trigger] w[i] ^ m[i - 4]
        == val[i] by {
        let b: u8 = val[i];
        let k: u8 = m[i - 4];
        assert(w[i] == b ^ k);
        assert((b ^ k) ^ k == b) by (bit_vector);
    }
    if val[1] == 1 {
        assert(w[4] ^ m[0] == val[4] && w[5] ^ m[1] == val[5]);
        assert(w[6] ^ m[2] == val[6] && w[7] ^ m[3] == val[7]);
    } else {
        assert(masked(w.subrange(4, 20), m) =~= val.subrange(4, 20)) by {
            assert forall|i: int| 0 <= i < 16 implies #[trigger] masked(w.subrange(4, 20), m)[i]
                == val.subrange(4, 20)[i] by {
                assert(w[i + 4] ^ m[i + 4 - 4] == val[i + 4]);
            }
        }
    }
}

/// An answer to another request says nothing.
pub proof fn law_other_transactions_are_refused(resp: Seq<u8>, txid: Seq<u8>, other: Seq<u8>)
    requires
        mapped_address(resp, txid) is Some,
        other != txid,
    ensures
        mapped_address(resp, other) is None,
{
}

/// A request says that it is one, has no attributes, and carries the magic number and the
/// transaction number.
pub proof fn law_request_carries_its_number(txid: Seq<u8>)
    requires
        txid.len() == 12,
    ensures
        request_bytes(txid).len() == 20,
        request_bytes(txid)[0] == 0 && request_bytes(txid)[1] == 1,
        request_bytes(txid)[2] == 0 && request_bytes(txid)[3] == 0,
        request_bytes(txid).subrange(4, 8) == seq![0x21u8, 0x12u8, 0xA4u8, 0x42u8],
        request_bytes(txid).skip(8) == txid,
{
    assert(request_bytes(txid).subrange(4, 8) =~= seq![0x21u8, 0x12u8, 0xA4u8, 0x42u8]);
    assert(request_bytes(txid).skip(8) =~= txid);
}

/// An address as it is can be read just where its kind is told as one of four bytes and they
/// are there, or as one of sixteen and they are there. A masked one can be read just where
/// one that is not masked could.
pub proof fn law_addresses_that_can_be_read(val: Seq<u8>, txid: Seq<u8>)
    ensures
        plain_mapped(val) is Some <==> (val.len() >= 8 && val[1] == 1) || (val.len() >= 20 && val[1]
            == 2),
        xor_mapped(val, txid) is Some <==> plain_mapped(val) is Some,
        val.len() >= 8 && val[1] == 1 ==> plain_mapped(val) == Some(
            SocketAddr {
                ip: IpAddr::V4(val[4], val[5], val[6], val[7]),
                port: (256 * val[2] + val[3]) as u16,
            },
        ),
        val.len() >= 20 && val[1] == 2 ==> plain_mapped(val) == Some(
            SocketAddr { ip: v6_of(val.subrange(4, 20)), port: (256 * val[2] + val[3]) as u16 },
        ),
{
}

/// The masked address in an answer is the first that can be read among the attributes of
/// its kind.
pub proof fn law_first_masked_address_counts(
    attrs: Seq<(int, Seq<u8>)>,
    txid: Seq<u8>,
    i: int,
)
    requires
        0 <= i < attrs.len(),
        attrs[i].0 == 0x20,
        xor_mapped(attrs[i].1, txid) is Some,
        forall|j: int|
            0 <= j < i ==> (#[trigger] attrs[j]).0 != 0x20 || xor_mapped(attrs[j].1, txid) is None,
    ensures
        first_xor(attrs, txid) == xor_mapped(attrs[i].1, txid),
    decreases attrs.len(),
{
    if i > 0 {
        let rest = attrs.drop_first();
        assert(attrs[0].0 != 0x20 || xor_mapped(attrs[0].1, txid) is None);
        assert forall|j: int| 0 <= j < i - 1 implies (#[trigger] rest[j]).0 != 0x20 || xor_mapped(
            rest[j].1,
            txid,
        ) is None by {
            assert(rest[j] == attrs[j + 1]);
        }
        law_first_masked_address_counts(rest, txid, i - 1);
    }
}

/// The plain address in an answer is the first that can be read among the attributes of its
/// kind.
pub proof fn law_first_plain_address_counts(attrs: Seq<(int, Seq<u8>)>, i: int)
    requires
        0 <= i < attrs.len(),
        attrs[i].0 == 1,
        plain_mapped(attrs[i].1) is Some,
        forall|j: int|
            0 <= j < i ==> (#[trigger] attrs[j]).0 != 1 || plain_mapped(attrs[j].1) is None,
    ensures
        first_plain(attrs) == plain_mapped(attrs[i].1),
    decreases attrs.len(),
{
    if i > 0 {
        let rest = attrs.drop_first();
        assert(attrs[0].0 != 1 || plain_mapped(attrs[0].1) is None);
        assert forall|j: int| 0 <= j < i - 1 implies (#[trigger] rest[j]).0 != 1 || plain_mapped(
            rest[j].1,
        ) is None by {
            assert(rest[j] == attrs[j + 1]);
        }
        law_first_plain_address_counts(rest, i - 1);
    }
}

/// No address of a kind is found just where none of the attributes of that kind can be read.
pub proof fn law_no_address_where_none_can_be_read(attrs: Seq<(int, Seq<u8>)>, txid: Seq<u8>)
    ensures
        first_xor(attrs, txid) is None <==> forall|i: int|
            0 <= i < attrs.len() ==> (#[trigger] attrs[i]).0 != 0x20 || xor_mapped(
                attrs[i].1,
                txid,
            ) is None,
        first_plain(attrs) is None <==> forall|i: int|
            0 <= i < attrs.len() ==> (#[trigger] attrs[i]).0 != 1 || plain_mapped(
                attrs[i].1,
            ) is None,
    decreases attrs.len(),
{
    if attrs.len() > 0 {
        let rest = attrs.drop_first();
        law_no_address_where_none_can_be_read(rest, txid);
        assert forall|i: int| 0 <= i < rest.len() implies #[trigger] rest[i] == attrs[i + 1] by {}
        if first_xor(attrs, txid) is None {
            assert forall|i: int| 0 <= i < attrs.len() implies (#[trigger] attrs[i]).0 != 0x20
                || xor_mapped(attrs[i].1, txid) is None by {
                if i > 0 {
                    assert(rest[i - 1] == attrs[i]);
                }
            }
        }
        if first_plain(attrs) is None {
            assert forall|i: int| 0 <= i < attrs.len() implies (#[trigger] attrs[i]).0 != 1
                || plain_mapped(attrs[i].1) is None by {
                if i > 0 {
                    assert(rest[i - 1] == attrs[i]);
                }
            }
        }
        if forall|i: int|
            0 <= i < attrs.len() ==> (#[trigger] attrs[i]).0 != 0x20 || xor_mapped(
                attrs[i].1,
                txid,
            ) is None {
            assert(attrs[0].0 != 0x20 || xor_mapped(attrs[0].1, txid) is None);
            assert forall|i: int| 0 <= i < rest.len() implies (#[trigger] rest[i]).0 != 0x20
                || xor_mapped(rest[i].1, txid) is None by {
                assert(rest[i] == attrs[i + 1]);
            }
        }
        if forall|i: int|
            0 <= i < attrs.len() ==> (#[trigger] attrs[i]).0 != 1 || plain_mapped(
                attrs[i].1,
            ) is None {
            assert(attrs[0].0 != 1 || plain_mapped(attrs[0].1) is None);
            assert forall|i: int| 0 <= i < rest.len() implies (#[trigger] rest[i]).0 != 1
                || plain_mapped(rest[i].1) is None by {
                assert(rest[i] == attrs[i + 1]);
            }
        }
    }
}

/// An answer says something just where it is long enough, is a success, carries the magic
/// number and our transaction number, and has an address that can be read; a masked one goes
/// before a plain one.
pub proof fn law_answers_that_say_something(resp: Seq<u8>, txid: Seq<u8>)
    requires
        txid.len() == 12,
    ensures
        ({
            let ours = resp.len() >= 20 && resp[0] == 1 && resp[1] == 1 && resp.subrange(4, 20)
                == seq![0x21u8, 0x12u8, 0xA4u8, 0x42u8] + txid;
            let attrs = attributes(resp, attributes_end(resp), 20);
            &&& !ours ==> mapped_address(resp, txid) is None
            &&& ours && first_xor(attrs, txid) is Some ==> mapped_address(resp, txid) == first_xor(
                attrs,
                txid,
            )
            &&& ours && first_xor(attrs, txid) is None ==> mapped_address(resp, txid)
                == first_plain(attrs)
        }),
{
    if resp.len() >= 20 {
        let head = resp.subrange(4, 20);
        let cookie = seq![0x21u8, 0x12u8, 0xA4u8, 0x42u8];
        assert(head.take(4) =~= resp.subrange(4, 8));
        assert(head.skip(4) =~= resp.subrange(8, 20));
        assert((cookie + txid).take(4) =~= cookie);
        assert((cookie + txid).skip(4) =~= txid);
        assert(head =~= head.take(4) + head.skip(4));
    }
}

/// The attributes end where the answer says, or with the answer where that is shorter.
pub proof fn law_attributes_end_within_the_answer(resp: Seq<u8>)
    requires
        resp.len() >= 20,
    ensures
        attributes_end(resp) <= resp.len(),
        attributes_end(resp) <= 20 + 256 * resp[2] + resp[3],
        attributes_end(resp) == resp.len() || attributes_end(resp) == 20 + 256 * resp[2] + resp[3],
{
}

/// Values are filled up to a multiple of four, with no more than that takes.
pub proof fn law_values_are_filled_up(len: int)
    requires
        0 <= len,
    ensures
        (len + padding(len)) % 4 == 0,
        0 <= padding(len) < 4,
{
}

/// An attribute as it is written: its kind, the length of its value, the value, and zeros up
/// to a multiple of four.
pub open spec fn attribute_bytes(kind: u16, val: Seq<u8>) -> Seq<u8> {
    seq![
        (kind / 256) as u8,
        (kind % 256) as u8,
        (val.len() / 256) as u8,
        (val.len() % 256) as u8,
    ] + val + Seq::new(((4 - val.len() % 4) % 4) as nat, |i: int| 0u8)
}

/// An attribute that is written in an answer, wherever it stands in it, is read back, and
/// what stands after it is read on.
pub proof fn law_attribute_reads_back(front: Seq<u8>, kind: u16, val: Seq<u8>, rest: Seq<u8>)
    requires
        val.len() < 0x1_0000,
    ensures
        ({
            let resp = front + attribute_bytes(kind, val) + rest;
            let i: int = front.len() as int;
            let n: int = resp.len() as int;
            &&& attributes(resp, n, i) == seq![(kind as int, val)] + attributes(
                resp,
                n,
                i + attribute_bytes(kind, val).len(),
            )
            &&& attributes(resp, n, n) == Seq::<(int, Seq<u8>)>::empty()
        }),
{
    let a = attribute_bytes(kind, val);
    let resp = front + a + rest;
    let i: int = front.len() as int;
    let n: int = resp.len() as int;
    let len: int = val.len() as int;
    assert(resp[i] == a[0] && resp[i + 1] == a[1] && resp[i + 2] == a[2] && resp[i + 3] == a[3]);
    assert(be16(resp[i], resp[i + 1]) == kind);
    assert(be16(resp[i + 2], resp[i + 3]) == len);
    assert(padding(len) == (4 - len % 4) % 4);
    assert(a.len() == 4 + len + padding(len));
    assert(resp.subrange(i + 4, i + 4 + len) =~= val) by {
        assert forall|j: int| 0 <= j < len implies resp[i + 4 + j] == val[j] by {
            assert(resp[i + 4 + j] == a[4 + j]);
        }
    }
    assert(attributes(resp, n, n) =~= seq![]);
}

/// A value that would run beyond the answer ends the list.
pub proof fn law_cut_value_ends_the_list(resp: Seq<u8>, end: int, i: int)
    requires
        0 <= i,
        i + 4 <= end <= resp.len(),
    ensures
        i + 4 + 256 * resp[i + 2] + resp[i + 3] > resp.len() ==> attributes(resp, end, i).len() == 0,
        i + 4 + 256 * resp[i + 2] + resp[i + 3] <= resp.len() ==> attributes(resp, end, i).len() > 0
            && attributes(resp, end, i)[0] == (
            256 * resp[i] + resp[i + 1],
            resp.subrange(i + 4, i + 4 + 256 * resp[i + 2] + resp[i + 3]),
        ),
{
}

/// The mask of an address is the magic number and then the transaction number. Masking takes
/// each byte of the address with the byte of the mask at the same place.
pub proof fn law_address_under_its_mask(val: Seq<u8>, txid: Seq<u8>, i: int)
    requires
        txid.len() == 12,
        val.len() >= 20,
        0 <= i < 12,
    ensures
        mask(txid).len() == 16,
        mask(txid)[0] == 0x21 && mask(txid)[1] == 0x12 && mask(txid)[2] == 0xA4 && mask(txid)[3]
            == 0x42,
        mask(txid)[4 + i] == txid[i],
        masked(val.subrange(4, 20), mask(txid)).len() == 16,
        masked(val.subrange(4, 20), mask(txid))[4 + i] == val[8 + i] ^ txid[i],
        val[1] == 2 ==> xor_mapped(val, txid) == Some(
            SocketAddr {
                ip: v6_of(masked(val.subrange(4, 20), mask(txid))),
                port: ((256 * val[2] + val[3]) as u16) ^ 0x2112u16,
            },
        ),
        val[1] == 1 ==> xor_mapped(val, txid) == Some(
            SocketAddr {
                ip: IpAddr::V4(val[4] ^ 0x21, val[5] ^ 0x12, val[6] ^ 0xA4, val[7] ^ 0x42),
                port: ((256 * val[2] + val[3]) as u16) ^ 0x2112u16,
            },
        ),
{
}

/// The numbers of the protocol.
pub proof fn law_numbers_of_the_protocol()
    ensures
        MAGIC_COOKIE == 0x2112_A442,
        BINDING_REQUEST == 1,
        BINDING_SUCCESS == 0x101,
        ATTR_MAPPED_ADDRESS == 1,
        ATTR_XOR_MAPPED_ADDRESS == 0x20,
{
}

} // verus!
