//! Minimal STUN messages (RFC 5389 binding request) to discover the public
//! address of the host's UDP port, so the host can tell bandmates what to
//! connect to.
use crate::addr::SocketAddr;
use crate::bytes;
use crate::bytes::{get_uint, put_slice, put_uint};
use crate::net;
use crate::net::lcg_next;
use vstd::prelude::*;

verus! {

pub const MAGIC_COOKIE: u32 = 0x2112_A442;

pub const BINDING_REQUEST: u16 = 0x0001;

pub const BINDING_RESPONSE: u16 = 0x0101;

pub const ATTR_XOR_MAPPED_ADDRESS: u16 = 0x0020;

pub const ATTR_MAPPED_ADDRESS: u16 = 0x0001;

/// The header of every message.
pub const MESSAGE_HEADER_LEN: usize = 20;

/// A binding request without attributes.
pub open spec fn request_bytes(txid: Seq<u8>) -> Seq<u8> {
    bytes::be_bytes(BINDING_REQUEST as nat, 2) + bytes::be_bytes(0, 2) + bytes::be_bytes(
        MAGIC_COOKIE as nat,
        4,
    ) + txid
}

/// Writes a binding request.
pub fn binding_request(txid: &[u8; 12]) -> (request: [u8; 20])
    ensures
        request@ == request_bytes(txid@),
{
    let mut request = [0u8; 20];
    let ghost start = request@;
    let ghost a = bytes::be_bytes(BINDING_REQUEST as nat, 2);
    let ghost b = bytes::be_bytes(0, 2);
    let ghost c = bytes::be_bytes(MAGIC_COOKIE as nat, 4);
    proof {
        bytes::lemma_be_bytes_len(BINDING_REQUEST as nat, 2);
        bytes::lemma_be_bytes_len(0, 2);
        bytes::lemma_be_bytes_len(MAGIC_COOKIE as nat, 4);
    }
    let n: usize = put_uint(&mut request, 0, BINDING_REQUEST as u64, 2);
    let n: usize = put_uint(&mut request, n, 0, 2);
    let n: usize = put_uint(&mut request, n, MAGIC_COOKIE as u64, 4);
    let _ = put_slice(&mut request, n, txid.as_slice());
    proof {
        bytes::lemma_overwrite_append(start, 0, a, 2, b);
        bytes::lemma_overwrite_append(start, 0, a + b, 4, c);
        bytes::lemma_overwrite_append(start, 0, a + b + c, 8, txid@);
        assert(request@ =~= request_bytes(txid@));
    }
    request
}

/// The transaction id that a seed makes: the upper halves of three generator
/// states, four bytes each.
pub open spec fn txid_of(seed: u64) -> Seq<u8> {
    txid_part(seed, 1) + txid_part(seed, 2) + txid_part(seed, 3)
}

pub open spec fn txid_part(seed: u64, n: nat) -> Seq<u8> {
    bytes::be_bytes((net::lcg_after(seed, n) / 0x1_0000_0000) as nat, 4)
}

/// A transaction id from a seed.
pub fn transaction_id(seed: u64) -> (id: [u8; 12])
    ensures
        id@ == txid_of(seed),
{
    let mut id = [0u8; 12];
    let ghost start = id@;
    let first: u64 = lcg_next(seed);
    let second: u64 = lcg_next(first);
    let third: u64 = lcg_next(second);
    let ghost a = txid_part(seed, 1);
    let ghost b = txid_part(seed, 2);
    let ghost c = txid_part(seed, 3);
    proof {
        reveal_with_fuel(net::lcg_after, 4);
        lemma_txid_part_len(seed, 1);
        lemma_txid_part_len(seed, 2);
        lemma_txid_part_len(seed, 3);
    }
    let n: usize = put_uint(&mut id, 0, first / 0x1_0000_0000, 4);
    let n: usize = put_uint(&mut id, n, second / 0x1_0000_0000, 4);
    let _ = put_uint(&mut id, n, third / 0x1_0000_0000, 4);
    proof {
        bytes::lemma_overwrite_append(start, 0, a, 4, b);
        bytes::lemma_overwrite_append(start, 0, a + b, 8, c);
        assert(id@ =~= txid_of(seed));
    }
    id
}

proof fn lemma_txid_part_len(seed: u64, n: nat)
    ensures
        txid_part(seed, n).len() == 4,
{
    bytes::lemma_be_bytes_len((net::lcg_after(seed, n) / 0x1_0000_0000) as nat, 4);
}

/// The transaction id depends on the seed: two seeds whose first generator
/// states differ in their upper halves make different ids, so that a response
/// to the one request is not taken for a response to the other.
pub proof fn law_transaction_ids_differ(a: u64, b: u64)
    requires
        net::lcg_after(a, 1) / 0x1_0000_0000 != net::lcg_after(b, 1) / 0x1_0000_0000,
    ensures
        txid_of(a) != txid_of(b),
        forall|msg: Seq<u8>| #[trigger] answers(msg, txid_of(a)) ==> !answers(msg, txid_of(b)),
{
    let x = net::lcg_after(a, 1) / 0x1_0000_0000;
    let y = net::lcg_after(b, 1) / 0x1_0000_0000;
    bytes::lemma_pow256();
    bytes::lemma_be_value_of_bytes(x as nat, 4);
    bytes::lemma_be_value_of_bytes(y as nat, 4);
    lemma_txid_part_len(a, 1);
    lemma_txid_part_len(b, 1);
    assert(txid_of(a).take(4) =~= txid_part(a, 1));
    assert(txid_of(b).take(4) =~= txid_part(b, 1));
}

/// The seed that a time and a process id make.
pub open spec fn seed_of(nanos: u64, pid: u32) -> u64 {
    nanos ^ (pid as u64 * 0x1_0000_0000) as u64
}

/// The seed that a time and a process id make.
pub fn txid_seed(nanos: u64, pid: u32) -> (seed: u64)
    ensures
        seed == seed_of(nanos, pid),
{
    nanos ^ (pid as u64 * 0x1_0000_0000)
}

/// Two processes that ask at the same instant never use the same transaction id.
pub proof fn law_processes_have_their_own_ids(nanos: u64, p: u32, q: u32)
    requires
        p != q,
    ensures
        txid_of(seed_of(nanos, p)) != txid_of(seed_of(nanos, q)),
{
    let a = seed_of(nanos, p);
    let b = seed_of(nanos, q);
    let x = (p as u64 * 0x1_0000_0000) as u64;
    let y = (q as u64 * 0x1_0000_0000) as u64;
    assert((nanos ^ x) % 0x1_0000_0000 == (nanos ^ y) % 0x1_0000_0000 && (x != y ==> (nanos ^ x)
        / 0x1_0000_0000 != (nanos ^ y) / 0x1_0000_0000)) by (bit_vector)
        requires
            x % 0x1_0000_0000 == 0,
            y % 0x1_0000_0000 == 0,
    ;
    lemma_upper_halves_differ(a, b);
    reveal_with_fuel(net::lcg_after, 2);
    law_transaction_ids_differ(a, b);
}

/// The generator keeps states apart that differ in their upper halves alone: its
/// multiplier is odd, so it has an inverse modulo 2^32.
proof fn lemma_upper_halves_differ(a: u64, b: u64)
    requires
        a % 0x1_0000_0000 == b % 0x1_0000_0000,
        a / 0x1_0000_0000 != b / 0x1_0000_0000,
    ensures
        net::lcg(a) / 0x1_0000_0000 != net::lcg(b) / 0x1_0000_0000,
{
    let l = a as int % 0x1_0000_0000;
    let ah = a as int / 0x1_0000_0000;
    let bh = b as int / 0x1_0000_0000;
    lemma_upper_half(a);
    lemma_upper_half(b);
    let carry = (l * 6364136223846793005 + 1442695040888963407) / 0x1_0000_0000;
    let x = ah * 6364136223846793005 + carry;
    let y = bh * 6364136223846793005 + carry;
    if x % 0x1_0000_0000 == y % 0x1_0000_0000 {
        let d = ah - bh;
        let t = x / 0x1_0000_0000 - y / 0x1_0000_0000;
        assert(d * 6364136223846793005 == t * 0x1_0000_0000);
        let z = t * 849225893 - 1258353997922954309 * d;
        assert(d == z * 0x1_0000_0000);
        assert(false);
    }
}

proof fn lemma_upper_half(a: u64)
    ensures
        ({
            let l = a as int % 0x1_0000_0000;
            let h = a as int / 0x1_0000_0000;
            net::lcg(a) / 0x1_0000_0000 == (h * 6364136223846793005 + (l * 6364136223846793005
                + 1442695040888963407) / 0x1_0000_0000) % 0x1_0000_0000
        }),
{
    let l = a as int % 0x1_0000_0000;
    let h = a as int / 0x1_0000_0000;
    let low = l * 6364136223846793005 + 1442695040888963407;
    let all = a * 6364136223846793005 + 1442695040888963407;
    let w: int = 0x1_0000_0000;
    assert(all == low + h * 6364136223846793005 * w);
    vstd::arithmetic::div_mod::lemma_hoist_over_denominator(low, h * 6364136223846793005, w as nat);
    vstd::arithmetic::div_mod::lemma_mod_breakdown(all, w, w);
    assert(w * w == 0x1_0000_0000_0000_0000) by (nonlinear_arith)
        requires
            w == 0x1_0000_0000,
    ;
    assert(net::lcg(a) == w * ((all / w) % w) + all % w);
}

/// Whether a message is a response to our request.
pub open spec fn answers(msg: Seq<u8>, txid: Seq<u8>) -> bool {
    &&& msg.len() >= MESSAGE_HEADER_LEN
    &&& bytes::be_value(msg.subrange(0, 2)) == BINDING_RESPONSE
    &&& msg.subrange(8, 20) == txid
}

/// Whether a message is a response to the request with our transaction id;
/// other session traffic may interleave.
pub fn is_response(msg: &[u8], txid: &[u8; 12]) -> (r: bool)
    ensures
        r == answers(msg@, txid@),
{
    if msg.len() < MESSAGE_HEADER_LEN {
        return false;
    }
    if get_uint(msg, 0, 2) != BINDING_RESPONSE as u64 {
        return false;
    }
    let mut i: usize = 0;
    while i < 12
        invariant
            i <= 12,
            msg@.len() >= MESSAGE_HEADER_LEN,
            forall|j: int| 0 <= j < i ==> msg@[8 + j] == txid@[j],
        decreases 12 - i,
    {
        if msg[8 + i] != txid[i] {
            assert(msg@.subrange(8, 20)[i as int] != txid@[i as int]);
            return false;
        }
        i = i + 1;
    }
    assert(msg@.subrange(8, 20) =~= txid@);
    true
}

/// The address in the value of an address attribute (IPv4 only). In its
/// xor-ed form the port and the address are xor-ed with the magic cookie.
pub open spec fn address_in(value: Seq<u8>, xored: bool) -> Option<SocketAddr> {
    if value.len() < 8 || value[1] != 0x01 {
        None
    } else {
        let port = bytes::be_value(value.subrange(2, 4)) as u16;
        let ip = bytes::be_value(value.subrange(4, 8)) as u32;
        if xored {
            Some(
                SocketAddr::V4 {
                    ip: ip ^ MAGIC_COOKIE,
                    port: port ^ ((MAGIC_COOKIE / 0x1_0000) as u16),
                },
            )
        } else {
            Some(SocketAddr::V4 { ip, port })
        }
    }
}

/// The first address among the attributes. Attributes are 4-byte aligned.
pub open spec fn address_among(attrs: Seq<u8>) -> Option<SocketAddr>
    decreases attrs.len(),
{
    if attrs.len() < 4 {
        None
    } else {
        let kind = bytes::be_value(attrs.subrange(0, 2));
        let len = bytes::be_value(attrs.subrange(2, 4)) as int;
        let advance = 4 + (len + 3) / 4 * 4;
        if 4 + len > attrs.len() {
            None
        } else if kind == ATTR_XOR_MAPPED_ADDRESS {
            address_in(attrs.subrange(4, 4 + len), true)
        } else if kind == ATTR_MAPPED_ADDRESS {
            address_in(attrs.subrange(4, 4 + len), false)
        } else if advance > attrs.len() {
            None
        } else {
            address_among(attrs.skip(advance))
        }
    }
}

/// The address that a binding response reports.
pub open spec fn reported_address(msg: Seq<u8>) -> Option<SocketAddr> {
    let len = bytes::be_value(msg.subrange(2, 4)) as int;
    if 20 + len > msg.len() {
        None
    } else {
        address_among(msg.subrange(20, 20 + len))
    }
}

fn parse_address(value: &[u8], xored: bool) -> (addr: Option<SocketAddr>)
    ensures
        addr == address_in(value@, xored),
{
    if value.len() < 8 || value[1] != 0x01 {
        return None;  // IPv4 only
    }
    proof {
        bytes::lemma_pow256();
    }
    let port: u16 = get_uint(value, 2, 2) as u16;
    let ip: u32 = get_uint(value, 4, 4) as u32;
    if xored {
        Some(
            SocketAddr::V4 {
                ip: ip ^ MAGIC_COOKIE,
                port: port ^ ((MAGIC_COOKIE / 0x1_0000) as u16),
            },
        )
    } else {
        Some(SocketAddr::V4 { ip, port })
    }
}

pub fn parse_binding_response(msg: &[u8]) -> (addr: Option<SocketAddr>)
    requires
        msg@.len() >= 4,
    ensures
        addr == reported_address(msg@),
{
    proof {
        bytes::lemma_pow256();
    }
    let total: usize = msg.len();
    let attr_len: usize = get_uint(msg, 2, 2) as usize;
    if attr_len > total || total - attr_len < 20 {
        return None;
    }
    let end: usize = 20 + attr_len;
    let mut at: usize = 20;
    while end - at >= 4
        invariant
            20 <= at <= end <= total,
            total == msg@.len(),
            reported_address(msg@) == address_among(msg@.subrange(at as int, end as int)),
        decreases end - at,
    {
        let ghost attrs = msg@.subrange(at as int, end as int);
        proof {
            bytes::lemma_pow256();
            assert(attrs.subrange(0, 2) =~= msg@.subrange(at as int, at + 2));
            assert(attrs.subrange(2, 4) =~= msg@.subrange(at + 2, at + 4));
        }
        let kind: u64 = get_uint(msg, at, 2);
        let len: usize = get_uint(msg, at + 2, 2) as usize;
        if len > end - at - 4 {
            return None;
        }
        assert(attrs.subrange(4, 4 + len) =~= msg@.subrange(at + 4, at + 4 + len));
        let value = &msg[at + 4..at + 4 + len];
        if kind == ATTR_XOR_MAPPED_ADDRESS as u64 {
            return parse_address(value, true);
        }
        if kind == ATTR_MAPPED_ADDRESS as u64 {
            return parse_address(value, false);
        }
        let advance: usize = 4 + (len + 3) / 4 * 4;
        if advance > end - at {
            return None;
        }
        assert(attrs.skip(advance as int) =~= msg@.subrange(at + advance, end as int));
        at = at + advance;
    }
    None
}

/// The address attribute in its xor-ed form.
pub open spec fn xored_attribute(ip: u32, port: u16) -> Seq<u8> {
    seq![0u8, 1u8] + bytes::be_bytes((port ^ ((MAGIC_COOKIE / 0x1_0000) as u16)) as nat, 2)
        + bytes::be_bytes((ip ^ MAGIC_COOKIE) as nat, 4)
}

/// What a server xors into an address attribute is undone by reading it.
pub proof fn law_xored_address_is_recovered(ip: u32, port: u16)
    ensures
        address_in(xored_attribute(ip, port), true) == Some(SocketAddr::V4 { ip, port }),
{
    let mask = (MAGIC_COOKIE / 0x1_0000) as u16;
    let xport = port ^ mask;
    let xip = ip ^ MAGIC_COOKIE;
    let value = xored_attribute(ip, port);
    bytes::lemma_pow256();
    bytes::lemma_be_bytes_len(xport as nat, 2);
    bytes::lemma_be_bytes_len(xip as nat, 4);
    bytes::lemma_be_value_of_bytes(xport as nat, 2);
    bytes::lemma_be_value_of_bytes(xip as nat, 4);
    assert(value.subrange(2, 4) =~= bytes::be_bytes(xport as nat, 2));
    assert(value.subrange(4, 8) =~= bytes::be_bytes(xip as nat, 4));
    assert((port ^ mask) ^ mask == port) by (bit_vector);
    let cookie = MAGIC_COOKIE;
    assert((ip ^ cookie) ^ cookie == ip) by (bit_vector);
}

/// A request is a header of 20 bytes: the kind, no attributes, the magic cookie,
/// and the transaction id.
pub proof fn law_request_layout(txid: Seq<u8>)
    requires
        txid.len() == 12,
    ensures
        ({
            let r = request_bytes(txid);
            &&& r.len() == 20
            &&& r.subrange(0, 8) == seq![0x00u8, 0x01, 0x00, 0x00, 0x21, 0x12, 0xA4, 0x42]
            &&& r.subrange(8, 20) == txid
        }),
{
    bytes::law_numbers_are_big_endian(1, MAGIC_COOKIE, 0);
    bytes::law_numbers_are_big_endian(0, 0, 0);
    let r = request_bytes(txid);
    assert(r.subrange(0, 8) =~= seq![0x00u8, 0x01, 0x00, 0x00, 0x21, 0x12, 0xA4, 0x42]);
    assert(r.subrange(8, 20) =~= txid);
}

/// The transaction id is as long as it has to be, and each four bytes of it are
/// the upper half of the next state of the generator.
pub proof fn law_transaction_id_layout(seed: u64)
    ensures
        txid_of(seed).len() == 12,
        bytes::be_value(txid_of(seed).subrange(0, 4)) == net::lcg(seed) / 0x1_0000_0000,
        bytes::be_value(txid_of(seed).subrange(4, 8)) == bytes::be_value(
            txid_of(net::lcg(seed) as u64).subrange(0, 4),
        ),
        bytes::be_value(txid_of(seed).subrange(8, 12)) == bytes::be_value(
            txid_of(net::lcg(seed) as u64).subrange(4, 8),
        ),
{
    let next = net::lcg(seed) as u64;
    bytes::lemma_pow256();
    lemma_txid_part_len(seed, 1);
    lemma_txid_part_len(seed, 2);
    lemma_txid_part_len(seed, 3);
    lemma_txid_part_len(next, 1);
    lemma_txid_part_len(next, 2);
    lemma_txid_part_len(next, 3);
    reveal_with_fuel(net::lcg_after, 4);
    bytes::lemma_be_value_of_bytes((net::lcg_after(seed, 1) / 0x1_0000_0000) as nat, 4);
    assert(txid_of(seed).subrange(0, 4) =~= txid_part(seed, 1));
    assert(txid_of(seed).subrange(4, 8) =~= txid_part(seed, 2));
    assert(txid_of(seed).subrange(8, 12) =~= txid_part(seed, 3));
    assert(txid_of(next).subrange(0, 4) =~= txid_part(next, 1));
    assert(txid_of(next).subrange(4, 8) =~= txid_part(next, 2));
    assert(net::lcg_after(next, 1) == net::lcg_after(seed, 2));
    assert(net::lcg_after(next, 2) == net::lcg_after(seed, 3));
}

/// A message answers our request exactly if it is a whole header that says that
/// it is a response and carries our transaction id.
pub proof fn law_answers_carry_our_id(msg: Seq<u8>, txid: Seq<u8>)
    requires
        txid.len() == 12,
    ensures
        answers(msg, txid) <==> msg.len() >= 20 && msg[0] == 0x01 && msg[1] == 0x01 && forall|
            i: int,
        | 0 <= i < 12 ==> #[trigger] txid[i] == msg[8 + i],
{
    if msg.len() >= 20 {
        let kind = msg.subrange(0, 2);
        reveal_with_fuel(bytes::be_value, 3);
        assert(kind.drop_last().drop_last() =~= Seq::<u8>::empty());
        assert(bytes::be_value(kind) == msg[0] * 256 + msg[1]);
        let id = msg.subrange(8, 20);
        assert(id =~= txid <==> forall|i: int| 0 <= i < 12 ==> #[trigger] txid[i] == msg[8 + i]) by {
            if id =~= txid {
                assert forall|i: int| 0 <= i < 12 implies #[trigger] txid[i] == msg[8 + i] by {
                    assert(id[i] == msg[8 + i]);
                }
            }
        }
    }
}

proof fn lemma_be_two(s: Seq<u8>)
    requires
        s.len() == 2,
    ensures
        bytes::be_value(s) == s[0] * 0x100 + s[1],
{
    reveal_with_fuel(bytes::be_value, 3);
    assert(s.drop_last().drop_last() =~= Seq::<u8>::empty());
}

proof fn lemma_be_four(s: Seq<u8>)
    requires
        s.len() == 4,
    ensures
        bytes::be_value(s) == s[0] * 0x100_0000 + s[1] * 0x1_0000 + s[2] * 0x100 + s[3],
{
    reveal_with_fuel(bytes::be_value, 5);
    assert(s.drop_last().drop_last().drop_last().drop_last() =~= Seq::<u8>::empty());
}

/// An address attribute in its plain form: the family, the port and the
/// address, whatever follows. Only IPv4 counts, and only if it is whole.
pub proof fn law_plain_address_is_read(value: Seq<u8>)
    ensures
        value.len() >= 8 && value[1] == 1 ==> address_in(value, false) == Some(
            SocketAddr::V4 {
                ip: (value[4] * 0x100_0000 + value[5] * 0x1_0000 + value[6] * 0x100
                    + value[7]) as u32,
                port: (value[2] * 0x100 + value[3]) as u16,
            },
        ),
        value.len() < 8 || value[1] != 1 ==> address_in(value, false) is None && address_in(
            value,
            true,
        ) is None,
{
    if value.len() >= 8 {
        lemma_be_two(value.subrange(2, 4));
        lemma_be_four(value.subrange(4, 8));
    }
}

/// An attribute: its kind, its length, its value, and what fills it up to a
/// multiple of four bytes.
pub open spec fn attribute(kind: u16, value: Seq<u8>, padding: Seq<u8>) -> Seq<u8> {
    seq![(kind / 0x100) as u8, (kind % 0x100) as u8] + seq![
        (value.len() / 0x100) as u8,
        (value.len() % 0x100) as u8,
    ] + value + padding
}

proof fn lemma_attribute(kind: u16, value: Seq<u8>, padding: Seq<u8>, rest: Seq<u8>)
    requires
        value.len() <= 0xFFFF,
    ensures
        ({
            let attrs = attribute(kind, value, padding) + rest;
            &&& attrs.len() == 4 + value.len() + padding.len() + rest.len()
            &&& bytes::be_value(attrs.subrange(0, 2)) == kind
            &&& bytes::be_value(attrs.subrange(2, 4)) == value.len()
            &&& attrs.subrange(4, 4 + value.len() as int) == value
            &&& attrs.skip(4 + value.len() as int + padding.len() as int) == rest
        }),
{
    let attrs = attribute(kind, value, padding) + rest;
    lemma_be_two(attrs.subrange(0, 2));
    lemma_be_two(attrs.subrange(2, 4));
    assert(attrs.subrange(4, 4 + value.len() as int) =~= value);
    assert(attrs.skip(4 + value.len() as int + padding.len() as int) =~= rest);
}

/// Other attributes are passed over, each with the bytes that fill it up: the
/// address is what the rest says.
pub proof fn law_other_attributes_are_passed_over(
    kind: u16,
    value: Seq<u8>,
    padding: Seq<u8>,
    rest: Seq<u8>,
)
    requires
        kind != 0x0001,
        kind != 0x0020,
        value.len() <= 0xFFFF,
        padding.len() < 4,
        (value.len() + padding.len()) % 4 == 0,
    ensures
        address_among(attribute(kind, value, padding) + rest) == address_among(rest),
{
    lemma_attribute(kind, value, padding, rest);
    assert((value.len() + 3) / 4 * 4 == value.len() + padding.len());
}

/// The first address among the attributes is the one that counts, in its xor-ed
/// form or in its plain one; one that is not whole, or not IPv4, counts as none.
pub proof fn law_first_address_counts(value: Seq<u8>, padding: Seq<u8>, rest: Seq<u8>)
    requires
        value.len() <= 0xFFFF,
    ensures
        address_among(attribute(0x0020, value, padding) + rest) == address_in(value, true),
        address_among(attribute(0x0001, value, padding) + rest) == address_in(value, false),
        address_among(Seq::<u8>::empty()) is None,
{
    lemma_attribute(0x0020, value, padding, rest);
    lemma_attribute(0x0001, value, padding, rest);
}

/// The response that a server sends: to the request with a transaction id, with
/// these attributes.
pub open spec fn response(txid: Seq<u8>, attrs: Seq<u8>) -> Seq<u8> {
    seq![0x01u8, 0x01u8, (attrs.len() / 0x100) as u8, (attrs.len() % 0x100) as u8] + seq![
        0x21u8,
        0x12u8,
        0xA4u8,
        0x42u8,
    ] + txid + attrs
}

/// A server that answers our request with the address that it sees us at tells
/// us that address, also behind other attributes and whatever follows; an answer
/// that is cut short tells us nothing.
pub proof fn law_response_tells_our_address(
    txid: Seq<u8>,
    kind: u16,
    other: Seq<u8>,
    ip: u32,
    port: u16,
    rest: Seq<u8>,
    extra: Seq<u8>,
    cut: int,
)
    requires
        txid.len() == 12,
        kind != 0x0001,
        kind != 0x0020,
        other.len() % 4 == 0,
        other.len() + rest.len() <= 0xFF00,
    ensures
        ({
            let told = attribute(0x0020, xored_attribute(ip, port), Seq::empty()) + rest;
            let none = Seq::<u8>::empty();
            let direct = response(txid, told);
            let behind = response(txid, attribute(kind, other, none) + told);
            &&& answers(direct, txid) && answers(behind, txid)
            &&& reported_address(direct + extra) == Some(SocketAddr::V4 { ip, port })
            &&& reported_address(behind + extra) == Some(SocketAddr::V4 { ip, port })
            &&& 20 <= cut < direct.len() ==> reported_address(direct.take(cut)) is None
        }),
{
    let none = Seq::<u8>::empty();
    let value = xored_attribute(ip, port);
    law_xored_address_is_recovered(ip, port);
    bytes::lemma_be_bytes_len((port ^ ((MAGIC_COOKIE / 0x1_0000) as u16)) as nat, 2);
    bytes::lemma_be_bytes_len((ip ^ MAGIC_COOKIE) as nat, 4);
    assert(value.len() == 8);
    let told = attribute(0x0020, value, none) + rest;
    law_first_address_counts(value, none, rest);
    law_other_attributes_are_passed_over(kind, other, none, told);
    lemma_response(txid, told, extra, cut);
    lemma_response(txid, attribute(kind, other, none) + told, extra, cut);
}

proof fn lemma_response(txid: Seq<u8>, attrs: Seq<u8>, extra: Seq<u8>, cut: int)
    requires
        txid.len() == 12,
        attrs.len() <= 0xFFFF,
    ensures
        answers(response(txid, attrs), txid),
        reported_address(response(txid, attrs) + extra) == address_among(attrs),
        20 <= cut < 20 + attrs.len() ==> reported_address(response(txid, attrs).take(cut)) is None,
        response(txid, attrs).len() == 20 + attrs.len(),
{
    let r = response(txid, attrs);
    law_answers_carry_our_id(r, txid);
    let all = r + extra;
    lemma_be_two(all.subrange(2, 4));
    assert(all.subrange(20, 20 + attrs.len() as int) =~= attrs);
    if 20 <= cut < 20 + attrs.len() {
        lemma_be_two(r.take(cut).subrange(2, 4));
    }
}

/// The seed keeps two instants of one process apart, and is the time itself but
/// for the process id in the upper half.
pub proof fn law_seeds_follow_the_time(nanos: u64, other: u64, pid: u32)
    ensures
        nanos != other ==> seed_of(nanos, pid) != seed_of(other, pid),
        seed_of(nanos, 0) == nanos,
        seed_of(nanos, pid) % 0x1_0000_0000 == nanos % 0x1_0000_0000,
{
    let x = (pid as u64 * 0x1_0000_0000) as u64;
    assert(nanos != other ==> nanos ^ x != other ^ x) by (bit_vector);
    assert(nanos ^ 0u64 == nanos) by (bit_vector);
    assert((nanos ^ x) % 0x1_0000_0000 == nanos % 0x1_0000_0000) by (bit_vector)
        requires
            x % 0x1_0000_0000 == 0,
    ;
}

} // verus!
