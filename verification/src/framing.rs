//! Where a datagram ends: no accepted datagram is the start of another one.
use crate::bytes;
use crate::packet;
use crate::packet::{PacketType, ParseError, AUDIO_HEADER_LEN, HEADER_LEN};
use crate::ROOM_CODE_LEN;
use vstd::prelude::*;

verus! {

proof fn lemma_bytes_extended(s: Seq<u8>, e: Seq<u8>, n: nat)
    requires
        packet::take_bytes(s, n) is Ok,
    ensures
        ({
            let (b, rest) = packet::take_bytes(s, n)->Ok_0;
            packet::take_bytes(s + e, n) == Ok::<_, ParseError>((b, rest + e))
        }),
{
    assert((s + e).take(n as int) =~= s.take(n as int));
    assert((s + e).skip(n as int) =~= s.skip(n as int) + e);
}

proof fn lemma_uint_extended(s: Seq<u8>, e: Seq<u8>, n: nat)
    requires
        packet::take_uint(s, n) is Ok,
    ensures
        ({
            let (v, rest) = packet::take_uint(s, n)->Ok_0;
            packet::take_uint(s + e, n) == Ok::<_, ParseError>((v, rest + e))
        }),
{
    assert((s + e).take(n as int) =~= s.take(n as int));
    assert((s + e).skip(n as int) =~= s.skip(n as int) + e);
}

proof fn lemma_name_extended(s: Seq<u8>, e: Seq<u8>)
    requires
        packet::take_name(s) is Ok,
    ensures
        ({
            let (name, rest) = packet::take_name(s)->Ok_0;
            packet::take_name(s + e) == Ok::<_, ParseError>((name, rest + e))
        }),
{
    lemma_uint_extended(s, e, 1);
    let (n, s1) = packet::take_uint(s, 1)->Ok_0;
    assert((s1 + e).take(n as int) =~= s1.take(n as int));
    assert((s1 + e).skip(n as int) =~= s1.skip(n as int) + e);
}

proof fn lemma_entries_extended(s: Seq<u8>, e: Seq<u8>, n: nat)
    requires
        packet::take_entries(s, n) is Ok,
    ensures
        ({
            let (players, rest) = packet::take_entries(s, n)->Ok_0;
            packet::take_entries(s + e, n) == Ok::<_, ParseError>((players, rest + e))
        }),
    decreases n,
{
    if n > 0 {
        lemma_entries_extended(s, e, (n - 1) as nat);
        let s1 = packet::take_entries(s, (n - 1) as nat)->Ok_0.1;
        lemma_uint_extended(s1, e, 2);
        let s2 = packet::take_uint(s1, 2)->Ok_0.1;
        lemma_name_extended(s2, e);
    }
}

proof fn lemma_players_extended(s: Seq<u8>, e: Seq<u8>)
    requires
        packet::take_players(s) is Ok,
    ensures
        ({
            let (players, rest) = packet::take_players(s)->Ok_0;
            packet::take_players(s + e) == Ok::<_, ParseError>((players, rest + e))
        }),
{
    lemma_uint_extended(s, e, 1);
    let (n, s1) = packet::take_uint(s, 1)->Ok_0;
    lemma_entries_extended(s1, e, n);
}

proof fn lemma_hello_extended(s: Seq<u8>, e: Seq<u8>)
    requires
        packet::hello_of(s) is Ok,
        e.len() > 0,
    ensures
        packet::hello_of(s + e) == Err::<packet::ControlView, _>(ParseError::TrailingBytes),
{
    lemma_uint_extended(s, e, 1);
    let s1 = packet::take_uint(s, 1)->Ok_0.1;
    lemma_bytes_extended(s1, e, ROOM_CODE_LEN as nat);
    let s2 = packet::take_bytes(s1, ROOM_CODE_LEN as nat)->Ok_0.1;
    lemma_name_extended(s2, e);
    let s3 = packet::take_name(s2)->Ok_0.1;
    lemma_uint_extended(s3, e, 1);
    let s4 = packet::take_uint(s3, 1)->Ok_0.1;
    lemma_uint_extended(s4, e, 1);
}

proof fn lemma_welcome_extended(s: Seq<u8>, e: Seq<u8>)
    requires
        packet::welcome_of(s) is Ok,
        e.len() > 0,
    ensures
        packet::welcome_of(s + e) == Err::<packet::ControlView, _>(ParseError::TrailingBytes),
{
    lemma_uint_extended(s, e, 2);
    let s1 = packet::take_uint(s, 2)->Ok_0.1;
    lemma_uint_extended(s1, e, 2);
    let s2 = packet::take_uint(s1, 2)->Ok_0.1;
    lemma_uint_extended(s2, e, 4);
    let s3 = packet::take_uint(s2, 4)->Ok_0.1;
    lemma_uint_extended(s3, e, 2);
    let s4 = packet::take_uint(s3, 2)->Ok_0.1;
    lemma_uint_extended(s4, e, 1);
    let s5 = packet::take_uint(s4, 1)->Ok_0.1;
    lemma_players_extended(s5, e);
}

proof fn lemma_pong_extended(s: Seq<u8>, e: Seq<u8>)
    requires
        packet::pong_of(s) is Ok,
        e.len() > 0,
    ensures
        packet::pong_of(s + e) == Err::<packet::ControlView, _>(ParseError::TrailingBytes),
{
    lemma_uint_extended(s, e, 8);
    let s1 = packet::take_uint(s, 8)->Ok_0.1;
    lemma_uint_extended(s1, e, 8);
    let s2 = packet::take_uint(s1, 8)->Ok_0.1;
    lemma_uint_extended(s2, e, 8);
}

proof fn lemma_control_extended(t: PacketType, s: Seq<u8>, e: Seq<u8>)
    requires
        packet::control_of(t, s) is Ok,
        e.len() > 0,
    ensures
        packet::control_of(t, s + e) == Err::<packet::ControlView, _>(ParseError::TrailingBytes),
{
    match t {
        PacketType::Audio | PacketType::Keepalive | PacketType::Bye => {},
        PacketType::Hello => lemma_hello_extended(s, e),
        PacketType::Welcome => lemma_welcome_extended(s, e),
        PacketType::Deny => lemma_uint_extended(s, e, 1),
        PacketType::Ping => lemma_uint_extended(s, e, 8),
        PacketType::Pong => lemma_pong_extended(s, e),
        PacketType::Roster => lemma_players_extended(s, e),
        PacketType::Ack => {
            lemma_uint_extended(s, e, 2);
            lemma_uint_extended(packet::take_uint(s, 2)->Ok_0.1, e, 1);
        },
    }
}

proof fn lemma_audio_extended(s: Seq<u8>, e: Seq<u8>)
    requires
        packet::audio_of(s) is Ok,
        e.len() > 0,
    ensures
        packet::audio_of(s + e) == Err::<packet::AudioView, _>(ParseError::TrailingBytes),
{
    let plen = bytes::be_value(s.subrange(6, 8)) as int;
    let rest = s.skip(AUDIO_HEADER_LEN as int);
    let tail = rest.skip(plen);
    assert((s + e).subrange(6, 8) =~= s.subrange(6, 8));
    assert((s + e).skip(AUDIO_HEADER_LEN as int) =~= rest + e);
    assert((rest + e).skip(plen) =~= tail + e);
    if s[5] % 2 == 1 {
        assert((tail + e).subrange(0, 2) =~= tail.subrange(0, 2));
    }
}

proof fn lemma_datagram_extended(d: Seq<u8>, e: Seq<u8>)
    requires
        packet::datagram_of(d) is Ok,
        e.len() > 0,
    ensures
        packet::datagram_of(d + e) == Err::<(packet::Header, packet::PayloadView), _>(
            ParseError::TrailingBytes,
        ),
{
    let (header, body) = packet::header_of(d)->Ok_0;
    let longer = d + e;
    assert(longer.subrange(2, 4) =~= d.subrange(2, 4));
    assert(longer.subrange(4, 6) =~= d.subrange(4, 6));
    assert(longer.subrange(6, 8) =~= d.subrange(6, 8));
    assert(longer.skip(HEADER_LEN as int) =~= body + e);
    if header.ptype == PacketType::Audio {
        lemma_audio_extended(body, e);
    } else {
        lemma_control_extended(header.ptype, body, e);
    }
}

#[verifier::opaque]
spec fn accepted(d: Seq<u8>) -> bool {
    packet::datagram_of(d) is Ok
}

proof fn lemma_rejected(d: Seq<u8>, e: Seq<u8>)
    requires
        e.len() > 0,
        accepted(d + e),
    ensures
        !accepted(d),
{
    reveal(accepted);
    if packet::datagram_of(d) is Ok {
        lemma_datagram_extended(d, e);
    }
}

/// Accepted datagrams are prefix-free: an accepted datagram with anything behind
/// it is refused for its trailing bytes, and no proper start of it is accepted.
pub proof fn law_datagrams_are_prefix_free(d: Seq<u8>, e: Seq<u8>, k: int)
    requires
        packet::datagram_of(d) is Ok,
        e.len() > 0,
        0 <= k < d.len(),
    ensures
        packet::datagram_of(d + e) == Err::<(packet::Header, packet::PayloadView), _>(
            ParseError::TrailingBytes,
        ),
        packet::datagram_of(d.take(k)) is Err,
{
    assert(accepted(d) && d.take(k) + d.skip(k) =~= d) by {
        reveal(accepted);
    }
    lemma_datagram_extended(d, e);
    lemma_rejected(d.take(k), d.skip(k));
    reveal(accepted);
}

} // verus!
