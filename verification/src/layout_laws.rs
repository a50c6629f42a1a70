//! Which byte of a datagram means what.
use crate::bytes;
use crate::packet;
use crate::packet::{
    AudioView, Codec, ControlView, DenyReason, Header, PacketType, ParseError, PayloadView,
    PlayerView,
};
use crate::{MAX_CLIENTS, MAX_NAME_LEN};
use vstd::prelude::*;
use vstd::utf8;

verus! {

/// The number that each packet type has on the wire, and that no other number
/// is a type.
pub proof fn law_packet_types_are_numbered(t: PacketType, v: u8)
    ensures
        packet::type_code(PacketType::Audio) == 0,
        packet::type_code(PacketType::Hello) == 1,
        packet::type_code(PacketType::Welcome) == 2,
        packet::type_code(PacketType::Deny) == 3,
        packet::type_code(PacketType::Ping) == 4,
        packet::type_code(PacketType::Pong) == 5,
        packet::type_code(PacketType::Keepalive) == 6,
        packet::type_code(PacketType::Roster) == 7,
        packet::type_code(PacketType::Bye) == 8,
        packet::type_code(PacketType::Ack) == 9,
        packet::type_of_code(packet::type_code(t)) == Ok::<_, ParseError>(t),
        v <= 9 ==> (packet::type_of_code(v) matches Ok(u) && packet::type_code(u) == v),
        v > 9 ==> packet::type_of_code(v) == Err::<PacketType, _>(ParseError::BadType(v)),
{
}

/// The same of the codecs and of the reasons to refuse a client.
pub proof fn law_codecs_and_reasons_are_numbered(c: Codec, r: DenyReason, v: u8)
    ensures
        packet::codec_code(Codec::Opus) == 0,
        packet::codec_code(Codec::PcmS16) == 1,
        packet::codec_code(Codec::PcmF32) == 2,
        packet::codec_of_code(packet::codec_code(c)) == Ok::<_, ParseError>(c),
        v <= 2 ==> (packet::codec_of_code(v) matches Ok(u) && packet::codec_code(u) == v),
        v > 2 ==> packet::codec_of_code(v) == Err::<Codec, _>(ParseError::BadCodec(v)),
        packet::reason_code(DenyReason::BadRoomCode) == 0,
        packet::reason_code(DenyReason::RoomFull) == 1,
        packet::reason_code(DenyReason::VersionMismatch) == 2,
        packet::reason_of_code(packet::reason_code(r)) == Ok::<_, ParseError>(r),
        v <= 2 ==> (packet::reason_of_code(v) matches Ok(u) && packet::reason_code(u) == v),
        v > 2 ==> packet::reason_of_code(v) == Err::<DenyReason, _>(ParseError::BadDenyReason(v)),
{
}

/// The eight bytes of a header.
pub proof fn law_header_layout(h: Header)
    ensures
        packet::header_bytes(h) == seq![
            0xA5u8,
            (0x10 + packet::type_code(h.ptype)) as u8,
            (h.session_id / 0x100) as u8,
            (h.session_id % 0x100) as u8,
            (h.sender_id / 0x100) as u8,
            (h.sender_id % 0x100) as u8,
            (h.seq / 0x100) as u8,
            (h.seq % 0x100) as u8,
        ],
{
    bytes::law_numbers_are_big_endian(h.session_id, 0, 0);
    bytes::law_numbers_are_big_endian(h.sender_id, 0, 0);
    bytes::law_numbers_are_big_endian(h.seq, 0, 0);
    assert(packet::header_bytes(h) =~= seq![
        0xA5u8,
        (0x10 + packet::type_code(h.ptype)) as u8,
        (h.session_id / 0x100) as u8,
        (h.session_id % 0x100) as u8,
        (h.sender_id / 0x100) as u8,
        (h.sender_id % 0x100) as u8,
        (h.seq / 0x100) as u8,
        (h.seq % 0x100) as u8,
    ]);
}

proof fn lemma_be_two(s: Seq<u8>)
    requires
        s.len() == 2,
    ensures
        bytes::be_value(s) == s[0] * 0x100 + s[1],
{
    reveal_with_fuel(bytes::be_value, 3);
    assert(s.drop_last().drop_last() =~= Seq::<u8>::empty());
}

proof fn lemma_be_four(s: Seq<u8>)
    requires
        s.len() == 4,
    ensures
        bytes::be_value(s) == s[0] * 0x100_0000 + s[1] * 0x1_0000 + s[2] * 0x100 + s[3],
{
    reveal_with_fuel(bytes::be_value, 5);
    assert(s.drop_last().drop_last().drop_last().drop_last() =~= Seq::<u8>::empty());
}

/// What is read at the front of a datagram: eight bytes, of which the first is
/// the magic byte and the second holds the protocol version and the type, or
/// the first of these that is wrong.
pub proof fn law_header_is_read(d: Seq<u8>)
    ensures
        d.len() < 8 ==> packet::header_of(d) == Err::<(Header, Seq<u8>), _>(ParseError::Truncated),
        d.len() >= 8 && d[0] != 0xA5 ==> packet::header_of(d) == Err::<(Header, Seq<u8>), _>(
            ParseError::BadMagic,
        ),
        d.len() >= 8 && d[0] == 0xA5 && !(0x10 <= d[1] < 0x20) ==> packet::header_of(d) == Err::<
            (Header, Seq<u8>),
            _,
        >(ParseError::BadVersion(d[1] / 16)),
        d.len() >= 8 && d[0] == 0xA5 && 0x19 < d[1] < 0x20 ==> packet::header_of(d) == Err::<
            (Header, Seq<u8>),
            _,
        >(ParseError::BadType((d[1] - 0x10) as u8)),
        d.len() >= 8 && d[0] == 0xA5 && 0x10 <= d[1] <= 0x19 ==> (packet::header_of(d) matches Ok(
            (h, body),
        ) && packet::type_code(h.ptype) == d[1] - 0x10 && h.session_id == d[2] * 0x100 + d[3]
            && h.sender_id == d[4] * 0x100 + d[5] && h.seq == d[6] * 0x100 + d[7] && body
            == d.skip(8)),
{
    if d.len() >= 8 {
        lemma_be_two(d.subrange(2, 4));
        lemma_be_two(d.subrange(4, 6));
        lemma_be_two(d.subrange(6, 8));
    }
}

/// An audio body: the timestamp, the codec, whether a copy follows, the length
/// of the frame, and the frame; then, if so, the length of the copy and the
/// copy.
pub proof fn law_audio_layout(a: AudioView)
    requires
        a.payload.len() <= 0xFFFF,
        a.redundant matches Some(r) ==> r.len() <= 0xFFFF,
    ensures
        ({
            let b = packet::audio_bytes(a);
            let n = a.payload.len() as int;
            let flag: u8 = if a.redundant is Some {
                1
            } else {
                0
            };
            &&& b.take(8) == seq![
                (a.timestamp / 0x100_0000) as u8,
                (a.timestamp / 0x1_0000 % 0x100) as u8,
                (a.timestamp / 0x100 % 0x100) as u8,
                (a.timestamp % 0x100) as u8,
                packet::codec_code(a.codec),
                flag,
                (n / 0x100) as u8,
                (n % 0x100) as u8,
            ]
            &&& b.subrange(8, 8 + n) == a.payload
            &&& a.redundant is None ==> b.len() == 8 + n
            &&& a.redundant matches Some(r) ==> b.skip(8 + n) == seq![
                (r.len() / 0x100) as u8,
                (r.len() % 0x100) as u8,
            ] + r
        }),
{
    let b = packet::audio_bytes(a);
    let n = a.payload.len() as u16;
    bytes::law_numbers_are_big_endian(n, a.timestamp, 0);
    assert(b.take(8) =~= packet::audio_head(a));
    assert(b.subrange(8, 8 + n as int) =~= a.payload);
    assert(b.skip(8 + n as int) =~= packet::audio_tail(a));
    if let Some(r) = a.redundant {
        bytes::law_numbers_are_big_endian(r.len() as u16, 0, 0);
    }
}

/// What is read of an audio body, or what is wrong with it: too short for its
/// fixed part, a codec that there is not, a frame that is cut short, or bytes
/// behind the frame where no copy is announced.
pub proof fn law_audio_is_read(b: Seq<u8>)
    ensures
        b.len() < 8 ==> packet::audio_of(b) == Err::<AudioView, _>(ParseError::Truncated),
        b.len() >= 8 && b[4] > 2 ==> packet::audio_of(b) == Err::<AudioView, _>(
            ParseError::BadCodec(b[4]),
        ),
        b.len() >= 8 && b[4] <= 2 ==> {
            let n = b[6] * 0x100 + b[7];
            let behind = b.len() - 8 - n;
            &&& behind < 0 ==> packet::audio_of(b) == Err::<AudioView, _>(ParseError::BadLength)
            &&& behind > 0 && b[5] % 2 == 0 ==> packet::audio_of(b) == Err::<AudioView, _>(
                ParseError::TrailingBytes,
            )
            &&& 0 <= behind < 2 && b[5] % 2 == 1 ==> packet::audio_of(b) == Err::<AudioView, _>(
                ParseError::Truncated,
            )
            &&& behind >= 2 && b[5] % 2 == 1 ==> {
                let m = b[8 + n] * 0x100 + b[8 + n + 1];
                &&& behind - 2 < m ==> packet::audio_of(b) == Err::<AudioView, _>(
                    ParseError::BadLength,
                )
                &&& behind - 2 > m ==> packet::audio_of(b) == Err::<AudioView, _>(
                    ParseError::TrailingBytes,
                )
                &&& behind - 2 == m ==> (packet::audio_of(b) matches Ok(a) && a.redundant == Some(
                    b.skip(8 + n + 2),
                ))
            }
            &&& behind == 0 && b[5] % 2 == 0 ==> (packet::audio_of(b) matches Ok(a)
                && a.redundant is None)
            &&& packet::audio_of(b) matches Ok(a) ==> a.timestamp == b[0] * 0x100_0000 + b[1]
                * 0x1_0000 + b[2] * 0x100 + b[3] && packet::codec_code(a.codec) == b[4]
                && a.payload == b.subrange(8, 8 + n)
        },
{
    if b.len() >= 8 {
        let n = b[6] * 0x100 + b[7];
        lemma_be_four(b.subrange(0, 4));
        lemma_be_two(b.subrange(6, 8));
        let rest = b.skip(8);
        if n <= rest.len() {
            let tail = rest.skip(n);
            assert(rest.take(n) =~= b.subrange(8, 8 + n));
            if tail.len() >= 2 {
                lemma_be_two(tail.subrange(0, 2));
                assert(tail[0] == b[8 + n] && tail[1] == b[8 + n + 1]);
                assert(tail.skip(2) =~= b.skip(8 + n + 2));
            }
        }
    }
}

/// The type under which each control packet is sent.
pub proof fn law_control_packets_have_their_type(c: ControlView)
    ensures
        c is Hello <==> packet::control_type(c) == PacketType::Hello,
        c is Welcome <==> packet::control_type(c) == PacketType::Welcome,
        c is Deny <==> packet::control_type(c) == PacketType::Deny,
        c is Ping <==> packet::control_type(c) == PacketType::Ping,
        c is Pong <==> packet::control_type(c) == PacketType::Pong,
        c is Keepalive <==> packet::control_type(c) == PacketType::Keepalive,
        c is Roster <==> packet::control_type(c) == PacketType::Roster,
        c is Bye <==> packet::control_type(c) == PacketType::Bye,
        c is Ack <==> packet::control_type(c) == PacketType::Ack,
{
}

/// A HELLO body: the version, the room code, the name behind its length, and
/// what the client can do.
pub proof fn law_hello_layout(
    proto_version: u8,
    room_code: Seq<u8>,
    name: Seq<char>,
    codec_mask: u8,
    frame_mask: u8,
)
    requires
        room_code.len() == 6,
        utf8::encode_utf8(name).len() <= 32,
    ensures
        ({
            let c = ControlView::Hello { proto_version, room_code, name, codec_mask, frame_mask };
            let text = utf8::encode_utf8(name);
            let b = packet::control_bytes(c);
            &&& b.len() == 10 + text.len()
            &&& b[0] == proto_version
            &&& b.subrange(1, 7) == room_code
            &&& b[7] == text.len()
            &&& b.subrange(8, 8 + text.len() as int) == text
            &&& b[8 + text.len() as int] == codec_mask
            &&& b[9 + text.len() as int] == frame_mask
        }),
{
    let c = ControlView::Hello { proto_version, room_code, name, codec_mask, frame_mask };
    let text = utf8::encode_utf8(name);
    let b = packet::control_bytes(c);
    crate::roundtrip::lemma_short_bytes_unclipped(name);
    assert(b.subrange(1, 7) =~= room_code);
    assert(b.subrange(8, 8 + text.len() as int) =~= text);
}

/// A WELCOME body starts with the id, the session, the sample rate, the frame
/// length and the codec; the list of players follows as in a ROSTER.
pub proof fn law_welcome_layout(
    assigned_id: u16,
    session_id: u16,
    sample_rate: u32,
    frame_samples: u16,
    codec: Codec,
    roster: Seq<PlayerView>,
)
    ensures
        packet::control_bytes(
            (ControlView::Welcome {
                assigned_id,
                session_id,
                sample_rate,
                frame_samples,
                codec,
                roster,
            }),
        ) == seq![
            (assigned_id / 0x100) as u8,
            (assigned_id % 0x100) as u8,
            (session_id / 0x100) as u8,
            (session_id % 0x100) as u8,
            (sample_rate / 0x100_0000) as u8,
            (sample_rate / 0x1_0000 % 0x100) as u8,
            (sample_rate / 0x100 % 0x100) as u8,
            (sample_rate % 0x100) as u8,
            (frame_samples / 0x100) as u8,
            (frame_samples % 0x100) as u8,
            packet::codec_code(codec),
        ] + packet::control_bytes((ControlView::Roster { players: roster })),
{
    bytes::law_numbers_are_big_endian(assigned_id, sample_rate, 0);
    bytes::law_numbers_are_big_endian(session_id, 0, 0);
    bytes::law_numbers_are_big_endian(frame_samples, 0, 0);
    let b = packet::control_bytes(
        ControlView::Welcome {
            assigned_id,
            session_id,
            sample_rate,
            frame_samples,
            codec,
            roster,
        },
    );
    assert(b =~= seq![
        (assigned_id / 0x100) as u8,
        (assigned_id % 0x100) as u8,
        (session_id / 0x100) as u8,
        (session_id % 0x100) as u8,
        (sample_rate / 0x100_0000) as u8,
        (sample_rate / 0x1_0000 % 0x100) as u8,
        (sample_rate / 0x100 % 0x100) as u8,
        (sample_rate % 0x100) as u8,
        (frame_samples / 0x100) as u8,
        (frame_samples % 0x100) as u8,
        packet::codec_code(codec),
    ] + packet::control_bytes(ControlView::Roster { players: roster }));
}

/// A ROSTER body: how many players there are, and for each of them, behind those
/// before, the id and the name behind its length.
pub proof fn law_roster_layout(players: Seq<PlayerView>, id: u16, name: Seq<char>)
    requires
        players.len() <= MAX_CLIENTS,
        utf8::encode_utf8(name).len() <= MAX_NAME_LEN,
    ensures
        ({
            let fewer = packet::control_bytes(ControlView::Roster { players });
            let more = packet::control_bytes(
                ControlView::Roster { players: players.push(PlayerView { id, name }) },
            );
            let text = utf8::encode_utf8(name);
            &&& packet::control_bytes(ControlView::Roster { players: Seq::empty() }) == seq![0u8]
            &&& fewer.len() > 0
            &&& fewer[0] == players.len()
            &&& more == seq![(players.len() + 1) as u8] + fewer.skip(1) + seq![
                (id / 0x100) as u8,
                (id % 0x100) as u8,
                text.len() as u8,
            ] + text
        }),
{
    let p = PlayerView { id, name };
    let all = players.push(p);
    let text = utf8::encode_utf8(name);
    crate::roundtrip::lemma_short_bytes_unclipped(name);
    bytes::law_numbers_are_big_endian(id, 0, 0);
    bytes::lemma_be_bytes_one(players.len() as u8);
    bytes::lemma_be_bytes_one((players.len() + 1) as u8);
    bytes::lemma_be_bytes_one(0);
    assert(all.drop_last() =~= players);
    let none = Seq::<PlayerView>::empty();
    assert(packet::players_field(none) =~= seq![0u8]);
    let fewer = packet::players_field(players);
    assert(fewer.skip(1) =~= packet::player_entries(players));
    assert(packet::players_field(all) =~= seq![(players.len() + 1) as u8] + fewer.skip(1) + seq![
        (id / 0x100) as u8,
        (id % 0x100) as u8,
        text.len() as u8,
    ] + text);
}

/// The other bodies: a reason; one time or three; a number and a type; and
/// nothing at all.
pub proof fn law_short_bodies(
    reason: DenyReason,
    t1_us: u64,
    t2_us: u64,
    t3_us: u64,
    acked_seq: u16,
    acked_type: u8,
)
    ensures
        packet::control_bytes((ControlView::Deny { reason })) == seq![packet::reason_code(reason)],
        packet::control_bytes((ControlView::Ping { t1_us })).len() == 8,
        bytes::be_value(packet::control_bytes((ControlView::Ping { t1_us }))) == t1_us,
        packet::control_bytes((ControlView::Pong { t1_us, t2_us, t3_us })) == packet::control_bytes(
            (ControlView::Ping { t1_us }),
        ) + packet::control_bytes((ControlView::Ping { t1_us: t2_us })) + packet::control_bytes(
            (ControlView::Ping { t1_us: t3_us }),
        ),
        packet::control_bytes((ControlView::Ack { acked_seq, acked_type })) == seq![
            (acked_seq / 0x100) as u8,
            (acked_seq % 0x100) as u8,
            acked_type,
        ],
        packet::control_bytes(ControlView::Keepalive).len() == 0,
        packet::control_bytes(ControlView::Bye).len() == 0,
{
    bytes::lemma_pow256();
    bytes::lemma_be_bytes_len(t1_us as nat, 8);
    bytes::lemma_be_value_of_bytes(t1_us as nat, 8);
    bytes::law_numbers_are_big_endian(acked_seq, 0, 0);
    assert(packet::control_bytes(ControlView::Ack { acked_seq, acked_type }) =~= seq![
        (acked_seq / 0x100) as u8,
        (acked_seq % 0x100) as u8,
        acked_type,
    ]);
}

/// A datagram is read as its header says: an audio body behind an audio header,
/// a control body of its type behind any other. Whatever is wrong with either is
/// what is wrong with the datagram.
pub proof fn law_datagram_is_header_and_body(d: Seq<u8>, h: Header, body: Seq<u8>)
    requires
        packet::header_of(d) == Ok::<_, ParseError>((h, body)),
    ensures
        h.ptype == PacketType::Audio ==> match packet::audio_of(body) {
            Ok(a) => packet::datagram_of(d) == Ok::<_, ParseError>((h, PayloadView::Audio(a))),
            Err(e) => packet::datagram_of(d) == Err::<(Header, PayloadView), _>(e),
        },
        h.ptype != PacketType::Audio ==> match packet::control_of(h.ptype, body) {
            Ok(c) => packet::datagram_of(d) == Ok::<_, ParseError>((h, PayloadView::Control(c))),
            Err(e) => packet::datagram_of(d) == Err::<(Header, PayloadView), _>(e),
        },
{
}

/// A datagram without a proper header is refused for what is wrong with it.
pub proof fn law_bad_header_is_reported(d: Seq<u8>, e: ParseError)
    requires
        packet::header_of(d) == Err::<(Header, Seq<u8>), _>(e),
    ensures
        packet::datagram_of(d) == Err::<(Header, PayloadView), _>(e),
{
}

/// A name on the wire is refused if its length is over 32, if it is cut short,
/// or if it is no text; else it is read as that text.
pub proof fn law_name_is_read(s: Seq<u8>)
    ensures
        s.len() == 0 ==> packet::take_name(s) == Err::<(Seq<char>, Seq<u8>), _>(
            ParseError::Truncated,
        ),
        s.len() > 0 && s[0] > 32 ==> packet::take_name(s) == Err::<(Seq<char>, Seq<u8>), _>(
            ParseError::OutOfRange,
        ),
        s.len() > 0 && s[0] <= 32 && s.len() < 1 + s[0] ==> packet::take_name(s) == Err::<
            (Seq<char>, Seq<u8>),
            _,
        >(ParseError::Truncated),
        s.len() > 0 && s[0] <= 32 && s.len() >= 1 + s[0] ==> {
            let text = s.subrange(1, 1 + s[0] as int);
            &&& !utf8::valid_utf8(text) ==> packet::take_name(s) == Err::<(Seq<char>, Seq<u8>), _>(
                ParseError::BadString,
            )
            &&& utf8::valid_utf8(text) ==> packet::take_name(s) == Ok::<_, ParseError>(
                (utf8::decode_utf8(text), s.skip(1 + s[0] as int)),
            )
        },
{
    if s.len() > 0 {
        let one = s.take(1);
        reveal_with_fuel(bytes::be_value, 2);
        assert(one.drop_last() =~= Seq::<u8>::empty());
        assert(bytes::be_value(one) == s[0]);
        let rest = s.skip(1);
        if s[0] <= 32 && s.len() >= 1 + s[0] {
            assert(rest.take(s[0] as int) =~= s.subrange(1, 1 + s[0] as int));
            assert(rest.skip(s[0] as int) =~= s.skip(1 + s[0] as int));
        }
    }
}

/// A list of players is refused if it says that there are more than a full
/// room.
pub proof fn law_a_room_is_not_overfull(s: Seq<u8>)
    requires
        s.len() > 0,
        s[0] > 5,
    ensures
        packet::take_players(s) == Err::<(Seq<PlayerView>, Seq<u8>), _>(ParseError::OutOfRange),
{
    let one = s.take(1);
    reveal_with_fuel(bytes::be_value, 2);
    assert(one.drop_last() =~= Seq::<u8>::empty());
}

proof fn lemma_first_byte(s: Seq<u8>)
    requires
        s.len() > 0,
    ensures
        packet::take_uint(s, 1) == Ok::<_, ParseError>((s[0] as nat, s.skip(1))),
{
    let one = s.take(1);
    reveal_with_fuel(bytes::be_value, 2);
    assert(one.drop_last() =~= Seq::<u8>::empty());
    assert(bytes::be_value(one) == s[0]);
}

/// Bodies of a fixed length are refused if they are cut short or if anything is
/// left behind them; a reason that there is not is refused as such. No control
/// packet comes under the type of audio.
pub proof fn law_fixed_bodies_are_read(b: Seq<u8>)
    ensures
        b.len() < 8 ==> packet::control_of(PacketType::Ping, b) == Err::<ControlView, _>(
            ParseError::Truncated,
        ),
        b.len() > 8 ==> packet::control_of(PacketType::Ping, b) == Err::<ControlView, _>(
            ParseError::TrailingBytes,
        ),
        b.len() == 8 ==> packet::control_of(PacketType::Ping, b) is Ok,
        b.len() < 24 ==> packet::control_of(PacketType::Pong, b) == Err::<ControlView, _>(
            ParseError::Truncated,
        ),
        b.len() > 24 ==> packet::control_of(PacketType::Pong, b) == Err::<ControlView, _>(
            ParseError::TrailingBytes,
        ),
        b.len() == 24 ==> packet::control_of(PacketType::Pong, b) is Ok,
        b.len() < 3 ==> packet::control_of(PacketType::Ack, b) == Err::<ControlView, _>(
            ParseError::Truncated,
        ),
        b.len() > 3 ==> packet::control_of(PacketType::Ack, b) == Err::<ControlView, _>(
            ParseError::TrailingBytes,
        ),
        b.len() == 3 ==> packet::control_of(PacketType::Ack, b) is Ok,
        b.len() == 0 ==> packet::control_of(PacketType::Deny, b) == Err::<ControlView, _>(
            ParseError::Truncated,
        ),
        b.len() > 0 && b[0] > 2 ==> packet::control_of(PacketType::Deny, b) == Err::<
            ControlView,
            _,
        >(ParseError::BadDenyReason(b[0])),
        b.len() > 1 && b[0] <= 2 ==> packet::control_of(PacketType::Deny, b) == Err::<
            ControlView,
            _,
        >(ParseError::TrailingBytes),
        b.len() == 1 && b[0] <= 2 ==> packet::control_of(PacketType::Deny, b) is Ok,
        b.len() > 0 ==> packet::control_of(PacketType::Keepalive, b) == Err::<ControlView, _>(
            ParseError::TrailingBytes,
        ),
        b.len() > 0 ==> packet::control_of(PacketType::Bye, b) == Err::<ControlView, _>(
            ParseError::TrailingBytes,
        ),
        b.len() == 0 ==> packet::control_of(PacketType::Keepalive, b) == Ok::<_, ParseError>(
            ControlView::Keepalive,
        ) && packet::control_of(PacketType::Bye, b) == Ok::<_, ParseError>(ControlView::Bye),
        packet::control_of(PacketType::Audio, b) == Err::<ControlView, _>(ParseError::BadType(0)),
{
    if b.len() > 0 {
        lemma_first_byte(b);
    }
}

/// A HELLO that is too short for its fixed part is cut short, and so is a
/// WELCOME; one with a codec that there is not is refused as such.
pub proof fn law_handshake_bodies_are_read(b: Seq<u8>)
    ensures
        b.len() < 7 ==> packet::control_of(PacketType::Hello, b) == Err::<ControlView, _>(
            ParseError::Truncated,
        ),
        b.len() < 11 ==> packet::control_of(PacketType::Welcome, b) == Err::<ControlView, _>(
            ParseError::Truncated,
        ),
        b.len() >= 11 && b[10] > 2 ==> packet::control_of(PacketType::Welcome, b) == Err::<
            ControlView,
            _,
        >(ParseError::BadCodec(b[10])),
        b.len() == 0 ==> packet::control_of(PacketType::Roster, b) == Err::<ControlView, _>(
            ParseError::Truncated,
        ),
{
    if b.len() > 0 {
        lemma_first_byte(b);
    }
    if b.len() >= 11 {
        let s4 = b.skip(2).skip(2).skip(4).skip(2);
        lemma_first_byte(s4);
        assert(s4[0] == b[10]);
    }
}

} // verus!
