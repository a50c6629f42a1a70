//! What comes back when a datagram that was written is read.
use crate::bytes;
use crate::packet;
use crate::packet::{AudioView, ControlView, Header, PacketType, ParseError, PayloadView, PlayerView};
use crate::{MAX_CLIENTS, MAX_DATAGRAM, MAX_NAME_LEN, ROOM_CODE_LEN};
use vstd::prelude::*;
use vstd::utf8;

verus! {

/// A roster as the reader gets it: the same players, their names cut to
/// `MAX_NAME_LEN` bytes.
pub open spec fn delivered_players(players: Seq<PlayerView>) -> Seq<PlayerView> {
    Seq::new(
        players.len(),
        |i: int| PlayerView { id: players[i].id, name: packet::clipped(players[i].name) },
    )
}

/// A control value as the reader gets it: the same, but for names that are
/// longer than `MAX_NAME_LEN` bytes, which are cut.
pub open spec fn delivered(c: ControlView) -> ControlView {
    match c {
        ControlView::Hello { proto_version, room_code, name, codec_mask, frame_mask } => {
            ControlView::Hello {
                proto_version,
                room_code,
                name: packet::clipped(name),
                codec_mask,
                frame_mask,
            }
        },
        ControlView::Welcome {
            assigned_id,
            session_id,
            sample_rate,
            frame_samples,
            codec,
            roster,
        } => {
            ControlView::Welcome {
                assigned_id,
                session_id,
                sample_rate,
                frame_samples,
                codec,
                roster: delivered_players(roster),
            }
        },
        ControlView::Roster { players } => {
            ControlView::Roster { players: delivered_players(players) }
        },
        _ => c,
    }
}

/// Whether a control value can be read back: a room code has `ROOM_CODE_LEN`
/// bytes, and a roster lists at most the host and `MAX_CLIENTS` clients.
pub open spec fn sendable(c: ControlView) -> bool {
    match c {
        ControlView::Hello { room_code, .. } => room_code.len() == ROOM_CODE_LEN,
        ControlView::Welcome { roster, .. } => roster.len() <= MAX_CLIENTS + 1,
        ControlView::Roster { players } => players.len() <= MAX_CLIENTS + 1,
        _ => true,
    }
}

/// Whether every name in a control value fits into `MAX_NAME_LEN` bytes.
pub open spec fn names_fit(c: ControlView) -> bool {
    match c {
        ControlView::Hello { name, .. } => utf8::encode_utf8(name).len() <= MAX_NAME_LEN,
        ControlView::Welcome { roster, .. } => forall|i: int|
            0 <= i < roster.len() ==> utf8::encode_utf8((#[trigger] roster[i]).name).len()
                <= MAX_NAME_LEN,
        ControlView::Roster { players } => forall|i: int|
            0 <= i < players.len() ==> utf8::encode_utf8((#[trigger] players[i]).name).len()
                <= MAX_NAME_LEN,
        _ => true,
    }
}

proof fn lemma_clipped_bytes_valid(name: Seq<char>)
    ensures
        utf8::valid_utf8(packet::clipped_bytes(name)),
        utf8::encode_utf8(packet::clipped(name)) == packet::clipped_bytes(name),
{
    let b = utf8::encode_utf8(name);
    utf8::encode_utf8_valid_utf8(name);
    let limit = if b.len() < MAX_NAME_LEN {
        b.len()
    } else {
        MAX_NAME_LEN as nat
    };
    packet::lemma_boundary_below(b, limit);
    let n = packet::boundary_below(b, limit) as int;
    utf8::valid_utf8_split(b, n);
    assert(b.take(n) =~= b.subrange(0, n));
    utf8::decode_utf8_encode_utf8(packet::clipped_bytes(name));
}

pub proof fn lemma_short_bytes_unclipped(name: Seq<char>)
    requires
        utf8::encode_utf8(name).len() <= MAX_NAME_LEN,
    ensures
        packet::clipped_bytes(name) == utf8::encode_utf8(name),
        packet::clipped(name) == name,
{
    let b = utf8::encode_utf8(name);
    utf8::encode_utf8_valid_utf8(name);
    utf8::is_char_boundary_start_end_of_seq(b);
    assert(b.take(b.len() as int) =~= b);
    utf8::encode_utf8_decode_utf8(name);
}

/// The reader of a name gets the start of it: all of it where it fits into
/// `MAX_NAME_LEN` bytes. Sending what the reader got changes nothing more.
pub proof fn law_names_are_cut_at_a_char(name: Seq<char>)
    ensures
        packet::clipped(name).is_prefix_of(name),
        utf8::encode_utf8(packet::clipped(name)).len() <= MAX_NAME_LEN,
        utf8::encode_utf8(name).len() <= MAX_NAME_LEN ==> packet::clipped(name) == name,
        packet::clipped(packet::clipped(name)) == packet::clipped(name),
{
    lemma_clipped_bytes_valid(name);
    packet::lemma_clipped_len(name);
    lemma_short_bytes_unclipped(packet::clipped(name));
    if utf8::encode_utf8(name).len() <= MAX_NAME_LEN {
        lemma_short_bytes_unclipped(name);
    }
    let b = utf8::encode_utf8(name);
    utf8::encode_utf8_valid_utf8(name);
    let limit = if b.len() < MAX_NAME_LEN {
        b.len()
    } else {
        MAX_NAME_LEN as nat
    };
    packet::lemma_boundary_below(b, limit);
    let n = packet::boundary_below(b, limit) as int;
    utf8::decode_utf8_split(b, n);
    assert(b.take(n) =~= b.subrange(0, n));
    utf8::encode_utf8_decode_utf8(name);
}

/// The bytes of two texts one after the other are the bytes of the one, and
/// after them those of the other.
pub proof fn lemma_encode_concat(a: Seq<char>, b: Seq<char>)
    ensures
        utf8::encode_utf8(a + b) == utf8::encode_utf8(a) + utf8::encode_utf8(b),
    decreases a.len(),
{
    if a.len() == 0 {
        assert(a + b =~= b);
        assert(utf8::encode_utf8(a) =~= Seq::<u8>::empty());
    } else {
        lemma_encode_concat(a.drop_first(), b);
        assert((a + b).drop_first() =~= a.drop_first() + b);
    }
    assert(utf8::encode_utf8(a + b) =~= utf8::encode_utf8(a) + utf8::encode_utf8(b));
}

/// Where a text is cut between two characters, its bytes are cut at a boundary.
proof fn lemma_cut_is_boundary(name: Seq<char>, k: int)
    requires
        0 <= k <= name.len(),
    ensures
        utf8::is_char_boundary(
            utf8::encode_utf8(name),
            utf8::encode_utf8(name.take(k)).len() as int,
        ),
{
    let p = utf8::encode_utf8(name.take(k));
    let q = utf8::encode_utf8(name.skip(k));
    let b = utf8::encode_utf8(name);
    assert(name.take(k) + name.skip(k) =~= name);
    lemma_encode_concat(name.take(k), name.skip(k));
    utf8::encode_utf8_valid_utf8(name);
    utf8::encode_utf8_valid_utf8(name.skip(k));
    if q.len() == 0 {
        assert(p =~= b);
        utf8::is_char_boundary_start_end_of_seq(b);
    } else {
        utf8::is_char_boundary_start_end_of_seq(q);
        utf8::is_char_boundary_iff_not_is_continuation_byte(q, 0);
        utf8::is_char_boundary_iff_not_is_continuation_byte(b, p.len() as int);
        assert(b[p.len() as int] == q[0]);
    }
}

proof fn lemma_no_boundary_between(b: Seq<u8>, n: nat, m: nat)
    requires
        m <= n,
        utf8::is_char_boundary(b, m as int),
    ensures
        m <= packet::boundary_below(b, n),
    decreases n,
{
    if n > m && !utf8::is_char_boundary(b, n as int) {
        lemma_no_boundary_between(b, (n - 1) as nat, m);
    }
}

proof fn lemma_chars_have_bytes(text: Seq<char>)
    ensures
        utf8::encode_utf8(text).len() >= text.len(),
    decreases text.len(),
{
    if text.len() > 0 {
        lemma_chars_have_bytes(text.drop_first());
        utf8::char_is_scalar(text[0]);
        assert(utf8::encode_utf8(text) == utf8::encode_scalar(text[0] as u32)
            + utf8::encode_utf8(text.drop_first()));
    }
}

/// No more of a name is cut off than has to be: every start of it that fits into
/// 32 bytes is delivered.
pub proof fn law_names_are_delivered_as_far_as_they_fit(name: Seq<char>, k: int)
    requires
        0 <= k <= name.len(),
        utf8::encode_utf8(name.take(k)).len() <= 32,
    ensures
        k <= packet::clipped(name).len(),
        packet::clipped(name).take(k) == name.take(k),
{
    let b = utf8::encode_utf8(name);
    let kept = packet::clipped(name);
    let m = utf8::encode_utf8(name.take(k)).len();
    law_names_are_cut_at_a_char(name);
    lemma_clipped_bytes_valid(name);
    lemma_cut_is_boundary(name, k);
    assert(name.take(k) + name.skip(k) =~= name);
    lemma_encode_concat(name.take(k), name.skip(k));
    let limit = if b.len() < MAX_NAME_LEN {
        b.len()
    } else {
        MAX_NAME_LEN as nat
    };
    lemma_no_boundary_between(b, limit, m);
    packet::lemma_clipped_len(name);
    utf8::encode_utf8_valid_utf8(name);
    packet::lemma_boundary_below(b, limit);
    assert(utf8::encode_utf8(kept).len() >= m);
    if kept.len() < k {
        let rest = name.subrange(kept.len() as int, k);
        assert(name.take(k) =~= kept + rest);
        lemma_encode_concat(kept, rest);
        lemma_chars_have_bytes(rest);
    }
    assert(kept.take(k) =~= name.take(k));
}

/// A control value whose names fit is delivered as it is.
pub proof fn law_short_names_are_delivered_whole(c: ControlView)
    requires
        names_fit(c),
    ensures
        delivered(c) == c,
{
    match c {
        ControlView::Hello { name, .. } => {
            lemma_short_bytes_unclipped(name);
        },
        ControlView::Welcome { roster, .. } => {
            assert forall|i: int| 0 <= i < roster.len() implies packet::clipped(
                (#[trigger] roster[i]).name,
            ) == roster[i].name by {
                lemma_short_bytes_unclipped(roster[i].name);
            }
            assert(delivered_players(roster) =~= roster);
        },
        ControlView::Roster { players } => {
            assert forall|i: int| 0 <= i < players.len() implies packet::clipped(
                (#[trigger] players[i]).name,
            ) == players[i].name by {
                lemma_short_bytes_unclipped(players[i].name);
            }
            assert(delivered_players(players) =~= players);
        },
        _ => {},
    }
}

proof fn lemma_take_uint(v: nat, n: nat, tail: Seq<u8>)
    requires
        v < bytes::pow256(n),
    ensures
        packet::take_uint(bytes::be_bytes(v, n) + tail, n) == Ok::<_, ParseError>((v, tail)),
{
    bytes::lemma_be_bytes_len(v, n);
    bytes::lemma_be_value_of_bytes(v, n);
    let s = bytes::be_bytes(v, n) + tail;
    assert(s.take(n as int) =~= bytes::be_bytes(v, n));
    assert(s.skip(n as int) =~= tail);
}

proof fn lemma_take_byte(v: u8, tail: Seq<u8>)
    ensures
        packet::take_uint(seq![v] + tail, 1) == Ok::<_, ParseError>((v as nat, tail)),
{
    bytes::lemma_be_bytes_one(v);
    bytes::lemma_pow256();
    lemma_take_uint(v as nat, 1, tail);
}

proof fn lemma_take_name(name: Seq<char>, tail: Seq<u8>)
    ensures
        packet::take_name(packet::name_field(name) + tail) == Ok::<_, ParseError>((packet::clipped(name), tail)),
{
    let b = packet::clipped_bytes(name);
    packet::lemma_clipped_len(name);
    lemma_clipped_bytes_valid(name);
    assert(packet::name_field(name) + tail =~= seq![b.len() as u8] + (b + tail));
    lemma_take_byte(b.len() as u8, b + tail);
    assert((b + tail).take(b.len() as int) =~= b);
    assert((b + tail).skip(b.len() as int) =~= tail);
}

proof fn lemma_take_entries(players: Seq<PlayerView>, tail: Seq<u8>)
    ensures
        packet::take_entries(packet::player_entries(players) + tail, players.len()) == Ok::<_, ParseError>(
            (delivered_players(players), tail),
        ),
    decreases players.len(),
{
    if players.len() == 0 {
        assert(packet::player_entries(players) + tail =~= tail);
        assert(delivered_players(players) =~= Seq::empty());
    } else {
        let front = players.drop_last();
        let last = players.last();
        let id = bytes::be_bytes(last.id as nat, 2);
        let field = packet::name_field(last.name);
        let entry = id + (field + tail);
        assert(packet::player_entries(players) + tail =~= packet::player_entries(front) + entry);
        lemma_take_entries(front, entry);
        bytes::lemma_pow256();
        lemma_take_uint(last.id as nat, 2, field + tail);
        lemma_take_name(last.name, tail);
        assert(delivered_players(players) =~= delivered_players(front).push(
            PlayerView { id: last.id, name: packet::clipped(last.name) },
        ));
    }
}

proof fn lemma_take_players(players: Seq<PlayerView>, tail: Seq<u8>)
    requires
        players.len() <= MAX_CLIENTS + 1,
    ensures
        packet::take_players(packet::players_field(players) + tail) == Ok::<_, ParseError>(
            (delivered_players(players), tail),
        ),
{
    bytes::lemma_pow256();
    lemma_take_uint(players.len(), 1, packet::player_entries(players) + tail);
    assert(packet::players_field(players) + tail =~= bytes::be_bytes(players.len(), 1) + (packet::player_entries(
        players,
    ) + tail));
    lemma_take_entries(players, tail);
}

proof fn lemma_hello_round_trip(c: ControlView)
    requires
        c is Hello,
        sendable(c),
    ensures
        packet::hello_of(packet::control_bytes(c)) == Ok::<_, ParseError>(delivered(c)),
{
    if let ControlView::Hello { proto_version, room_code, name, codec_mask, frame_mask } = c {
        let none = Seq::<u8>::empty();
        let s4 = seq![frame_mask] + none;
        let s3 = seq![codec_mask] + s4;
        let s2 = packet::name_field(name) + s3;
        let s1 = room_code + s2;
        assert(packet::control_bytes(c) =~= seq![proto_version] + s1);
        lemma_take_byte(proto_version, s1);
        assert(s1.take(ROOM_CODE_LEN as int) =~= room_code);
        assert(s1.skip(ROOM_CODE_LEN as int) =~= s2);
        lemma_take_name(name, s3);
        lemma_take_byte(codec_mask, s4);
        lemma_take_byte(frame_mask, none);
    }
}

proof fn lemma_welcome_round_trip(c: ControlView)
    requires
        c is Welcome,
        sendable(c),
    ensures
        packet::welcome_of(packet::control_bytes(c)) == Ok::<_, ParseError>(delivered(c)),
{
    if let ControlView::Welcome {
        assigned_id,
        session_id,
        sample_rate,
        frame_samples,
        codec,
        roster,
    } = c {
        let none = Seq::<u8>::empty();
        bytes::lemma_pow256();
        let f1 = bytes::be_bytes(assigned_id as nat, 2);
        let f2 = bytes::be_bytes(session_id as nat, 2);
        let f3 = bytes::be_bytes(sample_rate as nat, 4);
        let f4 = bytes::be_bytes(frame_samples as nat, 2);
        let f5 = seq![packet::codec_code(codec)];
        let f6 = packet::players_field(roster);
        let s5 = f6 + none;
        let s4 = f5 + s5;
        let s3 = f4 + s4;
        let s2 = f3 + s3;
        let s1 = f2 + s2;
        assert(f1 + f2 + f3 + f4 + f5 + f6 =~= f1 + s1);
        lemma_take_uint(assigned_id as nat, 2, s1);
        lemma_take_uint(session_id as nat, 2, s2);
        lemma_take_uint(sample_rate as nat, 4, s3);
        lemma_take_uint(frame_samples as nat, 2, s4);
        lemma_take_byte(packet::codec_code(codec), s5);
        lemma_take_players(roster, none);
    }
}

proof fn lemma_pong_round_trip(c: ControlView)
    requires
        c is Pong,
    ensures
        packet::pong_of(packet::control_bytes(c)) == Ok::<_, ParseError>(c),
{
    if let ControlView::Pong { t1_us, t2_us, t3_us } = c {
        let none = Seq::<u8>::empty();
        bytes::lemma_pow256();
        let s2 = bytes::be_bytes(t3_us as nat, 8) + none;
        let s1 = bytes::be_bytes(t2_us as nat, 8) + s2;
        assert(packet::control_bytes(c) =~= bytes::be_bytes(t1_us as nat, 8) + s1);
        lemma_take_uint(t1_us as nat, 8, s1);
        lemma_take_uint(t2_us as nat, 8, s2);
        lemma_take_uint(t3_us as nat, 8, none);
    }
}

/// What a sendable control value is written as reads back as that value, with
/// over-long names cut.
pub proof fn law_control_round_trip(c: ControlView)
    requires
        sendable(c),
    ensures
        packet::control_of(packet::control_type(c), packet::control_bytes(c)) == Ok::<
            _,
            ParseError,
        >(delivered(c)),
{
    let body = packet::control_bytes(c);
    let none = Seq::<u8>::empty();
    bytes::lemma_pow256();
    match c {
        ControlView::Hello { .. } => {
            lemma_hello_round_trip(c);
        },
        ControlView::Welcome { .. } => {
            lemma_welcome_round_trip(c);
        },
        ControlView::Deny { reason } => {
            assert(body =~= seq![packet::reason_code(reason)] + none);
            lemma_take_byte(packet::reason_code(reason), none);
        },
        ControlView::Ping { t1_us } => {
            assert(body =~= bytes::be_bytes(t1_us as nat, 8) + none);
            lemma_take_uint(t1_us as nat, 8, none);
        },
        ControlView::Pong { .. } => {
            lemma_pong_round_trip(c);
        },
        ControlView::Roster { players } => {
            assert(body =~= packet::players_field(players) + none);
            lemma_take_players(players, none);
        },
        ControlView::Ack { acked_seq, acked_type } => {
            let s1 = seq![acked_type] + none;
            assert(body =~= bytes::be_bytes(acked_seq as nat, 2) + s1);
            lemma_take_uint(acked_seq as nat, 2, s1);
            lemma_take_byte(acked_type, none);
        },
        ControlView::Keepalive => {},
        ControlView::Bye => {},
    }
}

proof fn lemma_taken_uint(s: Seq<u8>, n: nat)
    ensures
        packet::take_uint(s, n) matches Ok((v, rest)) ==> s == bytes::be_bytes(v, n) + rest && v
            < bytes::pow256(n),
{
    if let Ok((v, rest)) = packet::take_uint(s, n) {
        bytes::lemma_be_bytes_of_value(s.take(n as int));
        assert(s =~= s.take(n as int) + s.skip(n as int));
    }
}

proof fn lemma_taken_byte(s: Seq<u8>)
    ensures
        packet::take_uint(s, 1) matches Ok((v, rest)) ==> s == seq![v as u8] + rest && v < 256,
{
    if let Ok((v, rest)) = packet::take_uint(s, 1) {
        lemma_taken_uint(s, 1);
        bytes::lemma_pow256();
        bytes::lemma_be_bytes_one(v as u8);
    }
}

proof fn lemma_taken_name(s: Seq<u8>)
    ensures
        packet::take_name(s) matches Ok((name, rest)) ==> s == packet::name_field(name) + rest && packet::clipped(name)
            == name,
{
    if let Ok((name, rest)) = packet::take_name(s) {
        lemma_taken_byte(s);
        let (n, s1) = packet::take_uint(s, 1)->Ok_0;
        let b = s1.take(n as int);
        utf8::decode_utf8_encode_utf8(b);
        lemma_short_bytes_unclipped(name);
        assert(s1 =~= b + rest);
        assert(s =~= packet::name_field(name) + rest);
    }
}

proof fn lemma_taken_entries(s: Seq<u8>, n: nat)
    ensures
        packet::take_entries(s, n) matches Ok((players, rest)) ==> players.len() == n && s
            == packet::player_entries(players) + rest && delivered_players(players) == players,
    decreases n,
{
    if let Ok((players, rest)) = packet::take_entries(s, n) {
        if n == 0 {
            assert(packet::player_entries(players) + rest =~= s);
            assert(delivered_players(players) =~= players);
        } else {
            lemma_taken_entries(s, (n - 1) as nat);
            let (front, s1) = packet::take_entries(s, (n - 1) as nat)->Ok_0;
            lemma_taken_uint(s1, 2);
            bytes::lemma_pow256();
            let (id, s2) = packet::take_uint(s1, 2)->Ok_0;
            lemma_taken_name(s2);
            let (name, s3) = packet::take_name(s2)->Ok_0;
            assert(players.drop_last() =~= front);
            assert(s =~= packet::player_entries(players) + rest);
            assert(delivered_players(players) =~= players) by {
                assert forall|i: int| 0 <= i < players.len() implies packet::clipped(
                    (#[trigger] players[i]).name,
                ) == players[i].name by {
                    if i < front.len() {
                        assert(delivered_players(front)[i] == front[i]);
                    }
                }
            }
        }
    }
}

proof fn lemma_taken_players(s: Seq<u8>)
    ensures
        packet::take_players(s) matches Ok((players, rest)) ==> s == packet::players_field(players) + rest
            && players.len() <= MAX_CLIENTS + 1 && delivered_players(players) == players,
{
    if let Ok((players, rest)) = packet::take_players(s) {
        lemma_taken_uint(s, 1);
        let (n, s1) = packet::take_uint(s, 1)->Ok_0;
        lemma_taken_entries(s1, n);
        assert(s =~= packet::players_field(players) + rest);
    }
}

proof fn lemma_hello_is_canonical(body: Seq<u8>)
    requires
        packet::hello_of(body) is Ok,
    ensures
        packet::control_bytes(packet::hello_of(body)->Ok_0) == body,
        sendable(packet::hello_of(body)->Ok_0),
        delivered(packet::hello_of(body)->Ok_0) == packet::hello_of(body)->Ok_0,
{
    lemma_taken_byte(body);
    let s1 = packet::take_uint(body, 1)->Ok_0.1;
    assert(s1 =~= s1.take(ROOM_CODE_LEN as int) + s1.skip(ROOM_CODE_LEN as int));
    let s2 = packet::take_bytes(s1, ROOM_CODE_LEN as nat)->Ok_0.1;
    lemma_taken_name(s2);
    let s3 = packet::take_name(s2)->Ok_0.1;
    lemma_taken_byte(s3);
    let s4 = packet::take_uint(s3, 1)->Ok_0.1;
    lemma_taken_byte(s4);
    assert(packet::control_bytes(packet::hello_of(body)->Ok_0) =~= body);
}

proof fn lemma_welcome_is_canonical(body: Seq<u8>)
    requires
        packet::welcome_of(body) is Ok,
    ensures
        packet::control_bytes(packet::welcome_of(body)->Ok_0) == body,
        sendable(packet::welcome_of(body)->Ok_0),
        delivered(packet::welcome_of(body)->Ok_0) == packet::welcome_of(body)->Ok_0,
{
    bytes::lemma_pow256();
    lemma_taken_uint(body, 2);
    let (v1, s1) = packet::take_uint(body, 2)->Ok_0;
    lemma_taken_uint(s1, 2);
    let (v2, s2) = packet::take_uint(s1, 2)->Ok_0;
    lemma_taken_uint(s2, 4);
    let (v3, s3) = packet::take_uint(s2, 4)->Ok_0;
    lemma_taken_uint(s3, 2);
    let (v4, s4) = packet::take_uint(s3, 2)->Ok_0;
    lemma_taken_byte(s4);
    let (v5, s5) = packet::take_uint(s4, 1)->Ok_0;
    lemma_taken_players(s5);
    let (roster, none) = packet::take_players(s5)->Ok_0;
    let f1 = bytes::be_bytes(v1, 2);
    let f2 = bytes::be_bytes(v2, 2);
    let f3 = bytes::be_bytes(v3, 4);
    let f4 = bytes::be_bytes(v4, 2);
    let f5 = seq![v5 as u8];
    let f6 = packet::players_field(roster);
    assert(f6 + none =~= f6);
    assert(f1 + (f2 + (f3 + (f4 + (f5 + f6)))) =~= f1 + f2 + f3 + f4 + f5 + f6);
}

proof fn lemma_pong_is_canonical(body: Seq<u8>)
    requires
        packet::pong_of(body) is Ok,
    ensures
        packet::control_bytes(packet::pong_of(body)->Ok_0) == body,
{
    bytes::lemma_pow256();
    lemma_taken_uint(body, 8);
    let s1 = packet::take_uint(body, 8)->Ok_0.1;
    lemma_taken_uint(s1, 8);
    let s2 = packet::take_uint(s1, 8)->Ok_0.1;
    lemma_taken_uint(s2, 8);
    assert(packet::control_bytes(packet::pong_of(body)->Ok_0) =~= body);
}

/// A body that is accepted as a control value is what that value is written
/// as, and the value is delivered as it is.
pub proof fn law_control_is_canonical(t: PacketType, body: Seq<u8>)
    requires
        packet::control_of(t, body) is Ok,
    ensures
        packet::control_type(packet::control_of(t, body)->Ok_0) == t,
        packet::control_bytes(packet::control_of(t, body)->Ok_0) == body,
        sendable(packet::control_of(t, body)->Ok_0),
        delivered(packet::control_of(t, body)->Ok_0) == packet::control_of(t, body)->Ok_0,
{
    let c = packet::control_of(t, body)->Ok_0;
    bytes::lemma_pow256();
    match t {
        PacketType::Audio => {},
        PacketType::Hello => {
            lemma_hello_is_canonical(body);
        },
        PacketType::Welcome => {
            lemma_welcome_is_canonical(body);
        },
        PacketType::Deny => {
            lemma_taken_byte(body);
            assert(packet::control_bytes(c) =~= body);
        },
        PacketType::Ping => {
            lemma_taken_uint(body, 8);
            assert(packet::control_bytes(c) =~= body);
        },
        PacketType::Pong => {
            lemma_pong_is_canonical(body);
        },
        PacketType::Keepalive => {
            assert(packet::control_bytes(c) =~= body);
        },
        PacketType::Roster => {
            lemma_taken_players(body);
            assert(packet::control_bytes(c) =~= body);
        },
        PacketType::Bye => {
            assert(packet::control_bytes(c) =~= body);
        },
        PacketType::Ack => {
            lemma_taken_uint(body, 2);
            lemma_taken_byte(packet::take_uint(body, 2)->Ok_0.1);
            assert(packet::control_bytes(c) =~= body);
        },
    }
}

/// Writing what a reader got gives the bytes that it was read from.
pub proof fn law_rewriting_changes_nothing(c: ControlView)
    requires
        sendable(c),
    ensures
        packet::control_bytes(delivered(c)) == packet::control_bytes(c),
{
    law_control_round_trip(c);
    law_control_is_canonical(packet::control_type(c), packet::control_bytes(c));
}

/// A control datagram reads back as its header and its value, over-long names
/// cut.
pub proof fn law_control_datagram_round_trip(h: Header, c: ControlView)
    requires
        h.ptype == packet::control_type(c),
        sendable(c),
    ensures
        packet::datagram_of(packet::header_bytes(h) + packet::control_bytes(c)) == Ok::<_, ParseError>(
            (h, PayloadView::Control(delivered(c))),
        ),
{
    packet::law_header_round_trip(h, packet::control_bytes(c));
    law_control_round_trip(c);
}

/// An audio datagram reads back as its header and its packet.
pub proof fn law_audio_datagram_round_trip(h: Header, a: AudioView)
    requires
        h.ptype == PacketType::Audio,
        a.payload.len() <= 0xFFFF,
        a.redundant matches Some(r) ==> r.len() <= 0xFFFF,
    ensures
        packet::datagram_of(packet::header_bytes(h) + packet::audio_bytes(a)) == Ok::<_, ParseError>(
            (h, PayloadView::Audio(a)),
        ),
{
    packet::law_header_round_trip(h, packet::audio_bytes(a));
    packet::law_audio_round_trip(a);
}

proof fn lemma_player_entries_bound(players: Seq<PlayerView>)
    ensures
        packet::player_entries(players).len() <= players.len() * (3 + MAX_NAME_LEN),
    decreases players.len(),
{
    if players.len() > 0 {
        lemma_player_entries_bound(players.drop_last());
        bytes::lemma_be_bytes_len(players.last().id as nat, 2);
        packet::lemma_clipped_len(players.last().name);
    }
}

/// Every control value that can be read back fits into `MAX_DATAGRAM` bytes,
/// header and all.
pub proof fn law_control_datagrams_fit(c: ControlView)
    requires
        sendable(c),
    ensures
        packet::HEADER_LEN + packet::control_bytes(c).len() <= MAX_DATAGRAM,
{
    match c {
        ControlView::Hello { name, .. } => {
            packet::lemma_clipped_len(name);
        },
        ControlView::Welcome {
            assigned_id,
            session_id,
            sample_rate,
            frame_samples,
            roster,
            ..
        } => {
            bytes::lemma_be_bytes_len(assigned_id as nat, 2);
            bytes::lemma_be_bytes_len(session_id as nat, 2);
            bytes::lemma_be_bytes_len(sample_rate as nat, 4);
            bytes::lemma_be_bytes_len(frame_samples as nat, 2);
            bytes::lemma_be_bytes_len(roster.len(), 1);
            lemma_player_entries_bound(roster);
        },
        ControlView::Ping { t1_us } => {
            bytes::lemma_be_bytes_len(t1_us as nat, 8);
        },
        ControlView::Pong { t1_us, t2_us, t3_us } => {
            bytes::lemma_be_bytes_len(t1_us as nat, 8);
            bytes::lemma_be_bytes_len(t2_us as nat, 8);
            bytes::lemma_be_bytes_len(t3_us as nat, 8);
        },
        ControlView::Roster { players } => {
            bytes::lemma_be_bytes_len(players.len(), 1);
            lemma_player_entries_bound(players);
        },
        ControlView::Ack { acked_seq, .. } => {
            bytes::lemma_be_bytes_len(acked_seq as nat, 2);
        },
        _ => {},
    }
}

} // verus!
