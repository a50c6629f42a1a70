//! What holds from one end of a session to the other: what one side sends is
//! what the other side gets.
use crate::addr::SocketAddr;
use crate::control;
use crate::handshake;
use crate::handshake::{ClientPhase, ClientView, HostView};
use crate::handshake_laws;
use crate::handshake_laws::HostInput;
use crate::jitter;
use crate::jitter::{FrameView, JitterView};
use crate::net;
use crate::net::{AddrTableView, RoutedView, RxRole};
use crate::packet;
use crate::packet::{Codec, ControlView, PayloadView};
use crate::pipeline;
use crate::pipeline::SenderView;
use crate::roundtrip;
use crate::{
    HOST_SENDER_ID, MAX_CLIENTS, MAX_DATAGRAM, MAX_FRAME_BYTES, PROTOCOL_VERSION, ROOM_CODE_LEN,
};
use vstd::prelude::*;

verus! {

/// A control packet that one side sends is routed to the control thread of the
/// other as what it was, over-long names cut; to a client only if it comes
/// from its host. (A PING is answered at once instead.)
pub proof fn law_control_packets_arrive(
    role: RxRole,
    t: AddrTableView,
    from: SocketAddr,
    c: ControlView,
    session_id: u16,
    sender_id: u16,
    seq: u16,
)
    requires
        roundtrip::sendable(c),
        c !is Ping,
        role matches RxRole::Client { host_addr, .. } ==> from == host_addr,
    ensures
        ({
            let d = control::control_datagram(c, session_id, sender_id, seq);
            let r = net::routed(role, t, from, d);
            &&& r is Control
            &&& r->Control_control == roundtrip::delivered(c)
            &&& r->Control_header == control::control_header(c, session_id, sender_id, seq)
            &&& r->heard == match role {
                RxRole::Host { .. } => net::genuine_slot(t, from, sender_id),
                RxRole::Client { .. } => Some(0int),
            }
        }),
{
    let h = control::control_header(c, session_id, sender_id, seq);
    roundtrip::law_control_datagram_round_trip(h, c);
    let d = control::control_datagram(c, session_id, sender_id, seq);
    assert(packet::datagram_of(d) == Ok::<_, packet::ParseError>(
        (h, PayloadView::Control(roundtrip::delivered(c))),
    ));
    assert(roundtrip::delivered(c) !is Ping);
}

/// The WELCOME that answers the HELLO of a client that knows the room code can
/// be read back, and joins the client under the id by which the host knows it.
proof fn lemma_welcome_joins(h: HostView, addr: SocketAddr, c: ClientView, now_ms: u64)
    requires
        handshake_laws::host_ok(h),
        c.phase is Joining,
        c.hello is Hello,
        c.hello->proto_version == PROTOCOL_VERSION,
        c.hello->room_code == h.room_code,
        handshake::sender_at(h, addr) is Some || exists|i: int|
            0 <= i < MAX_CLIENTS && (#[trigger] h.slots[i]) is None,
    ensures
        ({
            let (h2, actions) = handshake::host_hello(
                h,
                addr,
                roundtrip::delivered(c.hello),
                now_ms,
            );
            let welcome = actions[0]->control;
            &&& actions.len() > 0
            &&& actions[0] is Send
            &&& actions[0]->to == addr
            &&& welcome is Welcome
            &&& roundtrip::sendable(welcome)
            &&& handshake::sender_at(h2, addr) is Some
            &&& handshake::client_control(c, roundtrip::delivered(welcome)).0.phase == (
            ClientPhase::Joined {
                sender_id: handshake::sender_at(h2, addr)->Some_0,
                session_id: h.session_id,
                params: h.params,
            })
        }),
{
    let hello = roundtrip::delivered(c.hello);
    let e = HostInput::Hello { addr, hello, now_ms };
    handshake_laws::law_host_stays_in_order(h, e);
    handshake_laws::law_host_actions_can_be_carried_out(h, e);
    handshake_laws::law_welcome_names_the_id(h, addr, hello, now_ms);
    let (h2, actions) = handshake::host_hello(h, addr, hello, now_ms);
    assert(handshake_laws::action_ok(actions[0]));
}

/// Joining, over the wire: the HELLO of a client that knows the room code
/// arrives at the host, the WELCOME that the host answers arrives at the
/// client, and the client has then joined the host's session under the id by
/// which the host knows its address, with the host's parameters.
pub proof fn law_join_over_the_wire(
    h: HostView,
    host_table: AddrTableView,
    client_addr: SocketAddr,
    c: ClientView,
    client_role: RxRole,
    client_table: AddrTableView,
    host_addr: SocketAddr,
    sender_id: u16,
    session_id: u16,
    hello_seq: u16,
    welcome_seq: u16,
    now_ms: u64,
)
    requires
        handshake_laws::host_ok(h),
        c.phase is Joining,
        c.hello is Hello,
        c.hello->proto_version == PROTOCOL_VERSION,
        c.hello->room_code == h.room_code,
        handshake::sender_at(h, client_addr) is Some || exists|i: int|
            0 <= i < MAX_CLIENTS && (#[trigger] h.slots[i]) is None,
        client_role matches RxRole::Client { host_addr: a, .. } && a == host_addr,
    ensures
        ({
            let sent = control::control_datagram(c.hello, session_id, sender_id, hello_seq);
            let at_host = net::routed(
                RxRole::Host { session_id: h.session_id },
                host_table,
                client_addr,
                sent,
            );
            let (h2, actions) = handshake::host_hello(
                h,
                client_addr,
                at_host->Control_control,
                now_ms,
            );
            let answer = control::control_datagram(
                actions[0]->control,
                h.session_id,
                HOST_SENDER_ID,
                welcome_seq,
            );
            let at_client = net::routed(client_role, client_table, host_addr, answer);
            let c2 = handshake::client_control(c, at_client->Control_control).0;
            &&& at_host is Control
            &&& actions.len() > 0
            &&& actions[0] is Send
            &&& actions[0]->to == client_addr
            &&& at_client is Control
            &&& handshake::sender_at(h2, client_addr) is Some
            &&& c2.phase == (ClientPhase::Joined {
                sender_id: handshake::sender_at(h2, client_addr)->Some_0,
                session_id: h.session_id,
                params: h.params,
            })
        }),
{
    let host_role = RxRole::Host { session_id: h.session_id };
    law_control_packets_arrive(
        host_role,
        host_table,
        client_addr,
        c.hello,
        session_id,
        sender_id,
        hello_seq,
    );
    lemma_welcome_joins(h, client_addr, c, now_ms);
    let hello = roundtrip::delivered(c.hello);
    let welcome = handshake::host_hello(h, client_addr, hello, now_ms).1[0]->control;
    law_control_packets_arrive(
        client_role,
        client_table,
        host_addr,
        welcome,
        h.session_id,
        HOST_SENDER_ID,
        welcome_seq,
    );
}

/// A HELLO with the wrong room code, over the wire: the host changes nothing,
/// and the client that gets the answer gives up with the reason.
pub proof fn law_wrong_code_over_the_wire(
    h: HostView,
    client_addr: SocketAddr,
    c: ClientView,
    now_ms: u64,
)
    requires
        handshake_laws::host_ok(h),
        c.phase is Joining,
        c.hello is Hello,
        c.hello->proto_version == PROTOCOL_VERSION,
        c.hello->room_code.len() == ROOM_CODE_LEN,
        c.hello->room_code != h.room_code,
    ensures
        ({
            let (h2, actions) = handshake::host_hello(
                h,
                client_addr,
                roundtrip::delivered(c.hello),
                now_ms,
            );
            let answer = roundtrip::delivered(actions[0]->control);
            &&& h2 == h
            &&& actions.len() == 1
            &&& actions[0] is Send
            &&& actions[0]->to == client_addr
            &&& handshake::client_control(c, answer).0.phase == ClientPhase::Failed(
                handshake::JoinFailure::Denied(packet::DenyReason::BadRoomCode),
            )
        }),
{
    handshake_laws::law_refused_hello_changes_nothing(
        h,
        client_addr,
        roundtrip::delivered(c.hello),
        now_ms,
    );
}

/// A frame that a client sends reaches its stream on the host as it was packed,
/// if the host knows the address under that id; a frame that the host sends
/// reaches the stream of a joined client.
pub proof fn law_frames_reach_their_stream(
    s: SenderView,
    t: AddrTableView,
    from: SocketAddr,
    slot: int,
    session_id: u16,
    own_id: u16,
    timestamp: u32,
    codec: Codec,
    redundancy: bool,
    payload: Seq<u8>,
)
    requires
        0 <= slot < MAX_CLIENTS,
        t.clients[slot] == Some(from),
        payload.len() <= MAX_FRAME_BYTES,
        s.prev.len() <= MAX_FRAME_BYTES,
    ensures
        net::routed(
            RxRole::Host { session_id },
            t,
            from,
            pipeline::frame_datagram(
                s,
                session_id,
                (slot + 1) as u16,
                timestamp,
                codec,
                redundancy,
                payload,
            ),
        ) == (RoutedView::Audio {
            slot,
            seq: s.seq,
            packet: pipeline::frame_packet(s, timestamp, codec, redundancy, payload),
        }),
        net::routed(
            RxRole::Client { host_addr: from, joined: true, session_id, sender_id: own_id },
            t,
            from,
            pipeline::frame_datagram(
                s,
                session_id,
                HOST_SENDER_ID,
                timestamp,
                codec,
                redundancy,
                payload,
            ),
        ) == (RoutedView::Audio {
            slot: 0,
            seq: s.seq,
            packet: pipeline::frame_packet(s, timestamp, codec, redundancy, payload),
        }),
{
    pipeline::law_sent_frames_are_read_back(
        s,
        session_id,
        (slot + 1) as u16,
        timestamp,
        codec,
        redundancy,
        payload,
    );
    pipeline::law_sent_frames_are_read_back(
        s,
        session_id,
        HOST_SENDER_ID,
        timestamp,
        codec,
        redundancy,
        payload,
    );
}

/// The frame before the next one, and its timestamp.
proof fn lemma_one_frame_on(seq: u16, timestamp: u32, frame_samples: u32)
    ensures
        crate::seq::ring_add(crate::seq::ring_add(seq, 1), -1) == seq,
        (pipeline::clock_after(timestamp, frame_samples as usize) as u32).wrapping_sub(
            frame_samples,
        ) == timestamp,
{
}

/// The packet after a frame that fits along with it.
proof fn lemma_repair_packet(
    s: SenderView,
    clock: u32,
    codec: Codec,
    lost: Seq<u8>,
    next: Seq<u8>,
)
    requires
        0 < lost.len(),
        pipeline::bare_size(next.len()) + 2 + lost.len() <= MAX_DATAGRAM,
    ensures
        ({
            let s2 = pipeline::frame_sent(s, lost);
            &&& s2.seq == crate::seq::ring_add(s.seq, 1)
            &&& pipeline::frame_packet(s2, clock, codec, true, next) == (packet::AudioView {
                timestamp: clock,
                codec,
                payload: next,
                redundant: Some(lost),
            })
        }),
{
}

/// With redundancy any single lost packet is repaired: if the packet of a frame
/// is lost, and the next packet arrives before the frame is due, the receiver
/// plays both frames in their turn, with the timestamps that they were sent
/// with, however far ahead in the buffer they are. (The two frames must fit into
/// one datagram.)
pub proof fn law_single_lost_packet_is_repaired(
    s: SenderView,
    b: JitterView,
    timestamp: u32,
    frame_samples: u32,
    codec: Codec,
    lost: Seq<u8>,
    next: Seq<u8>,
)
    requires
        0 < lost.len() <= MAX_FRAME_BYTES,
        next.len() <= MAX_FRAME_BYTES,
        pipeline::bare_size(next.len()) + 2 + lost.len() <= MAX_DATAGRAM,
        b.started,
        b.slots.len() == jitter::SLOTS,
        0 <= crate::seq::ring_diff(s.seq, b.next),
        crate::seq::ring_diff(s.seq, b.next) + 1 < jitter::SLOTS,
        jitter::stored(b, s.seq) is None,
        jitter::stored(b, crate::seq::ring_add(s.seq, 1)) is None,
    ensures
        ({
            let s2 = pipeline::frame_sent(s, lost);
            let clock = pipeline::clock_after(timestamp, frame_samples as usize) as u32;
            let arrived = pipeline::frame_packet(s2, clock, codec, true, next);
            let ahead = crate::seq::ring_diff(s.seq, b.next) as nat;
            let b2 = net::fed(b, s2.seq, arrived, frame_samples);
            let (b3, first) = jitter::popped(jitter::popped_times(b2, ahead));
            let second = jitter::popped(b3).1;
            &&& first == Some(FrameView { seq: s.seq, timestamp, payload: lost })
            &&& second == Some(FrameView { seq: s2.seq, timestamp: clock, payload: next })
        }),
{
    let s2 = pipeline::frame_sent(s, lost);
    let clock = pipeline::clock_after(timestamp, frame_samples as usize) as u32;
    let arrived = pipeline::frame_packet(s2, clock, codec, true, next);
    lemma_one_frame_on(s.seq, timestamp, frame_samples);
    lemma_repair_packet(s, clock, codec, lost, next);
    net::law_redundancy_repairs_a_single_loss(b, s2.seq, arrived, frame_samples);
}

} // verus!
