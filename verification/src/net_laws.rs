//! Who a datagram goes to, and what becomes of one that arrives.
use crate::addr::SocketAddr;
use crate::jitter::JitterView;
use crate::net;
use crate::net::{
    AddrTableView, AddrUpdate, LossSim, RoutedView, RxRole, TxState, TxStep, TxView,
};
use crate::packet;
use crate::packet::{AudioView, ControlView, Header, PacketType, PayloadView};
use crate::pipeline::DEST_PEER;
use crate::{HOST_SENDER_ID, MAX_CLIENTS};
use vstd::prelude::*;

verus! {

// ---------------------------------------------------------------------------
// Transmit
// ---------------------------------------------------------------------------
/// A destination is a client slot or the peer; anything else is nowhere.
pub proof fn law_destinations_are_slots_or_the_peer(t: AddrTableView, dest: u8)
    requires
        t.clients.len() == MAX_CLIENTS,
    ensures
        dest < 4 ==> net::address_of(t, dest) == t.clients[dest as int],
        dest == 255 ==> net::address_of(t, dest) == t.peer,
        4 <= dest < 255 ==> net::address_of(t, dest) is None,
{
}

/// An update of a slot is where datagrams to that slot go from then on, until
/// the next; other destinations stay where they were. An update of a slot that
/// does not exist changes nothing.
pub proof fn law_updates_reach_their_destination(
    t: AddrTableView,
    slot: u8,
    addr: Option<SocketAddr>,
    peer: SocketAddr,
    dest: u8,
)
    requires
        t.clients.len() == MAX_CLIENTS,
    ensures
        ({
            let t1 = net::updated(t, AddrUpdate::Client { slot, addr });
            let t2 = net::updated(t, AddrUpdate::Peer(peer));
            &&& slot < 4 && dest == slot ==> net::address_of(t1, dest) == addr
            &&& slot >= 4 || dest != slot ==> net::address_of(t1, dest) == net::address_of(t, dest)
            &&& net::address_of(t2, 255) == Some(peer)
            &&& dest != 255 ==> net::address_of(t2, dest) == net::address_of(t, dest)
            &&& t1.clients.len() == MAX_CLIENTS && t2.clients.len() == MAX_CLIENTS
        }),
{
}

/// Each step of the generator multiplies and adds, modulo 2^64: where two states
/// are one apart, the states after them are the multiplier apart.
pub proof fn law_generator_is_linear(rng: u64)
    ensures
        0 <= net::lcg(rng) <= u64::MAX,
        net::lcg(0) == 1442695040888963407,
        rng < u64::MAX ==> (net::lcg((rng + 1) as u64) - net::lcg(rng) == 6364136223846793005
            || net::lcg((rng + 1) as u64) - net::lcg(rng) == 6364136223846793005
            - 0x1_0000_0000_0000_0000),
{
}

/// With no chance of loss nothing is dropped; with a chance of one everything
/// is. What is dropped at some chance is dropped at every higher one. The chance
/// stays, and the generator moves on by a step for each datagram, dropped or
/// not.
pub proof fn law_higher_chance_drops_more(rng: u64, less: u32, more: u32)
    requires
        0 < less <= more,
    ensures
        !net::rolled(LossSim { rng, threshold: 0 }).1,
        net::rolled(LossSim { rng, threshold: less }).1 ==> net::rolled(
            LossSim { rng, threshold: more },
        ).1,
        more >= 0x100_0000 ==> net::rolled(LossSim { rng, threshold: more }).1,
        net::rolled(LossSim { rng, threshold: more }).0.threshold == more,
        net::rolled(LossSim { rng, threshold: more }).0.rng == net::lcg(rng),
{
}

/// Just those datagrams are dropped after which the upper 24 bits of the
/// generator are a number below the threshold.
pub proof fn law_upper_bits_decide(sim: LossSim, upper: int, lower: int)
    requires
        sim.threshold > 0,
        net::lcg(sim.rng) == upper * 0x100_0000_0000 + lower,
        0 <= lower < 0x100_0000_0000,
    ensures
        net::rolled(sim).1 <==> upper < sim.threshold,
{
}

/// A datagram that is not dropped goes to where its destination is.
pub proof fn law_kept_datagrams_go_to_their_destination(tx: TxState, dest: u8)
    ensures
        net::rolled(tx.loss).1 ==> net::destination(tx, dest) is None,
        !net::rolled(tx.loss).1 && dest < 4 ==> net::destination(tx, dest)
            == tx.table.clients@[dest as int],
        !net::rolled(tx.loss).1 && dest == DEST_PEER ==> net::destination(tx, dest)
            == tx.table.peer,
{
}

// ---------------------------------------------------------------------------
// Receive
// ---------------------------------------------------------------------------
/// Audio of this session from where a client is known to be, under the id of
/// that client, is played in the client's stream, as it was sent. Any other
/// audio is dropped.
pub proof fn law_host_plays_its_clients(
    session_id: u16,
    t: AddrTableView,
    from: SocketAddr,
    d: Seq<u8>,
    h: Header,
    a: AudioView,
)
    requires
        t.clients.len() == MAX_CLIENTS,
        packet::datagram_of(d) == Ok::<_, packet::ParseError>((h, PayloadView::Audio(a))),
    ensures
        ({
            let r = net::routed(RxRole::Host { session_id }, t, from, d);
            if h.session_id == session_id && 1 <= h.sender_id <= MAX_CLIENTS && t.clients[
            h.sender_id - 1] == Some(from) {
                r == (RoutedView::Audio { slot: h.sender_id - 1, seq: h.seq, packet: a })
            } else {
                r is Drop
            }
        }),
{
}

/// Audio of the session that a client has joined, from its host, is played as
/// it was sent. Any other audio is dropped.
pub proof fn law_client_plays_its_host(
    host_addr: SocketAddr,
    joined: bool,
    session_id: u16,
    sender_id: u16,
    t: AddrTableView,
    from: SocketAddr,
    d: Seq<u8>,
    h: Header,
    a: AudioView,
)
    requires
        packet::datagram_of(d) == Ok::<_, packet::ParseError>((h, PayloadView::Audio(a))),
    ensures
        ({
            let r = net::routed(
                RxRole::Client { host_addr, joined, session_id, sender_id },
                t,
                from,
                d,
            );
            if joined && from == host_addr && h.sender_id == HOST_SENDER_ID && h.session_id
                == session_id {
                r == (RoutedView::Audio { slot: 0, seq: h.seq, packet: a })
            } else {
                r is Drop
            }
        }),
{
}

/// Every PING is answered, whoever sent it, with its own time, session and
/// number; the host answers as the host, a client under its own id.
pub proof fn law_every_ping_is_answered(
    role: RxRole,
    t: AddrTableView,
    from: SocketAddr,
    d: Seq<u8>,
    h: Header,
    t1_us: u64,
)
    requires
        packet::datagram_of(d) == Ok::<_, packet::ParseError>(
            (h, PayloadView::Control(ControlView::Ping { t1_us })),
        ),
    ensures
        net::routed(role, t, from, d) == (RoutedView::Pong {
            header: Header {
                ptype: PacketType::Pong,
                session_id: h.session_id,
                sender_id: match role {
                    RxRole::Host { .. } => 0,
                    RxRole::Client { sender_id, .. } => sender_id,
                },
                seq: h.seq,
            },
            t1_us,
        }),
{
}

/// Every other control packet goes to the host's control thread as it was sent.
/// It shows that a client is there only if it comes from where that client is
/// known to be, under its id.
pub proof fn law_host_hears_everyone(
    session_id: u16,
    t: AddrTableView,
    from: SocketAddr,
    d: Seq<u8>,
    h: Header,
    control: ControlView,
)
    requires
        t.clients.len() == MAX_CLIENTS,
        packet::datagram_of(d) == Ok::<_, packet::ParseError>((h, PayloadView::Control(control))),
        !(control is Ping),
    ensures
        net::routed(RxRole::Host { session_id }, t, from, d) matches RoutedView::Control {
            heard,
            header,
            control: c,
        } && header == h && c == control && heard == if 1 <= h.sender_id <= MAX_CLIENTS
            && t.clients[h.sender_id - 1] == Some(from) {
            Some(h.sender_id - 1)
        } else {
            None
        },
{
}

/// Every other control packet from its host goes to a client's control thread
/// as it was sent, and shows that the host is there.
pub proof fn law_client_hears_its_host(
    host_addr: SocketAddr,
    joined: bool,
    session_id: u16,
    sender_id: u16,
    t: AddrTableView,
    d: Seq<u8>,
    h: Header,
    control: ControlView,
)
    requires
        packet::datagram_of(d) == Ok::<_, packet::ParseError>((h, PayloadView::Control(control))),
        !(control is Ping),
    ensures
        net::routed(RxRole::Client { host_addr, joined, session_id, sender_id }, t, host_addr, d)
            == (RoutedView::Control { heard: Some(0), header: h, control }),
{
}

/// What cannot be read is dropped.
pub proof fn law_garbage_is_dropped(
    role: RxRole,
    t: AddrTableView,
    from: SocketAddr,
    d: Seq<u8>,
)
    requires
        packet::datagram_of(d) is Err,
    ensures
        net::routed(role, t, from, d) is Drop,
{
}

/// A packet with a copy of the frame before is as good as two packets without:
/// the one with its own frame, and after it the one that carried the frame
/// before, numbered and timed one frame earlier.
pub proof fn law_a_copy_is_a_packet_of_its_own(
    b: JitterView,
    seq: u16,
    a: AudioView,
    frame_samples: u32,
    before: AudioView,
)
    requires
        a.redundant == Some(before.payload),
        before.redundant is None,
        before.timestamp == if a.timestamp >= frame_samples {
            a.timestamp - frame_samples
        } else {
            a.timestamp - frame_samples + 0x1_0000_0000
        },
    ensures
        net::fed(b, seq, a, frame_samples) == net::fed(
            net::fed(b, seq, AudioView { redundant: None, ..a }, frame_samples),
            if seq == 0 {
                0xFFFF
            } else {
                (seq - 1) as u16
            },
            before,
            frame_samples,
        ),
{
}

/// A packet without a copy puts its own frame into the buffer, and no other.
pub proof fn law_a_packet_carries_its_own_frame(
    b: JitterView,
    seq: u16,
    a: AudioView,
    frame_samples: u32,
)
    requires
        a.redundant is None,
        !b.started,
        b.slots.len() == crate::jitter::SLOTS,
        crate::jitter::stored(b, seq) is None,
        a.payload.len() <= crate::MAX_FRAME_BYTES,
    ensures
        ({
            let (b2, got) = crate::jitter::popped(net::fed(b, seq, a, frame_samples));
            &&& got == Some(
                crate::jitter::FrameView { seq, timestamp: a.timestamp, payload: a.payload },
            )
            &&& crate::jitter::depth_of(b2) == 0
        }),
{
}

/// A control packet that is no PING, from elsewhere than its host, is dropped by
/// a client.
pub proof fn law_client_ignores_strangers(
    host_addr: SocketAddr,
    joined: bool,
    session_id: u16,
    sender_id: u16,
    t: AddrTableView,
    from: SocketAddr,
    d: Seq<u8>,
    h: Header,
    control: ControlView,
)
    requires
        from != host_addr,
        packet::datagram_of(d) == Ok::<_, packet::ParseError>((h, PayloadView::Control(control))),
        !(control is Ping),
    ensures
        net::routed(RxRole::Client { host_addr, joined, session_id, sender_id }, t, from, d)
            is Drop,
{
}

/// A datagram is sent as it is to where its destination is, if it is not dropped
/// and somebody is there; else it is discarded. The thread is idle for neither.
pub proof fn law_steps_follow_the_destination(tx: TxState, d: TxView, step: TxStep)
    requires
        net::step_for(tx, d, step),
    ensures
        ({
            let addr = if d.dest == 255 {
                tx.table.peer
            } else if d.dest < 4 {
                tx.table.clients@[d.dest as int]
            } else {
                None
            };
            if net::rolled(tx.loss).1 || addr is None {
                step is Discard
            } else {
                step matches TxStep::Send { to, item } && Some(to) == addr && item@ == d
            }
        }),
{
}

} // verus!
