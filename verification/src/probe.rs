//! `jam ping`: probing a host's round-trip time without joining its session.
use crate::addr::SocketAddr;
use crate::bytes;
use crate::control;
use crate::control::rtt_from_pong;
use crate::net;
use crate::net::{AddrTableView, RxRole};
use crate::packet;
use crate::packet::{
    parse_datagram, Control, ControlView, Header, PacketType, Payload, PayloadView,
};
use crate::roundtrip;
use crate::UNJOINED_SENDER_ID;
use vstd::prelude::*;

verus! {

/// The length of a probe.
pub const PROBE_LEN: usize = 16;

/// A probe: a PING from nobody in particular, outside any session.
pub open spec fn probe_bytes(seq: u16, t1_us: u64) -> Seq<u8> {
    control::control_datagram(ControlView::Ping { t1_us }, 0, UNJOINED_SENDER_ID, seq)
}

/// Writes the probe with number `seq` that leaves at `t1_us`; returns its
/// length.
pub fn write_probe(seq: u16, t1_us: u64, out: &mut [u8]) -> (n: usize)
    requires
        old(out)@.len() >= PROBE_LEN,
    ensures
        n == PROBE_LEN,
        final(out)@ == bytes::overwrite(old(out)@, 0, probe_bytes(seq, t1_us)),
{
    proof {
        bytes::lemma_be_bytes_len(t1_us as nat, 8);
    }
    let ping = Control::Ping { t1_us };
    let header = Header {
        ptype: PacketType::Ping,
        session_id: 0,
        sender_id: UNJOINED_SENDER_ID,
        seq,
    };
    ping.write(&header, out)
}

/// The round trip in microseconds that a datagram shows which arrived at
/// `rx_us`, if it is an answer to a probe.
pub open spec fn reply_round_trip(d: Seq<u8>, rx_us: u64) -> Option<int> {
    match packet::datagram_of(d) {
        Ok((_, PayloadView::Control(ControlView::Pong { t1_us, t2_us, t3_us }))) => Some(
            control::round_trip_us(rx_us, t1_us, t2_us, t3_us),
        ),
        _ => None,
    }
}

/// The round trip that a reply shows; nothing if it is no answer to a probe.
pub fn reply_rtt(datagram: &[u8], rx_us: u64) -> (rtt: Option<u64>)
    ensures
        match (rtt, reply_round_trip(datagram@, rx_us)) {
            (Some(us), Some(v)) => us == v,
            (None, None) => true,
            _ => false,
        },
{
    match parse_datagram(datagram) {
        Ok((_, Payload::Control(Control::Pong { t1_us, t2_us, t3_us }))) => Some(
            rtt_from_pong(rx_us, t1_us, t2_us, t3_us),
        ),
        _ => None,
    }
}

/// Everyone answers a probe, whoever it comes from, and the answer shows the
/// time that the probe and the answer were under way: what passed between
/// sending the one and receiving the other, less what lies between the
/// receiving and the sending at the other end.
pub proof fn law_probes_are_answered(
    role: RxRole,
    t: AddrTableView,
    from: SocketAddr,
    seq: u16,
    t1_us: u64,
    t2_us: u64,
    t3_us: u64,
    rx_us: u64,
)
    ensures
        ({
            let r = net::routed(role, t, from, probe_bytes(seq, t1_us));
            let answer = packet::header_bytes(r->Pong_header) + packet::control_bytes(
                ControlView::Pong { t1_us: r->t1_us, t2_us, t3_us },
            );
            &&& r is Pong
            &&& r->Pong_header.seq == seq
            &&& reply_round_trip(answer, rx_us) == Some(
                control::round_trip_us(rx_us, t1_us, t2_us, t3_us),
            )
        }),
{
    let ping = ControlView::Ping { t1_us };
    roundtrip::law_control_datagram_round_trip(
        control::control_header(ping, 0, UNJOINED_SENDER_ID, seq),
        ping,
    );
    let r = net::routed(role, t, from, probe_bytes(seq, t1_us));
    roundtrip::law_control_datagram_round_trip(
        r->Pong_header,
        ControlView::Pong { t1_us, t2_us, t3_us },
    );
}

/// The answer to a probe shows a round trip that, with the time that the other
/// side held the probe, makes up the time from sending the one to receiving the
/// other. The probe names no session and no player.
pub proof fn law_probe_measures_the_way(
    seq: u16,
    t1_us: u64,
    t2_us: u64,
    t3_us: u64,
    rx_us: u64,
    h: Header,
    d: Seq<u8>,
)
    requires
        t1_us <= rx_us,
        t2_us <= t3_us,
        t3_us - t2_us <= rx_us - t1_us,
        packet::datagram_of(d) == Ok::<_, packet::ParseError>(
            (h, PayloadView::Control(ControlView::Pong { t1_us, t2_us, t3_us })),
        ),
    ensures
        reply_round_trip(d, rx_us) matches Some(rtt) && rtt + (t3_us - t2_us) == rx_us - t1_us,
        packet::datagram_of(probe_bytes(seq, t1_us)) matches Ok(
            (asked, PayloadView::Control(ControlView::Ping { t1_us: t })),
        ) && asked.session_id == 0 && asked.sender_id == 0xFFFF && asked.seq == seq && t == t1_us,
{
    let ping = ControlView::Ping { t1_us };
    roundtrip::law_control_datagram_round_trip(
        control::control_header(ping, 0, UNJOINED_SENDER_ID, seq),
        ping,
    );
}

/// Only a PONG is an answer to a probe.
pub proof fn law_only_pongs_answer(d: Seq<u8>, rx_us: u64)
    ensures
        reply_round_trip(d, rx_us) is Some <==> (packet::datagram_of(d) matches Ok(
            (_, PayloadView::Control(c)),
        ) && c is Pong),
{
}

} // verus!
