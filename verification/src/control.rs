//! The control plane: handshakes, keepalives, ping/RTT, liveness, roster.
//!
//! Both roles are state machines. The thread that runs one hands it each event
//! and the time, and carries out the effects it gets back, in order.
use crate::addr::SocketAddr;
use crate::bytes;
use crate::handshake;
use crate::handshake::{
    ClientAction, ClientActionView, ClientHandshake, ClientPhase, ClientView, HostAction,
    HostActionView, HostHandshake, HostView, JoinFailure, SessionParams,
};
use crate::handshake_laws;
use crate::handshake_laws::HostInput;
use crate::net::CtrlEvent;
use crate::packet;
use crate::packet::{
    accept_control_seq, clone_players, Codec, Control, ControlView, DenyReason, Header, PlayerInfo,
    PlayerView,
};
use crate::roundtrip;
use crate::seq::SeqGen;
use crate::stats;
use crate::stats::{list_client_rows, list_host_rows, Row};
use crate::{
    HOST_SENDER_ID, KEEPALIVE_MS, MAX_CLIENTS, MAX_DATAGRAM, PEER_TIMEOUT_MS, REJOIN_WINDOW_MS,
    ROOM_CODE_LEN, UNJOINED_SENDER_ID,
};
use vstd::prelude::*;

verus! {

/// How long a control thread waits for an event before it ticks.
pub const TICK_MS: u64 = 50;

pub const PING_INTERVAL_MS: u64 = 1_000;

pub const SNAPSHOT_INTERVAL_MS: u64 = 500;

/// The round trip time that a PONG shows: the time from sending the PING to
/// receiving the PONG, less the time that the peer held it.
pub open spec fn round_trip_us(rx_us: u64, t1_us: u64, t2_us: u64, t3_us: u64) -> int {
    let total = handshake::elapsed(rx_us, t1_us);
    let held = handshake::elapsed(t3_us, t2_us);
    if total < held {
        0
    } else {
        total - held
    }
}

pub fn rtt_from_pong(rx_us: u64, t1_us: u64, t2_us: u64, t3_us: u64) -> (rtt: u64)
    ensures
        rtt == round_trip_us(rx_us, t1_us, t2_us, t3_us),
{
    rx_us.saturating_sub(t1_us).saturating_sub(t3_us.saturating_sub(t2_us))
}

/// The header of a control packet.
pub open spec fn control_header(
    c: ControlView,
    session_id: u16,
    sender_id: u16,
    seq: u16,
) -> Header {
    Header { ptype: packet::control_type(c), session_id, sender_id, seq }
}

/// The datagram of a control packet.
pub open spec fn control_datagram(
    c: ControlView,
    session_id: u16,
    sender_id: u16,
    seq: u16,
) -> Seq<u8> {
    packet::header_bytes(control_header(c, session_id, sender_id, seq)) + packet::control_bytes(c)
}

/// Stamps a control packet with the next sequence number and writes it;
/// returns its length and the number.
fn stamp(
    seq: &mut SeqGen,
    control: &Control,
    session_id: u16,
    sender_id: u16,
    out: &mut [u8],
) -> (r: (usize, u16))
    requires
        roundtrip::sendable(control@),
        old(out)@.len() >= MAX_DATAGRAM,
    ensures
        r.1 == old(seq).0,
        final(seq).0 == crate::seq::ring_add(old(seq).0, 1),
        r.0 == control_datagram(control@, session_id, sender_id, old(seq).0).len(),
        r.0 <= MAX_DATAGRAM,
        final(out)@ == bytes::overwrite(
            old(out)@,
            0,
            control_datagram(control@, session_id, sender_id, old(seq).0),
        ),
{
    proof {
        roundtrip::law_control_datagrams_fit(control@);
    }
    let number: u16 = seq.next();
    let header = Header { ptype: control.packet_type(), session_id, sender_id, seq: number };
    let n: usize = control.write(&header, out);
    (n, number)
}

// ---------------------------------------------------------------------------
// Host
// ---------------------------------------------------------------------------
/// What the host's control thread has to carry out.
#[derive(Debug)]
pub enum HostEffect {
    /// Send this control packet (see [`HostControl::transmit`]).
    Send { to: SocketAddr, control: Control },
    /// Send a PING that carries the time at which it is sent.
    Ping { to: SocketAddr },
    /// A client joined: forget the stream of whoever had the slot before, make
    /// the slot audible, and tell the network threads its address. The time of
    /// the last packet is cleared, not set: it feeds the liveness check, which
    /// would take our own WELCOME as acknowledged.
    Joined { slot: usize, addr: Option<SocketAddr> },
    /// A client left: silence the slot, forget its stream and its address.
    Left { slot: usize },
    /// A new round trip time to the client in a slot.
    Rtt { slot: usize, sample_us: u64 },
    /// Rebuild the snapshot that the UI shows.
    Snapshot,
}

/// A host effect as a mathematical value.
#[verifier::ext_equal]
pub enum HostEffectView {
    Send { to: SocketAddr, control: ControlView },
    Ping { to: SocketAddr },
    Joined { slot: int, addr: Option<SocketAddr> },
    Left { slot: int },
    Rtt { slot: int, sample_us: u64 },
    Snapshot,
}

impl View for HostEffect {
    type V = HostEffectView;

    open spec fn view(&self) -> HostEffectView {
        match *self {
            HostEffect::Send { to, control } => HostEffectView::Send { to, control: control@ },
            HostEffect::Ping { to } => HostEffectView::Ping { to },
            HostEffect::Joined { slot, addr } => {
                HostEffectView::Joined { slot: slot as int, addr }
            },
            HostEffect::Left { slot } => HostEffectView::Left { slot: slot as int },
            HostEffect::Rtt { slot, sample_us } => {
                HostEffectView::Rtt { slot: slot as int, sample_us }
            },
            HostEffect::Snapshot => HostEffectView::Snapshot,
        }
    }
}

/// A list of host effects as a mathematical value.
pub open spec fn host_effects_view(effects: Seq<HostEffect>) -> Seq<HostEffectView> {
    Seq::new(effects.len(), |i: int| effects[i]@)
}

/// The host's control plane.
#[derive(Debug)]
pub struct HostControl {
    hs: HostHandshake,
    seq: SeqGen,
    names: [Option<String>; MAX_CLIENTS],
    last_ping: u64,
    last_keepalive: u64,
    last_snapshot: u64,
}

/// The state of the host's control plane.
#[verifier::ext_equal]
pub struct HostControlView {
    pub hs: HostView,
    /// The number that the next control packet gets.
    pub seq: u16,
    /// The names under which the clients joined.
    pub names: Seq<Option<Seq<char>>>,
    pub last_ping: u64,
    pub last_keepalive: u64,
    pub last_snapshot: u64,
}

impl View for HostControl {
    type V = HostControlView;

    closed spec fn view(&self) -> HostControlView {
        HostControlView {
            hs: self.hs@,
            seq: self.seq.0,
            names: stats::names_view(self.names@),
            last_ping: self.last_ping,
            last_keepalive: self.last_keepalive,
            last_snapshot: self.last_snapshot,
        }
    }
}

/// What an action of the handshake asks of the control thread.
pub open spec fn effect_of(h: HostView, a: HostActionView) -> HostEffectView {
    match a {
        HostActionView::Send { to, control } => HostEffectView::Send { to, control },
        HostActionView::ClientJoined { sender_id, .. } => HostEffectView::Joined {
            slot: sender_id - 1,
            addr: match handshake::client_of(h, sender_id) {
                None => None,
                Some(s) => Some(s.addr),
            },
        },
        HostActionView::ClientLeft { sender_id, .. } => HostEffectView::Left {
            slot: sender_id - 1,
        },
    }
}

pub open spec fn effects_of(h: HostView, actions: Seq<HostActionView>) -> Seq<HostEffectView> {
    Seq::new(actions.len(), |i: int| effect_of(h, actions[i]))
}

/// The names after an action of the handshake.
pub open spec fn name_after(names: Seq<Option<Seq<char>>>, a: HostActionView) -> Seq<
    Option<Seq<char>>,
> {
    match a {
        HostActionView::Send { .. } => names,
        HostActionView::ClientJoined { sender_id, name } => names.update(
            sender_id - 1,
            Some(name),
        ),
        HostActionView::ClientLeft { sender_id, .. } => names.update(sender_id - 1, None),
    }
}

/// The names after a list of actions.
pub open spec fn names_after(
    names: Seq<Option<Seq<char>>>,
    actions: Seq<HostActionView>,
) -> Seq<Option<Seq<char>>>
    decreases actions.len(),
{
    if actions.len() == 0 {
        names
    } else {
        name_after(names_after(names, actions.drop_last()), actions.last())
    }
}

/// The handshake after a packet of any kind from `from`.
pub open spec fn heard_from(h: HostView, from: SocketAddr, now_ms: u64) -> HostView {
    match handshake::sender_at(h, from) {
        None => h,
        Some(id) => handshake::host_heard(h, id, now_ms),
    }
}

/// The control plane after the handshake moved on to `step.0` with the actions
/// `step.1`, and the effects of those.
pub open spec fn acted(v: HostControlView, step: (HostView, Seq<HostActionView>)) -> (
    HostControlView,
    Seq<HostEffectView>,
) {
    (
        HostControlView { hs: step.0, names: names_after(v.names, step.1), ..v },
        effects_of(step.0, step.1),
    )
}

/// What a control packet does to the host's control plane, and what it has the
/// thread do. A BYE counts only if it carries our session id: a spoofed one
/// must not drop a client.
pub open spec fn host_event(
    v: HostControlView,
    from: SocketAddr,
    header: Header,
    control: ControlView,
    rx_us: u64,
    now_ms: u64,
) -> (HostControlView, Seq<HostEffectView>) {
    let h = heard_from(v.hs, from, now_ms);
    let quiet = (HostControlView { hs: h, ..v }, Seq::<HostEffectView>::empty());
    match control {
        ControlView::Hello { .. } => acted(v, handshake::host_hello(h, from, control, now_ms)),
        ControlView::Ack { acked_seq, .. } => (
            HostControlView { hs: handshake::host_acked(h, from, acked_seq, now_ms), ..v },
            Seq::empty(),
        ),
        ControlView::Pong { t1_us, t2_us, t3_us } => match handshake::sender_at(h, from) {
            None => quiet,
            Some(id) => (
                HostControlView { hs: h, ..v },
                seq![
                    HostEffectView::Rtt {
                        slot: id - 1,
                        sample_us: round_trip_us(rx_us, t1_us, t2_us, t3_us) as u64,
                    },
                ],
            ),
        },
        ControlView::Bye => {
            if header.session_id == v.hs.session_id {
                acted(v, handshake::host_bye(h, from))
            } else {
                quiet
            }
        },
        _ => quiet,
    }
}

/// The handshake after it was told, for the first `n` slots, when audio was
/// last heard.
pub open spec fn audio_heard(h: HostView, last_rx_us: Seq<u64>, n: int) -> HostView
    decreases n,
{
    if n <= 0 {
        h
    } else {
        let h1 = audio_heard(h, last_rx_us, n - 1);
        if last_rx_us[n - 1] > 0 {
            handshake::host_heard(h1, n as u16, last_rx_us[n - 1] / 1_000)
        } else {
            h1
        }
    }
}

/// A PING to each of the addresses.
pub open spec fn pings(addrs: Seq<(u16, SocketAddr)>) -> Seq<HostEffectView> {
    Seq::new(addrs.len(), |i: int| HostEffectView::Ping { to: addrs[i].1 })
}

/// The same control packet to each of the addresses.
pub open spec fn sends(addrs: Seq<(u16, SocketAddr)>, control: ControlView) -> Seq<
    HostEffectView,
> {
    Seq::new(addrs.len(), |i: int| HostEffectView::Send { to: addrs[i].1, control })
}

/// What a tick does to the host's control plane, and what it has the thread
/// do: the handshake's own tick after it was told what audio was heard, then
/// PINGs, keepalives and a snapshot as they are due.
pub open spec fn host_control_tick(v: HostControlView, now_ms: u64, last_rx_us: Seq<u64>) -> (
    HostControlView,
    Seq<HostEffectView>,
) {
    let h = audio_heard(v.hs, last_rx_us, MAX_CLIENTS as int);
    let (v1, effects) = acted(v, handshake::host_tick(h, now_ms));
    let addrs = handshake::addrs_of(v1.hs.slots, MAX_CLIENTS as int);
    let ping = handshake::elapsed(now_ms, v.last_ping) >= PING_INTERVAL_MS;
    let keepalive = handshake::elapsed(now_ms, v.last_keepalive) >= KEEPALIVE_MS;
    let snapshot = handshake::elapsed(now_ms, v.last_snapshot) >= SNAPSHOT_INTERVAL_MS;
    (
        HostControlView {
            last_ping: if ping {
                now_ms
            } else {
                v.last_ping
            },
            last_keepalive: if keepalive {
                now_ms
            } else {
                v.last_keepalive
            },
            last_snapshot: if snapshot {
                now_ms
            } else {
                v.last_snapshot
            },
            ..v1
        },
        effects + (if ping {
            pings(addrs)
        } else {
            Seq::empty()
        }) + (if keepalive {
            sends(addrs, ControlView::Keepalive)
        } else {
            Seq::empty()
        }) + (if snapshot {
            seq![HostEffectView::Snapshot]
        } else {
            Seq::empty()
        }),
    )
}

/// The farewell to everyone, `rounds` times over.
pub open spec fn farewells(addrs: Seq<(u16, SocketAddr)>, rounds: nat) -> Seq<HostEffectView>
    decreases rounds,
{
    if rounds == 0 {
        Seq::empty()
    } else {
        farewells(addrs, (rounds - 1) as nat) + sends(addrs, ControlView::Bye)
    }
}

/// The control plane after a control packet was sent: the packet number is
/// used up, and a WELCOME's number is remembered for its ACK.
pub open spec fn transmitted(v: HostControlView, control: ControlView, to: SocketAddr) -> HostControlView {
    HostControlView {
        seq: crate::seq::ring_add(v.seq, 1),
        hs: if control is Welcome {
            handshake::host_welcome_sent(v.hs, to, v.seq)
        } else {
            v.hs
        },
        ..v
    }
}

proof fn lemma_push_effect(effects: Seq<HostEffect>, e: HostEffect)
    ensures
        host_effects_view(effects.push(e)) == host_effects_view(effects).push(e@),
{
    assert(host_effects_view(effects.push(e)) =~= host_effects_view(effects).push(e@));
}

impl HostControl {
    /// The handshake is in order.
    pub open spec fn wf(self) -> bool {
        handshake_laws::host_ok(self@.hs)
    }

    pub fn new(
        room_code: [u8; ROOM_CODE_LEN],
        session_id: u16,
        params: SessionParams,
        host_name: String,
    ) -> (c: Self)
        ensures
            c.wf(),
            c@ == (HostControlView {
                hs: HostView {
                    room_code: room_code@,
                    session_id,
                    params,
                    host_name: host_name@,
                    slots: Seq::new(MAX_CLIENTS as nat, |i: int| None),
                },
                seq: 0,
                names: Seq::new(MAX_CLIENTS as nat, |i: int| None),
                last_ping: 0,
                last_keepalive: 0,
                last_snapshot: 0,
            }),
    {
        let c = HostControl {
            hs: HostHandshake::new(room_code, session_id, params, host_name),
            seq: SeqGen::new(),
            names: [None, None, None, None],
            last_ping: 0,
            last_keepalive: 0,
            last_snapshot: 0,
        };
        assert(c@.names =~= Seq::new(MAX_CLIENTS as nat, |i: int| None));
        c
    }

    /// Notes who joined and left, and turns the handshake's actions into
    /// effects.
    fn act(&mut self, actions: Vec<HostAction>, effects: &mut Vec<HostEffect>)
        requires
            handshake_laws::actions_ok(handshake::host_actions_view(actions@)),
        ensures
            final(self)@ == (HostControlView {
                names: names_after(old(self)@.names, handshake::host_actions_view(actions@)),
                ..old(self)@
            }),
            host_effects_view(final(effects)@) == host_effects_view(old(effects)@) + effects_of(
                old(self)@.hs,
                handshake::host_actions_view(actions@),
            ),
    {
        let ghost all = handshake::host_actions_view(actions@);
        let ghost before = self@;
        let ghost start = host_effects_view(effects@);
        let mut i: usize = 0;
        assert(start + effects_of(before.hs, all.take(0)) =~= start);
        while i < actions.len()
            invariant
                i <= actions@.len(),
                all == handshake::host_actions_view(actions@),
                handshake_laws::actions_ok(all),
                before == old(self)@,
                self@ == (HostControlView {
                    names: names_after(before.names, all.take(i as int)),
                    ..before
                }),
                host_effects_view(effects@) == start + effects_of(before.hs, all.take(i as int)),
            decreases actions@.len() - i,
        {
            let ghost a = all[i as int];
            let ghost prev = self@;
            assert(handshake_laws::action_ok(all[i as int]));
            let effect = match &actions[i] {
                HostAction::Send { to, control } => {
                    HostEffect::Send { to: *to, control: control.clone() }
                },
                HostAction::ClientJoined { sender_id, name } => {
                    let slot: usize = (*sender_id - 1) as usize;
                    let addr = self.hs.client_addr(*sender_id);
                    self.names[slot] = Some(name.clone());
                    HostEffect::Joined { slot, addr }
                },
                HostAction::ClientLeft { sender_id, .. } => {
                    let slot: usize = (*sender_id - 1) as usize;
                    self.names[slot] = None;
                    HostEffect::Left { slot }
                },
            };
            proof {
                assert(self@.names =~= name_after(prev.names, a));
                assert(all.take(i + 1).drop_last() =~= all.take(i as int));
                assert(effect@ == effect_of(before.hs, a));
                lemma_push_effect(effects@, effect);
                assert((start + effects_of(before.hs, all.take(i as int))).push(effect@) =~= start
                    + effects_of(before.hs, all.take(i + 1)));
            }
            effects.push(effect);
            i = i + 1;
        }
        assert(all.take(i as int) =~= all);
    }

    /// A control packet arrived.
    pub fn on_event(&mut self, ev: &CtrlEvent, now_ms: u64) -> (effects: Vec<HostEffect>)
        requires
            old(self).wf(),
        ensures
            final(self).wf(),
            final(self)@ == host_event(
                old(self)@,
                ev.from,
                ev.header,
                ev.control@,
                ev.rx_us,
                now_ms,
            ).0,
            host_effects_view(effects@) == host_event(
                old(self)@,
                ev.from,
                ev.header,
                ev.control@,
                ev.rx_us,
                now_ms,
            ).1,
    {
        let ghost before = self@;
        let ghost h = heard_from(before.hs, ev.from, now_ms);
        let mut effects: Vec<HostEffect> = Vec::new();
        if let Some(sender) = self.hs.sender_for_addr(ev.from) {
            proof {
                handshake_laws::law_host_stays_in_order(
                    before.hs,
                    HostInput::Heard { sender_id: sender, now_ms },
                );
            }
            self.hs.mark_heard(sender, now_ms);
        }
        assert(self@.hs == h);
        assert(handshake_laws::host_ok(h));
        assert(self@.names =~= before.names);
        assert(host_effects_view(effects@) =~= Seq::empty());
        match &ev.control {
            Control::Hello { .. } => {
                proof {
                    let e = HostInput::Hello { addr: ev.from, hello: ev.control@, now_ms };
                    handshake_laws::law_host_stays_in_order(h, e);
                    handshake_laws::law_host_actions_can_be_carried_out(h, e);
                }
                let actions = self.hs.on_hello(ev.from, &ev.control, now_ms);
                assert(self@.names =~= before.names);
                self.act(actions, &mut effects);
            },
            Control::Ack { acked_seq, .. } => {
                proof {
                    handshake_laws::law_host_stays_in_order(
                        h,
                        HostInput::Ack { addr: ev.from, acked_seq: *acked_seq, now_ms },
                    );
                }
                let _ = self.hs.on_ack(ev.from, *acked_seq, now_ms);
            },
            Control::Pong { t1_us, t2_us, t3_us } => {
                if let Some(sender) = self.hs.sender_for_addr(ev.from) {
                    proof {
                        handshake_laws::lemma_slot_of_addr(h.slots, ev.from, 0);
                    }
                    let sample_us: u64 = rtt_from_pong(ev.rx_us, *t1_us, *t2_us, *t3_us);
                    effects.push(HostEffect::Rtt { slot: (sender - 1) as usize, sample_us });
                }
            },
            Control::Bye => {
                if ev.header.session_id == self.hs.session_id() {
                    proof {
                        let e = HostInput::Bye { addr: ev.from };
                        handshake_laws::law_host_stays_in_order(h, e);
                        handshake_laws::law_host_actions_can_be_carried_out(h, e);
                    }
                    let actions = self.hs.on_bye(ev.from);
                    assert(self@.names =~= before.names);
                    self.act(actions, &mut effects);
                }
            },
            _ => {},
        }
        proof {
            let expected = host_event(before, ev.from, ev.header, ev.control@, ev.rx_us, now_ms);
            assert(self@.names =~= expected.0.names);
            assert(host_effects_view(effects@) =~= expected.1);
        }
        effects
    }

    /// No event for a while, or one was just handled: feed audio-path liveness
    /// into the handshake machine and do what is due. `last_rx_us` holds, for
    /// each slot, when anything last arrived from it (0 for never).
    pub fn on_tick(&mut self, now_ms: u64, last_rx_us: &[u64; MAX_CLIENTS]) -> (effects: Vec<
        HostEffect,
    >)
        requires
            old(self).wf(),
        ensures
            final(self).wf(),
            final(self)@ == host_control_tick(old(self)@, now_ms, last_rx_us@).0,
            host_effects_view(effects@) == host_control_tick(old(self)@, now_ms, last_rx_us@).1,
    {
        let ghost before = self@;
        let mut effects: Vec<HostEffect> = Vec::new();
        let mut slot: usize = 0;
        while slot < MAX_CLIENTS
            invariant
                slot <= MAX_CLIENTS,
                before == old(self)@,
                self@ == (HostControlView {
                    hs: audio_heard(before.hs, last_rx_us@, slot as int),
                    ..before
                }),
                handshake_laws::host_ok(self@.hs),
            decreases MAX_CLIENTS - slot,
        {
            let us: u64 = last_rx_us[slot];
            if us > 0 {
                let ghost prev = self@;
                proof {
                    handshake_laws::law_host_stays_in_order(
                        prev.hs,
                        HostInput::Heard { sender_id: (slot + 1) as u16, now_ms: us / 1_000 },
                    );
                }
                self.hs.mark_heard((slot + 1) as u16, us / 1_000);
                assert(self@.names =~= prev.names);
            }
            slot = slot + 1;
        }
        let ghost h = self@.hs;
        proof {
            let e = HostInput::Tick { now_ms };
            handshake_laws::law_host_stays_in_order(h, e);
            handshake_laws::law_host_actions_can_be_carried_out(h, e);
        }
        let actions = self.hs.tick(now_ms);
        assert(self@.names =~= before.names);
        self.act(actions, &mut effects);
        let ghost acted_effects = host_effects_view(effects@);
        let ghost (v1, wanted) = acted(before, handshake::host_tick(h, now_ms));
        assert(acted_effects =~= wanted);
        assert(self@ == v1);
        let addrs = self.hs.client_addrs();
        let ping = now_ms.saturating_sub(self.last_ping) >= PING_INTERVAL_MS;
        if ping {
            self.last_ping = now_ms;
            push_pings(&addrs, &mut effects);
        }
        let ghost e1 = host_effects_view(effects@);
        let keepalive = now_ms.saturating_sub(self.last_keepalive) >= KEEPALIVE_MS;
        if keepalive {
            self.last_keepalive = now_ms;
            push_sends(&addrs, &Control::Keepalive, &mut effects);
        }
        let ghost e2 = host_effects_view(effects@);
        let snapshot = now_ms.saturating_sub(self.last_snapshot) >= SNAPSHOT_INTERVAL_MS;
        if snapshot {
            self.last_snapshot = now_ms;
            proof {
                lemma_push_effect(effects@, HostEffect::Snapshot);
            }
            effects.push(HostEffect::Snapshot);
        }
        proof {
            let expected = host_control_tick(before, now_ms, last_rx_us@);
            assert(self@.names =~= expected.0.names);
            assert(host_effects_view(effects@) =~= expected.1);
        }
        effects
    }

    /// The rows of the snapshot; `active` tells which slots are audible.
    pub fn rows(&self, active: &[bool; MAX_CLIENTS]) -> (rows: Vec<Row>)
        ensures
            stats::rows_view(rows@) == stats::host_rows(
                self@.hs.host_name,
                self@.names,
                active@,
            ),
    {
        list_host_rows(self.hs.host_name(), &self.names, active)
    }

    /// Best-effort goodbye so clients drop out immediately: a BYE to everyone,
    /// `rounds` times over.
    pub fn goodbye(&self, rounds: usize) -> (effects: Vec<HostEffect>)
        ensures
            host_effects_view(effects@) == farewells(
                handshake::addrs_of(self@.hs.slots, MAX_CLIENTS as int),
                rounds as nat,
            ),
    {
        let addrs = self.hs.client_addrs();
        let mut effects: Vec<HostEffect> = Vec::new();
        let mut i: usize = 0;
        assert(host_effects_view(effects@) =~= Seq::empty());
        while i < rounds
            invariant
                i <= rounds,
                host_effects_view(effects@) == farewells(addrs@, i as nat),
            decreases rounds - i,
        {
            push_sends(&addrs, &Control::Bye, &mut effects);
            i = i + 1;
        }
        effects
    }

    /// Writes the datagram of a control packet to `to` into `out`, with the
    /// next sequence number, and returns its length.
    pub fn transmit(&mut self, control: &Control, to: SocketAddr, out: &mut [u8]) -> (n: usize)
        requires
            old(self).wf(),
            roundtrip::sendable(control@),
            old(out)@.len() >= MAX_DATAGRAM,
        ensures
            final(self).wf(),
            final(self)@ == transmitted(old(self)@, control@, to),
            n == control_datagram(
                control@,
                old(self)@.hs.session_id,
                HOST_SENDER_ID,
                old(self)@.seq,
            ).len(),
            n <= MAX_DATAGRAM,
            final(out)@ == bytes::overwrite(
                old(out)@,
                0,
                control_datagram(
                    control@,
                    old(self)@.hs.session_id,
                    HOST_SENDER_ID,
                    old(self)@.seq,
                ),
            ),
    {
        let ghost before = self@;
        let session_id: u16 = self.hs.session_id();
        let (n, number) = stamp(&mut self.seq, control, session_id, HOST_SENDER_ID, out);
        if matches!(control, Control::Welcome { .. }) {
            proof {
                handshake_laws::law_host_stays_in_order(
                    before.hs,
                    HostInput::WelcomeSent { to, seq: number },
                );
            }
            self.hs.welcome_sent(to, number);
        }
        assert(self@.names =~= before.names);
        n
    }
}

fn push_pings(addrs: &Vec<(u16, SocketAddr)>, effects: &mut Vec<HostEffect>)
    ensures
        host_effects_view(final(effects)@) == host_effects_view(old(effects)@) + pings(addrs@),
{
    let ghost start = host_effects_view(effects@);
    let mut i: usize = 0;
    assert(start + pings(addrs@.take(0)) =~= start);
    while i < addrs.len()
        invariant
            i <= addrs@.len(),
            host_effects_view(effects@) == start + pings(addrs@.take(i as int)),
        decreases addrs@.len() - i,
    {
        let e = HostEffect::Ping { to: addrs[i].1 };
        proof {
            lemma_push_effect(effects@, e);
            assert((start + pings(addrs@.take(i as int))).push(e@) =~= start + pings(
                addrs@.take(i + 1),
            ));
        }
        effects.push(e);
        i = i + 1;
    }
    assert(addrs@.take(i as int) =~= addrs@);
}

fn push_sends(addrs: &Vec<(u16, SocketAddr)>, control: &Control, effects: &mut Vec<HostEffect>)
    ensures
        host_effects_view(final(effects)@) == host_effects_view(old(effects)@) + sends(
            addrs@,
            control@,
        ),
{
    let ghost start = host_effects_view(effects@);
    let mut i: usize = 0;
    assert(start + sends(addrs@.take(0), control@) =~= start);
    while i < addrs.len()
        invariant
            i <= addrs@.len(),
            host_effects_view(effects@) == start + sends(addrs@.take(i as int), control@),
        decreases addrs@.len() - i,
    {
        let e = HostEffect::Send { to: addrs[i].1, control: control.clone() };
        proof {
            lemma_push_effect(effects@, e);
            assert((start + sends(addrs@.take(i as int), control@)).push(e@) =~= start + sends(
                addrs@.take(i + 1),
                control@,
            ));
        }
        effects.push(e);
        i = i + 1;
    }
    assert(addrs@.take(i as int) =~= addrs@);
}

// ---------------------------------------------------------------------------
// Client
// ---------------------------------------------------------------------------
/// What the client's control thread has to carry out.
#[derive(Debug)]
pub enum ClientEffect {
    /// Send this control packet to the host (see [`ClientControl::transmit`]).
    Send { control: Control, session_id: u16, sender_id: u16 },
    /// Send a PING that carries the time at which it is sent.
    Ping { session_id: u16, sender_id: u16 },
    /// Joined: forget the old stream, count the host as heard now, and let the
    /// audio path run under these ids.
    StartStream { session_id: u16, sender_id: u16 },
    /// No longer joined: stop the audio path and forget the stream.
    StopStream,
    /// A new round trip time to the host.
    Rtt { sample_us: u64 },
    /// Rebuild the snapshot that the UI shows.
    Snapshot,
}

/// A client effect as a mathematical value.
#[verifier::ext_equal]
pub enum ClientEffectView {
    Send { control: ControlView, session_id: u16, sender_id: u16 },
    Ping { session_id: u16, sender_id: u16 },
    StartStream { session_id: u16, sender_id: u16 },
    StopStream,
    Rtt { sample_us: u64 },
    Snapshot,
}

impl View for ClientEffect {
    type V = ClientEffectView;

    open spec fn view(&self) -> ClientEffectView {
        match *self {
            ClientEffect::Send { control, session_id, sender_id } => {
                ClientEffectView::Send { control: control@, session_id, sender_id }
            },
            ClientEffect::Ping { session_id, sender_id } => {
                ClientEffectView::Ping { session_id, sender_id }
            },
            ClientEffect::StartStream { session_id, sender_id } => {
                ClientEffectView::StartStream { session_id, sender_id }
            },
            ClientEffect::StopStream => ClientEffectView::StopStream,
            ClientEffect::Rtt { sample_us } => ClientEffectView::Rtt { sample_us },
            ClientEffect::Snapshot => ClientEffectView::Snapshot,
        }
    }
}

/// A list of client effects as a mathematical value.
pub open spec fn client_effects_view(effects: Seq<ClientEffect>) -> Seq<ClientEffectView> {
    Seq::new(effects.len(), |i: int| effects[i]@)
}

/// Why the client does not play as asked, for the UI.
#[derive(Debug, Clone, Copy, PartialEq, Eq, Structural)]
pub enum ClientStatus {
    /// The host ended the session.
    HostEnded,
    Denied(DenyReason),
    /// Could not reach the host.
    TimedOut,
    /// The host uses another codec or frame size than this client was started
    /// with; the audio path cannot be reconfigured, so audio would be silent.
    Mismatch { codec: Codec, frame_samples: u16 },
}

/// The client's control plane.
#[derive(Debug)]
pub struct ClientControl {
    room_code: [u8; ROOM_CODE_LEN],
    name: String,
    frame_samples: usize,
    codec: Codec,
    cs: ClientHandshake,
    seq: SeqGen,
    roster: Vec<PlayerInfo>,
    last_roster_seq: Option<u16>,
    last_ping: u64,
    last_keepalive: u64,
    last_snapshot: u64,
    rejoin_deadline: Option<u64>,
    status: Option<ClientStatus>,
    joined: bool,
    session_id: u16,
    sender_id: u16,
}

/// The state of the client's control plane.
#[verifier::ext_equal]
pub struct ClientControlView {
    pub room_code: Seq<u8>,
    pub name: Seq<char>,
    pub frame_samples: usize,
    pub codec: Codec,
    pub cs: ClientView,
    /// The number that the next control packet gets.
    pub seq: u16,
    pub roster: Seq<PlayerView>,
    pub last_roster_seq: Option<u16>,
    pub last_ping: u64,
    pub last_keepalive: u64,
    pub last_snapshot: u64,
    /// While `Some`, failed handshakes are attempted anew until the deadline
    /// passes.
    pub rejoin_deadline: Option<u64>,
    pub status: Option<ClientStatus>,
    pub joined: bool,
    pub session_id: u16,
    pub sender_id: u16,
}

impl View for ClientControl {
    type V = ClientControlView;

    closed spec fn view(&self) -> ClientControlView {
        ClientControlView {
            room_code: self.room_code@,
            name: self.name@,
            frame_samples: self.frame_samples,
            codec: self.codec,
            cs: self.cs@,
            seq: self.seq.0,
            roster: packet::players_view(self.roster@),
            last_roster_seq: self.last_roster_seq,
            last_ping: self.last_ping,
            last_keepalive: self.last_keepalive,
            last_snapshot: self.last_snapshot,
            rejoin_deadline: self.rejoin_deadline,
            status: self.status,
            joined: self.joined,
            session_id: self.session_id,
            sender_id: self.sender_id,
        }
    }
}

/// A handshake that has just sent its first HELLO.
pub open spec fn started_handshake(room_code: Seq<u8>, name: Seq<char>, now_ms: u64) -> ClientView {
    ClientView {
        phase: ClientPhase::Joining { last_tx_ms: now_ms, tries: 1 },
        hello: handshake::hello_view(room_code, name),
    }
}

/// The HELLO under the ids that the client has at the moment.
pub open spec fn hello_effect(v: ClientControlView) -> ClientEffectView {
    ClientEffectView::Send {
        control: handshake::hello_view(v.room_code, v.name),
        session_id: v.session_id,
        sender_id: v.sender_id,
    }
}

/// The control plane after it began a new handshake.
pub open spec fn rehandshaken(v: ClientControlView, now_ms: u64) -> ClientControlView {
    ClientControlView { cs: started_handshake(v.room_code, v.name, now_ms), ..v }
}

/// What an action of the handshake does to the control plane, and what it has
/// the thread do.
pub open spec fn client_action(v: ClientControlView, a: ClientActionView, now_ms: u64) -> (
    ClientControlView,
    Seq<ClientEffectView>,
) {
    match a {
        ClientActionView::Send(control) => (
            v,
            seq![
                ClientEffectView::Send {
                    control,
                    session_id: v.session_id,
                    sender_id: v.sender_id,
                },
            ],
        ),
        ClientActionView::StartAudio { sender_id, session_id, params } => (
            ClientControlView {
                status: if params.frame_samples != v.frame_samples || params.codec != v.codec {
                    Some(
                        ClientStatus::Mismatch {
                            codec: params.codec,
                            frame_samples: params.frame_samples,
                        },
                    )
                } else {
                    v.status
                },
                session_id,
                sender_id,
                joined: true,
                rejoin_deadline: Some((now_ms + REJOIN_WINDOW_MS) as u64),
                last_roster_seq: None,
                ..v
            },
            seq![ClientEffectView::StartStream { session_id, sender_id }],
        ),
        ClientActionView::RosterUpdate(players) => (
            ClientControlView { roster: players, ..v },
            Seq::empty(),
        ),
        ClientActionView::Failed(JoinFailure::Denied(reason)) => (
            ClientControlView {
                status: Some(ClientStatus::Denied(reason)),
                rejoin_deadline: None,
                ..v
            },
            Seq::empty(),
        ),
        ClientActionView::Failed(JoinFailure::Timeout) => {
            if v.rejoin_deadline matches Some(deadline) && now_ms < deadline {
                (rehandshaken(v, now_ms), seq![hello_effect(v)])
            } else {
                (
                    ClientControlView { status: Some(ClientStatus::TimedOut), ..v },
                    Seq::empty(),
                )
            }
        },
    }
}

/// The same for a list of actions, one after the other.
pub open spec fn client_actions(
    v: ClientControlView,
    actions: Seq<ClientActionView>,
    now_ms: u64,
) -> (ClientControlView, Seq<ClientEffectView>)
    decreases actions.len(),
{
    if actions.len() == 0 {
        (v, Seq::empty())
    } else {
        let (v1, effects) = client_actions(v, actions.drop_last(), now_ms);
        let (v2, more) = client_action(v1, actions.last(), now_ms);
        (v2, effects + more)
    }
}

/// What a control packet from the host does at once: the state, the effects,
/// and the handshake's actions that are still to be carried out. A WELCOME is
/// always acknowledged, as the host may be sending it again because our last
/// ACK was lost. A BYE counts only if it carries our session id.
pub open spec fn client_received(
    v: ClientControlView,
    header: Header,
    control: ControlView,
    rx_us: u64,
) -> (ClientControlView, Seq<ClientEffectView>, Seq<ClientActionView>) {
    match control {
        ControlView::Welcome { session_id, .. } => {
            let (cs, actions) = handshake::client_control(v.cs, control);
            (
                ClientControlView { cs, ..v },
                seq![
                    ClientEffectView::Send {
                        control: ControlView::Ack {
                            acked_seq: header.seq,
                            acked_type: packet::type_code(header.ptype),
                        },
                        session_id,
                        sender_id: v.sender_id,
                    },
                ],
                actions,
            )
        },
        ControlView::Roster { players } => {
            if v.last_roster_seq matches Some(last) && crate::seq::ring_diff(header.seq, last)
                <= 0 {
                (v, Seq::empty(), Seq::empty())
            } else {
                (
                    ClientControlView {
                        roster: players,
                        last_roster_seq: Some(header.seq),
                        ..v
                    },
                    Seq::empty(),
                    Seq::empty(),
                )
            }
        },
        ControlView::Deny { .. } => {
            let (cs, actions) = handshake::client_control(v.cs, control);
            (ClientControlView { cs, ..v }, Seq::empty(), actions)
        },
        ControlView::Pong { t1_us, t2_us, t3_us } => (
            v,
            seq![
                ClientEffectView::Rtt {
                    sample_us: round_trip_us(rx_us, t1_us, t2_us, t3_us) as u64,
                },
            ],
            Seq::empty(),
        ),
        ControlView::Bye => {
            if header.session_id == v.session_id {
                (
                    ClientControlView {
                        joined: false,
                        status: Some(ClientStatus::HostEnded),
                        rejoin_deadline: None,
                        ..v
                    },
                    seq![ClientEffectView::StopStream],
                    Seq::empty(),
                )
            } else {
                (v, Seq::empty(), Seq::empty())
            }
        },
        _ => (v, Seq::empty(), Seq::empty()),
    }
}

/// What the handshake's clock tick adds after `received`, and the outcome of
/// all that is then to be done.
pub open spec fn client_settled(
    received: (ClientControlView, Seq<ClientEffectView>, Seq<ClientActionView>),
    now_ms: u64,
) -> (ClientControlView, Seq<ClientEffectView>) {
    let (v, effects, actions) = received;
    let (cs, ticked) = handshake::client_tick(v.cs, now_ms);
    let (v2, more) = client_actions(
        ClientControlView { cs, ..v },
        actions + ticked,
        now_ms,
    );
    (v2, effects + more)
}

/// The liveness check: a joined client that has not heard of its host for
/// `PEER_TIMEOUT_MS` drops to rejoining.
pub open spec fn host_lost(v: ClientControlView, now_us: u64, last_rx_us: u64) -> bool {
    v.joined && handshake::elapsed(now_us, last_rx_us) > PEER_TIMEOUT_MS * 1_000
}

/// What the periodic checks do to the control plane, and what they have the
/// thread do.
pub open spec fn client_checked(v: ClientControlView, now_ms: u64, now_us: u64, last_rx_us: u64) -> (
    ClientControlView,
    Seq<ClientEffectView>,
) {
    let lost = host_lost(v, now_us, last_rx_us);
    let v1 = if lost {
        ClientControlView {
            joined: false,
            rejoin_deadline: Some((now_ms + REJOIN_WINDOW_MS) as u64),
            ..rehandshaken(v, now_ms)
        }
    } else {
        v
    };
    let ping = v1.joined && handshake::elapsed(now_ms, v.last_ping) >= PING_INTERVAL_MS;
    let keepalive = v1.joined && handshake::elapsed(now_ms, v.last_keepalive) >= KEEPALIVE_MS;
    let snapshot = handshake::elapsed(now_ms, v.last_snapshot) >= SNAPSHOT_INTERVAL_MS;
    (
        ClientControlView {
            last_ping: if ping {
                now_ms
            } else {
                v.last_ping
            },
            last_keepalive: if keepalive {
                now_ms
            } else {
                v.last_keepalive
            },
            last_snapshot: if snapshot {
                now_ms
            } else {
                v.last_snapshot
            },
            ..v1
        },
        (if lost {
            seq![ClientEffectView::StopStream, hello_effect(v)]
        } else {
            Seq::empty()
        }) + (if ping {
            seq![ClientEffectView::Ping { session_id: v.session_id, sender_id: v.sender_id }]
        } else {
            Seq::empty()
        }) + (if keepalive {
            seq![
                ClientEffectView::Send {
                    control: ControlView::Keepalive,
                    session_id: v.session_id,
                    sender_id: v.sender_id,
                },
            ]
        } else {
            Seq::empty()
        }) + (if snapshot {
            seq![ClientEffectView::Snapshot]
        } else {
            Seq::empty()
        }),
    )
}

/// The farewell of a joined client, `rounds` times over.
pub open spec fn client_farewells(v: ClientControlView, rounds: nat) -> Seq<ClientEffectView> {
    if v.joined {
        Seq::new(
            rounds,
            |i: int|
                ClientEffectView::Send {
                    control: ControlView::Bye,
                    session_id: v.session_id,
                    sender_id: v.sender_id,
                },
        )
    } else {
        Seq::empty()
    }
}

proof fn lemma_push_client_effect(effects: Seq<ClientEffect>, e: ClientEffect)
    ensures
        client_effects_view(effects.push(e)) == client_effects_view(effects).push(e@),
{
    assert(client_effects_view(effects.push(e)) =~= client_effects_view(effects).push(e@));
}

impl ClientControl {
    /// A client that is about to join: failed handshakes are attempted anew for
    /// `REJOIN_WINDOW_MS` from now on.
    pub fn new(
        room_code: [u8; ROOM_CODE_LEN],
        name: String,
        frame_samples: usize,
        codec: Codec,
        now_ms: u64,
    ) -> (c: Self)
        requires
            now_ms + REJOIN_WINDOW_MS <= u64::MAX,
        ensures
            c@ == (ClientControlView {
                room_code: room_code@,
                name: name@,
                frame_samples,
                codec,
                cs: ClientView {
                    phase: ClientPhase::Idle,
                    hello: handshake::hello_view(room_code@, name@),
                },
                seq: 0,
                roster: Seq::empty(),
                last_roster_seq: None,
                last_ping: 0,
                last_keepalive: 0,
                last_snapshot: 0,
                rejoin_deadline: Some((now_ms + REJOIN_WINDOW_MS) as u64),
                status: None,
                joined: false,
                session_id: 0,
                sender_id: UNJOINED_SENDER_ID,
            }),
    {
        let cs = ClientHandshake::new(room_code, name.clone());
        let c = ClientControl {
            room_code,
            name,
            frame_samples,
            codec,
            cs,
            seq: SeqGen::new(),
            roster: Vec::new(),
            last_roster_seq: None,
            last_ping: 0,
            last_keepalive: 0,
            last_snapshot: 0,
            rejoin_deadline: Some(now_ms + REJOIN_WINDOW_MS),
            status: None,
            joined: false,
            session_id: 0,
            sender_id: UNJOINED_SENDER_ID,
        };
        assert(c@.roster =~= Seq::empty());
        c
    }

    /// Begins a new handshake; its first HELLO is among the effects.
    fn handshake_anew(&mut self, now_ms: u64, effects: &mut Vec<ClientEffect>)
        ensures
            final(self)@ == rehandshaken(old(self)@, now_ms),
            client_effects_view(final(effects)@) == client_effects_view(old(effects)@).push(
                hello_effect(old(self)@),
            ),
    {
        self.cs = ClientHandshake::new(self.room_code, self.name.clone());
        let actions = self.cs.start(now_ms);
        let ghost hello = handshake::hello_view(self@.room_code, self@.name);
        assert(handshake::client_actions_view(actions@).len() == 1);
        assert(handshake::client_actions_view(actions@)[0] == ClientActionView::Send(hello));
        if let ClientAction::Send(c) = &actions[0] {
            let e = ClientEffect::Send {
                control: c.clone(),
                session_id: self.session_id,
                sender_id: self.sender_id,
            };
            proof {
                lemma_push_client_effect(effects@, e);
            }
            effects.push(e);
        }
    }

    /// Kicks off the first handshake.
    pub fn start(&mut self, now_ms: u64) -> (effects: Vec<ClientEffect>)
        ensures
            final(self)@ == rehandshaken(old(self)@, now_ms),
            client_effects_view(effects@) == seq![hello_effect(old(self)@)],
    {
        let mut effects: Vec<ClientEffect> = Vec::new();
        self.handshake_anew(now_ms, &mut effects);
        assert(client_effects_view(effects@) =~= seq![hello_effect(old(self)@)]);
        effects
    }

    fn act(&mut self, action: &ClientAction, now_ms: u64, effects: &mut Vec<ClientEffect>)
        requires
            now_ms + REJOIN_WINDOW_MS <= u64::MAX,
        ensures
            final(self)@ == client_action(old(self)@, action@, now_ms).0,
            client_effects_view(final(effects)@) == client_effects_view(old(effects)@)
                + client_action(old(self)@, action@, now_ms).1,
    {
        let ghost start = client_effects_view(effects@);
        match action {
            ClientAction::Send(c) => {
                effects.push(
                    ClientEffect::Send {
                        control: c.clone(),
                        session_id: self.session_id,
                        sender_id: self.sender_id,
                    },
                );
            },
            ClientAction::StartAudio { sender_id, session_id, params } => {
                if params.frame_samples as usize != self.frame_samples || params.codec
                    != self.codec {
                    self.status =
                    Some(
                        ClientStatus::Mismatch {
                            codec: params.codec,
                            frame_samples: params.frame_samples,
                        },
                    );
                }
                self.session_id = *session_id;
                self.sender_id = *sender_id;
                self.joined = true;
                // Fresh join window for any later disconnect.
                self.rejoin_deadline = Some(now_ms + REJOIN_WINDOW_MS);
                // A restarted host numbers its control packets from the start,
                // so its rosters may look older than what we saw before.
                self.last_roster_seq = None;
                effects.push(
                    ClientEffect::StartStream { session_id: *session_id, sender_id: *sender_id },
                );
            },
            ClientAction::RosterUpdate(players) => {
                self.roster = clone_players(players);
            },
            ClientAction::Failed(JoinFailure::Denied(reason)) => {
                self.status = Some(ClientStatus::Denied(*reason));
                self.rejoin_deadline = None;
            },
            ClientAction::Failed(JoinFailure::Timeout) => {
                let again = match self.rejoin_deadline {
                    Some(deadline) => now_ms < deadline,
                    None => false,
                };
                if again {
                    self.handshake_anew(now_ms, effects);
                } else {
                    self.status = Some(ClientStatus::TimedOut);
                }
            },
        }
        assert(client_effects_view(effects@) =~= start + client_action(
            old(self)@,
            action@,
            now_ms,
        ).1);
    }

    fn act_all(
        &mut self,
        actions: &Vec<ClientAction>,
        now_ms: u64,
        effects: &mut Vec<ClientEffect>,
    )
        requires
            now_ms + REJOIN_WINDOW_MS <= u64::MAX,
        ensures
            final(self)@ == client_actions(
                old(self)@,
                handshake::client_actions_view(actions@),
                now_ms,
            ).0,
            client_effects_view(final(effects)@) == client_effects_view(old(effects)@)
                + client_actions(
                old(self)@,
                handshake::client_actions_view(actions@),
                now_ms,
            ).1,
    {
        let ghost all = handshake::client_actions_view(actions@);
        let ghost before = self@;
        let ghost start = client_effects_view(effects@);
        let mut i: usize = 0;
        assert(start + client_actions(before, all.take(0), now_ms).1 =~= start);
        while i < actions.len()
            invariant
                i <= actions@.len(),
                now_ms + REJOIN_WINDOW_MS <= u64::MAX,
                all == handshake::client_actions_view(actions@),
                self@ == client_actions(before, all.take(i as int), now_ms).0,
                client_effects_view(effects@) == start + client_actions(
                    before,
                    all.take(i as int),
                    now_ms,
                ).1,
            decreases actions@.len() - i,
        {
            let ghost (v1, done) = client_actions(before, all.take(i as int), now_ms);
            let ghost more = client_action(v1, all[i as int], now_ms).1;
            assert(all.take(i + 1).drop_last() =~= all.take(i as int));
            self.act(&actions[i], now_ms, effects);
            assert(start + done + more =~= start + (done + more));
            i = i + 1;
        }
        assert(all.take(i as int) =~= all);
    }

    /// A control packet arrived from the host, or none for a while (`None`).
    pub fn on_event(&mut self, event: Option<&CtrlEvent>, now_ms: u64) -> (effects: Vec<
        ClientEffect,
    >)
        requires
            now_ms + REJOIN_WINDOW_MS <= u64::MAX,
        ensures
            ({
                let received = match event {
                    None => (old(self)@, Seq::empty(), Seq::empty()),
                    Some(ev) => client_received(old(self)@, ev.header, ev.control@, ev.rx_us),
                };
                &&& final(self)@ == client_settled(received, now_ms).0
                &&& client_effects_view(effects@) == client_settled(received, now_ms).1
            }),
    {
        let mut effects: Vec<ClientEffect> = Vec::new();
        let mut actions: Vec<ClientAction> = Vec::new();
        let ghost before = self@;
        let ghost received = match event {
            None => (before, Seq::empty(), Seq::empty()),
            Some(ev) => client_received(before, ev.header, ev.control@, ev.rx_us),
        };
        if let Some(ev) = event {
            match &ev.control {
                Control::Welcome { session_id, .. } => {
                    effects.push(
                        ClientEffect::Send {
                            control: Control::Ack {
                                acked_seq: ev.header.seq,
                                acked_type: ev.header.ptype.code(),
                            },
                            session_id: *session_id,
                            sender_id: self.sender_id,
                        },
                    );
                    actions = self.cs.on_control(&ev.control);
                },
                Control::Roster { players } => {
                    if accept_control_seq(&mut self.last_roster_seq, ev.header.seq) {
                        self.roster = clone_players(players);
                    }
                },
                Control::Deny { .. } => {
                    actions = self.cs.on_control(&ev.control);
                },
                Control::Pong { t1_us, t2_us, t3_us } => {
                    let sample_us: u64 = rtt_from_pong(ev.rx_us, *t1_us, *t2_us, *t3_us);
                    effects.push(ClientEffect::Rtt { sample_us });
                },
                Control::Bye => {
                    if ev.header.session_id == self.session_id {
                        self.joined = false;
                        self.status = Some(ClientStatus::HostEnded);
                        self.rejoin_deadline = None;
                        effects.push(ClientEffect::StopStream);
                    }
                },
                _ => {},
            }
        }
        assert(self@ == received.0);
        assert(client_effects_view(effects@) =~= received.1);
        assert(handshake::client_actions_view(actions@) =~= received.2);
        let mut ticked = self.cs.tick(now_ms);
        let ghost tick_actions = handshake::client_actions_view(ticked@);
        actions.append(&mut ticked);
        assert(handshake::client_actions_view(actions@) =~= received.2 + tick_actions);
        self.act_all(&actions, now_ms, &mut effects);
        effects
    }

    /// The periodic checks, after an event or a tick. `last_rx_us` is when
    /// anything last arrived from the host.
    pub fn on_tick(&mut self, now_ms: u64, now_us: u64, last_rx_us: u64) -> (effects: Vec<
        ClientEffect,
    >)
        requires
            now_ms + REJOIN_WINDOW_MS <= u64::MAX,
        ensures
            final(self)@ == client_checked(old(self)@, now_ms, now_us, last_rx_us).0,
            client_effects_view(effects@) == client_checked(
                old(self)@,
                now_ms,
                now_us,
                last_rx_us,
            ).1,
    {
        let mut effects: Vec<ClientEffect> = Vec::new();
        let ghost before = self@;
        // Liveness: if the host went quiet, drop to rejoining.
        if self.joined && now_us.saturating_sub(last_rx_us) > PEER_TIMEOUT_MS * 1_000 {
            self.joined = false;
            self.rejoin_deadline = Some(now_ms + REJOIN_WINDOW_MS);
            effects.push(ClientEffect::StopStream);
            self.handshake_anew(now_ms, &mut effects);
        }
        let ghost lost_effects = if host_lost(before, now_us, last_rx_us) {
            seq![ClientEffectView::StopStream, hello_effect(before)]
        } else {
            Seq::empty()
        };
        assert(client_effects_view(effects@) =~= lost_effects);
        if self.joined && now_ms.saturating_sub(self.last_ping) >= PING_INTERVAL_MS {
            self.last_ping = now_ms;
            effects.push(
                ClientEffect::Ping { session_id: self.session_id, sender_id: self.sender_id },
            );
        }
        if self.joined && now_ms.saturating_sub(self.last_keepalive) >= KEEPALIVE_MS {
            self.last_keepalive = now_ms;
            effects.push(
                ClientEffect::Send {
                    control: Control::Keepalive,
                    session_id: self.session_id,
                    sender_id: self.sender_id,
                },
            );
        }
        if now_ms.saturating_sub(self.last_snapshot) >= SNAPSHOT_INTERVAL_MS {
            self.last_snapshot = now_ms;
            effects.push(ClientEffect::Snapshot);
        }
        assert(client_effects_view(effects@) =~= client_checked(
            before,
            now_ms,
            now_us,
            last_rx_us,
        ).1);
        effects
    }

    /// A BYE to the host, `rounds` times over, if we are joined.
    pub fn goodbye(&self, rounds: usize) -> (effects: Vec<ClientEffect>)
        ensures
            client_effects_view(effects@) == client_farewells(self@, rounds as nat),
    {
        let mut effects: Vec<ClientEffect> = Vec::new();
        if self.joined {
            let mut i: usize = 0;
            while i < rounds
                invariant
                    i <= rounds,
                    self.joined,
                    client_effects_view(effects@) =~= client_farewells(self@, i as nat),
                decreases rounds - i,
            {
                let e = ClientEffect::Send {
                    control: Control::Bye,
                    session_id: self.session_id,
                    sender_id: self.sender_id,
                };
                proof {
                    lemma_push_client_effect(effects@, e);
                    assert(client_farewells(self@, i as nat).push(e@) =~= client_farewells(
                        self@,
                        (i + 1) as nat,
                    ));
                }
                effects.push(e);
                i = i + 1;
            }
        }
        assert(client_effects_view(effects@) =~= client_farewells(self@, rounds as nat));
        effects
    }

    /// Writes the datagram of a control packet to the host into `out`, with the
    /// next sequence number, and returns its length.
    pub fn transmit(
        &mut self,
        control: &Control,
        session_id: u16,
        sender_id: u16,
        out: &mut [u8],
    ) -> (n: usize)
        requires
            roundtrip::sendable(control@),
            old(out)@.len() >= MAX_DATAGRAM,
        ensures
            final(self)@ == (ClientControlView {
                seq: crate::seq::ring_add(old(self)@.seq, 1),
                ..old(self)@
            }),
            n == control_datagram(control@, session_id, sender_id, old(self)@.seq).len(),
            n <= MAX_DATAGRAM,
            final(out)@ == bytes::overwrite(
                old(out)@,
                0,
                control_datagram(control@, session_id, sender_id, old(self)@.seq),
            ),
    {
        let (n, _) = stamp(&mut self.seq, control, session_id, sender_id, out);
        n
    }

    /// The rows of the snapshot.
    pub fn rows(&self) -> (rows: Vec<Row>)
        ensures
            stats::rows_view(rows@) == stats::client_rows(self@.roster, self@.sender_id),
    {
        list_client_rows(&self.roster, self.sender_id)
    }

    pub fn is_joined(&self) -> (joined: bool)
        ensures
            joined == self@.joined,
    {
        self.joined
    }

    pub fn status(&self) -> (status: Option<ClientStatus>)
        ensures
            status == self@.status,
    {
        self.status
    }
}

} // verus!
