//! What the control threads are made to do, and when.
use crate::addr::SocketAddr;
use crate::control;
use crate::control::{
    ClientControlView, ClientEffectView, ClientStatus, HostControlView, HostEffectView,
    PING_INTERVAL_MS, SNAPSHOT_INTERVAL_MS,
};
use crate::control_laws;
use crate::handshake;
use crate::handshake::{
    ClientActionView, ClientPhase, HostActionView, HostView, JoinFailure, SlotState, SlotView,
};
use crate::handshake_laws;
use crate::handshake_laws::HostInput;
use crate::packet;
use crate::packet::{ControlView, DenyReason, Header, PayloadView};
use crate::room_laws;
use crate::roundtrip;
use crate::{
    KEEPALIVE_MS, MAX_CLIENTS, PEER_TIMEOUT_MS, PROTOCOL_VERSION, REJOIN_WINDOW_MS,
};
use vstd::prelude::*;

verus! {

// ---------------------------------------------------------------------------
// Times
// ---------------------------------------------------------------------------
/// The round trip and the time that the peer held the PING add up to the time
/// from sending it to receiving its PONG. Where the clocks show that the peer
/// held it for longer than that, or that the PONG came before the PING, the
/// round trip is nothing; where they show that it left before it came, all of
/// the time was the round trip.
pub proof fn law_round_trip_and_holding_time_add_up(rx_us: u64, t1_us: u64, t2_us: u64, t3_us: u64)
    ensures
        t1_us <= rx_us && t2_us <= t3_us && t3_us - t2_us <= rx_us - t1_us
            ==> control::round_trip_us(rx_us, t1_us, t2_us, t3_us) + (t3_us - t2_us) == rx_us
            - t1_us,
        t2_us <= t3_us && t3_us - t2_us > rx_us - t1_us ==> control::round_trip_us(
            rx_us,
            t1_us,
            t2_us,
            t3_us,
        ) == 0,
        t1_us <= rx_us && t3_us < t2_us ==> control::round_trip_us(rx_us, t1_us, t2_us, t3_us)
            == rx_us - t1_us,
        rx_us < t1_us ==> control::round_trip_us(rx_us, t1_us, t2_us, t3_us) == 0,
{
}

/// The time between two readings of a clock; none if it seems to have gone
/// backwards.
pub proof fn law_elapsed_time_is_the_difference(now: u64, then: u64)
    ensures
        then <= now ==> handshake::elapsed(now, then) + then == now,
        now < then ==> handshake::elapsed(now, then) == 0,
{
}

/// A control packet arrives as it was sent: under the ids it was sent with and
/// the number it was given, with its names cut to what fits.
pub proof fn law_control_packets_carry_their_ids(
    c: ControlView,
    session_id: u16,
    sender_id: u16,
    seq: u16,
)
    requires
        roundtrip::sendable(c),
    ensures
        packet::datagram_of(control::control_datagram(c, session_id, sender_id, seq)) matches Ok(
            (h, PayloadView::Control(got)),
        ) && h.session_id == session_id && h.sender_id == sender_id && h.seq == seq && got
            == roundtrip::delivered(c),
        control::control_datagram(c, session_id, sender_id, seq).len() <= crate::MAX_DATAGRAM,
{
    roundtrip::law_control_datagram_round_trip(
        control::control_header(c, session_id, sender_id, seq),
        c,
    );
    roundtrip::law_control_datagrams_fit(c);
    packet::lemma_header_len(control::control_header(c, session_id, sender_id, seq));
}

// ---------------------------------------------------------------------------
// Host
// ---------------------------------------------------------------------------
/// Some effect is a ROSTER to `to` that lists the room.
pub open spec fn told(effects: Seq<HostEffectView>, to: SocketAddr, h: HostView) -> bool {
    exists|k: int|
        0 <= k < effects.len() && ((#[trigger] effects[k]) matches HostEffectView::Send {
            to: t,
            control: ControlView::Roster { players },
        } && t == to && room_laws::lists_the_room(players, h))
}

proof fn lemma_told(h: HostView, actions: Seq<HostActionView>, to: SocketAddr)
    requires
        room_laws::told(actions, to, h),
    ensures
        told(control::effects_of(h, actions), to, h),
{
    let k = choose|k: int|
        0 <= k < actions.len() && room_laws::tells(#[trigger] actions[k], to, h);
    assert(control::effects_of(h, actions)[k] == control::effect_of(h, actions[k]));
}

proof fn lemma_heard_from(h: HostView, from: SocketAddr, now_ms: u64)
    requires
        handshake_laws::host_ok(h),
    ensures
        handshake_laws::host_ok(control::heard_from(h, from, now_ms)),
        forall|j: int|
            0 <= j < MAX_CLIENTS ==> #[trigger] control::heard_from(h, from, now_ms).slots[j] == (
            match h.slots[j] {
                Some(s) if s.addr == from => Some(
                    SlotView { state: SlotState::Active, last_heard_ms: now_ms, ..s },
                ),
                other => other,
            }),
{
    handshake_laws::lemma_slot_of_addr(h.slots, from, 0);
    if let Some(id) = handshake::sender_at(h, from) {
        handshake_laws::law_host_stays_in_order(h, HostInput::Heard { sender_id: id, now_ms });
        assert(handshake::taken_by(h.slots[id - 1], from));
    } else {
        assert forall|j: int| 0 <= j < MAX_CLIENTS implies #[trigger] control::heard_from(
            h,
            from,
            now_ms,
        ).slots[j] == (match h.slots[j] {
            Some(s) if s.addr == from => Some(
                SlotView { state: SlotState::Active, last_heard_ms: now_ms, ..s },
            ),
            other => other,
        }) by {
            assert(!handshake::taken_by(h.slots[j], from));
        }
    }
}

/// Whatever control packet comes from a client, other than a HELLO or a BYE, it
/// is active from then on and was heard of just now. No other slot changes, and
/// a packet from elsewhere changes none.
pub proof fn law_any_packet_keeps_its_sender_alive(
    v: HostControlView,
    from: SocketAddr,
    header: Header,
    control: ControlView,
    rx_us: u64,
    now_ms: u64,
    i: int,
)
    requires
        handshake_laws::host_ok(v.hs),
        !(control is Hello) && !(control is Bye),
        0 <= i < MAX_CLIENTS,
    ensures
        ({
            let (v2, effects) = control::host_event(v, from, header, control, rx_us, now_ms);
            &&& v2.names == v.names
            &&& v2.seq == v.seq
            &&& v2.hs.slots[i] == match v.hs.slots[i] {
                Some(s) if s.addr == from => Some(
                    SlotView { state: SlotState::Active, last_heard_ms: now_ms, ..s },
                ),
                other => other,
            }
            &&& !(control is Pong) ==> effects.len() == 0
        }),
{
    lemma_heard_from(v.hs, from, now_ms);
}

/// A PONG from the client in slot `i` gives one new round trip time for that
/// slot: with the time that the client held the PING it makes up the time from
/// sending it to receiving the PONG. A PONG from elsewhere gives none.
pub proof fn law_pong_gives_a_round_trip(
    v: HostControlView,
    from: SocketAddr,
    header: Header,
    t1_us: u64,
    t2_us: u64,
    t3_us: u64,
    rx_us: u64,
    now_ms: u64,
    i: int,
)
    requires
        handshake_laws::host_ok(v.hs),
        0 <= i < MAX_CLIENTS,
    ensures
        ({
            let pong = ControlView::Pong { t1_us, t2_us, t3_us };
            let effects = control::host_event(v, from, header, pong, rx_us, now_ms).1;
            &&& v.hs.slots[i] is Some && v.hs.slots[i]->Some_0.addr == from ==> {
                &&& effects.len() == 1
                &&& effects[0] matches HostEffectView::Rtt { slot, sample_us } && slot == i
                    && sample_us == control::round_trip_us(rx_us, t1_us, t2_us, t3_us) && (t1_us
                    <= rx_us && t2_us <= t3_us && t3_us - t2_us <= rx_us - t1_us ==> sample_us
                    + (t3_us - t2_us) == rx_us - t1_us)
            }
            &&& (forall|j: int|
                0 <= j < MAX_CLIENTS ==> ((#[trigger] v.hs.slots[j]) matches Some(s) ==> s.addr
                    != from)) ==> effects.len() == 0
        }),
{
    lemma_heard_from(v.hs, from, now_ms);
    let h = control::heard_from(v.hs, from, now_ms);
    handshake_laws::lemma_slot_of_addr(h.slots, from, 0);
    if v.hs.slots[i] is Some && v.hs.slots[i]->Some_0.addr == from {
        assert(handshake::taken_by(h.slots[i], from));
    }
    if forall|j: int|
        0 <= j < MAX_CLIENTS ==> ((#[trigger] v.hs.slots[j]) matches Some(s) ==> s.addr != from) {
        assert forall|j: int| 0 <= j < MAX_CLIENTS implies !handshake::taken_by(
            #[trigger] h.slots[j],
            from,
        ) by {
            assert(v.hs.slots[j] matches Some(s) ==> s.addr != from);
        }
    }
}

proof fn lemma_leave_names(
    names: Seq<Option<Seq<char>>>,
    h2: HostView,
    actions: Seq<HostActionView>,
    i: int,
)
    requires
        names.len() == MAX_CLIENTS,
        0 <= i < MAX_CLIENTS,
        actions.len() > 0,
        actions[0] is ClientLeft,
        actions[0]->ClientLeft_sender_id == i + 1,
        forall|k: int|
            1 <= k < actions.len() ==> room_laws::tells_someone(#[trigger] actions[k], h2, None),
    ensures
        control::names_after(names, actions) == names.update(i, None),
{
    let first = actions.take(1);
    let rest = actions.skip(1);
    let none = Seq::<HostActionView>::empty();
    assert forall|k: int| 0 <= k < rest.len() implies (#[trigger] rest[k]) is Send by {
        assert(room_laws::tells_someone(actions[k + 1], h2, None));
    }
    control_laws::lemma_sends_keep_names(names, first, rest);
    assert(first + rest =~= actions);
    assert(first.drop_last() =~= none);
    assert(control::names_after(names, none) == names);
    assert(first.last() == actions[0]);
}

/// A BYE with our session id from the client in slot `i` silences that slot and
/// forgets its name. Everyone who is still there gets a ROSTER that lists
/// exactly those who are left.
pub proof fn law_leaving_is_carried_out(
    v: HostControlView,
    from: SocketAddr,
    header: Header,
    rx_us: u64,
    now_ms: u64,
    i: int,
)
    requires
        control_laws::host_control_ok(v),
        header.session_id == v.hs.session_id,
        0 <= i < MAX_CLIENTS,
        v.hs.slots[i] is Some,
        v.hs.slots[i]->Some_0.addr == from,
    ensures
        ({
            let (v2, effects) = control::host_event(
                v,
                from,
                header,
                ControlView::Bye,
                rx_us,
                now_ms,
            );
            &&& v2.hs.slots[i] is None
            &&& forall|j: int|
                0 <= j < MAX_CLIENTS && j != i ==> #[trigger] v2.hs.slots[j] == v.hs.slots[j]
            &&& v2.names == v.names.update(i, None)
            &&& effects.len() > 0
            &&& effects[0] == (HostEffectView::Left { slot: i })
            &&& forall|j: int|
                0 <= j < MAX_CLIENTS && j != i && (#[trigger] v.hs.slots[j]) is Some ==> told(
                    effects,
                    v.hs.slots[j]->Some_0.addr,
                    v2.hs,
                )
        }),
{
    let h = control::heard_from(v.hs, from, now_ms);
    lemma_heard_from(v.hs, from, now_ms);
    room_laws::law_bye_is_told_to_the_rest(h, from, i);
    let (h2, actions) = handshake::host_bye(h, from);
    let (v2, effects) = control::host_event(v, from, header, ControlView::Bye, rx_us, now_ms);
    control_laws::law_host_control_stays_in_order(
        v,
        control_laws::HostControlInput::Event {
            from,
            header,
            control: ControlView::Bye,
            rx_us,
            now_ms,
        },
    );
    assert(v2.hs.slots[i] is None);
    lemma_leave_names(v.names, h2, actions, i);
    assert(effects[0] == control::effect_of(h2, actions[0]));
    assert forall|j: int| 0 <= j < MAX_CLIENTS && j != i implies #[trigger] v2.hs.slots[j]
        == v.hs.slots[j] by {
        assert(h.slots[j] == v.hs.slots[j]) by {
            if v.hs.slots[j] is Some {
                assert(v.hs.slots[i]->Some_0.addr != v.hs.slots[j]->Some_0.addr);
            }
        }
    }
    assert forall|j: int|
        0 <= j < MAX_CLIENTS && j != i && (#[trigger] v.hs.slots[j]) is Some implies told(
        effects,
        v.hs.slots[j]->Some_0.addr,
        v2.hs,
    ) by {
        assert(h2.slots[j] == v.hs.slots[j]);
        lemma_told(h2, actions, v.hs.slots[j]->Some_0.addr);
    }
}

proof fn lemma_join_effects(
    v: HostControlView,
    h2: HostView,
    actions: Seq<HostActionView>,
    from: SocketAddr,
    i: int,
    name: Seq<char>,
)
    requires
        v.names.len() == MAX_CLIENTS,
        0 <= i < MAX_CLIENTS,
        h2.slots[i] matches Some(s) && s.addr == from,
        actions.len() >= 2,
        room_laws::welcomes(actions[0], from, i + 1, h2),
        actions[1] == (HostActionView::ClientJoined { sender_id: (i + 1) as u16, name }),
        room_laws::everyone_is_told(actions, h2, Some(from)),
        forall|k: int|
            2 <= k < actions.len() ==> room_laws::tells_someone(
                #[trigger] actions[k],
                h2,
                Some(from),
            ),
    ensures
        ({
            let effects = control::effects_of(h2, actions);
            &&& control::names_after(v.names, actions) == v.names.update(i, Some(name))
            &&& effects.len() == actions.len()
            &&& effects[0] == control::effect_of(h2, actions[0])
            &&& effects[1] == (HostEffectView::Joined { slot: i, addr: Some(from) })
            &&& forall|j: int|
                0 <= j < MAX_CLIENTS && (#[trigger] h2.slots[j]) is Some
                    && h2.slots[j]->Some_0.addr != from ==> told(
                    effects,
                    h2.slots[j]->Some_0.addr,
                    h2,
                )
        }),
{
    let effects = control::effects_of(h2, actions);
    assert(effects[1] == control::effect_of(h2, actions[1]));
    assert(control::names_after(v.names, actions) == v.names.update(i, Some(name))) by {
        let rest = actions.skip(2);
        let none = Seq::<HostActionView>::empty();
        assert forall|k: int| 0 <= k < rest.len() implies (#[trigger] rest[k]) is Send by {
            assert(room_laws::tells_someone(actions[k + 2], h2, Some(from)));
        }
        control_laws::lemma_sends_keep_names(v.names, actions.take(2), rest);
        assert(actions.take(2) + rest =~= actions);
        assert(actions.take(2).drop_last() =~= actions.take(1));
        assert(actions.take(1).drop_last() =~= none);
        assert(control::names_after(v.names, none) == v.names);
        assert(control::names_after(v.names, actions.take(1)) == v.names);
    }
    assert forall|j: int|
        0 <= j < MAX_CLIENTS && (#[trigger] h2.slots[j]) is Some && h2.slots[j]->Some_0.addr
            != from implies told(effects, h2.slots[j]->Some_0.addr, h2) by {
        lemma_told(h2, actions, h2.slots[j]->Some_0.addr);
    }
}

/// A newcomer who knows the room code is welcomed into the lowest free slot;
/// its name is noted, the slot is made audible under its address, and everyone
/// else gets a ROSTER that lists the room with the newcomer in it.
pub proof fn law_joining_is_carried_out(
    v: HostControlView,
    from: SocketAddr,
    header: Header,
    hello: ControlView,
    rx_us: u64,
    now_ms: u64,
    i: int,
)
    requires
        control_laws::host_control_ok(v),
        hello is Hello,
        hello->proto_version == PROTOCOL_VERSION,
        hello->room_code == v.hs.room_code,
        forall|j: int|
            0 <= j < MAX_CLIENTS ==> ((#[trigger] v.hs.slots[j]) matches Some(s) ==> s.addr
                != from),
        0 <= i < MAX_CLIENTS,
        v.hs.slots[i] is None,
        forall|j: int| 0 <= j < i ==> (#[trigger] v.hs.slots[j]) is Some,
    ensures
        ({
            let (v2, effects) = control::host_event(v, from, header, hello, rx_us, now_ms);
            &&& v2.hs.slots[i] matches Some(s) && s.addr == from && s.name == hello->Hello_name
            &&& v2.names == v.names.update(i, Some(hello->Hello_name))
            &&& effects.len() >= 2
            &&& effects[0] matches HostEffectView::Send {
                to,
                control: ControlView::Welcome { assigned_id, session_id, roster, .. },
            } && to == from && assigned_id == i + 1 && session_id == v.hs.session_id
                && room_laws::lists_the_room(roster, v2.hs)
            &&& effects[1] == (HostEffectView::Joined { slot: i, addr: Some(from) })
            &&& forall|j: int|
                0 <= j < MAX_CLIENTS && (#[trigger] v.hs.slots[j]) is Some ==> told(
                    effects,
                    v.hs.slots[j]->Some_0.addr,
                    v2.hs,
                )
        }),
{
    lemma_heard_from(v.hs, from, now_ms);
    let h = control::heard_from(v.hs, from, now_ms);
    assert forall|j: int| 0 <= j < MAX_CLIENTS implies #[trigger] h.slots[j] == v.hs.slots[j] by {
        assert(v.hs.slots[j] matches Some(s) ==> s.addr != from);
    }
    assert(h.slots =~= v.hs.slots);
    assert(handshake::sender_at(v.hs, from) is None) by {
        handshake_laws::lemma_slot_of_addr(v.hs.slots, from, 0);
    }
    room_laws::law_newcomer_gets_the_lowest_free_slot(h, from, hello, now_ms, i);
    let (h2, actions) = handshake::host_hello(h, from, hello, now_ms);
    lemma_join_effects(v, h2, actions, from, i, hello->Hello_name);
    let effects = control::effects_of(h2, actions);
    assert forall|j: int| 0 <= j < MAX_CLIENTS && (#[trigger] v.hs.slots[j]) is Some implies told(
        effects,
        v.hs.slots[j]->Some_0.addr,
        h2,
    ) by {
        assert(h2.slots[j] == v.hs.slots[j]);
    }
}

/// What audio shows of the first `n` slots.
proof fn lemma_audio_heard(h: HostView, last_rx_us: Seq<u64>, n: int)
    requires
        handshake_laws::host_ok(h),
        0 <= n <= MAX_CLIENTS,
    ensures
        handshake_laws::host_ok(control::audio_heard(h, last_rx_us, n)),
        forall|i: int|
            0 <= i < MAX_CLIENTS ==> #[trigger] control::audio_heard(h, last_rx_us, n).slots[i] == (
            match h.slots[i] {
                Some(s) if i < n && last_rx_us[i] > 0 => Some(
                    SlotView {
                        state: SlotState::Active,
                        last_heard_ms: last_rx_us[i] / 1_000,
                        ..s
                    },
                ),
                other => other,
            }),
    decreases n,
{
    if n > 0 {
        lemma_audio_heard(h, last_rx_us, n - 1);
        let h1 = control::audio_heard(h, last_rx_us, n - 1);
        handshake_laws::law_host_stays_in_order(
            h1,
            HostInput::Heard { sender_id: n as u16, now_ms: last_rx_us[n - 1] / 1_000 },
        );
        assert forall|i: int| 0 <= i < MAX_CLIENTS implies #[trigger] control::audio_heard(
            h,
            last_rx_us,
            n,
        ).slots[i] == (match h.slots[i] {
            Some(s) if i < n && last_rx_us[i] > 0 => Some(
                SlotView { state: SlotState::Active, last_heard_ms: last_rx_us[i] / 1_000, ..s },
            ),
            other => other,
        }) by {
            room_laws::law_any_packet_shows_a_client_is_there(
                h1,
                n as u16,
                last_rx_us[n - 1] / 1_000,
                i,
            );
        }
    }
}

/// A tick takes audio as a sign of life: the client in a slot that audio came
/// from is active and was heard when that audio came, whatever the handshake
/// knew. The client is dropped only if that is too long ago; one that is heard
/// and has joined stays.
pub proof fn law_audio_keeps_a_client_alive(
    v: HostControlView,
    now_ms: u64,
    last_rx_us: Seq<u64>,
    i: int,
)
    requires
        handshake_laws::host_ok(v.hs),
        last_rx_us.len() == MAX_CLIENTS,
        0 <= i < MAX_CLIENTS,
        v.hs.slots[i] is Some,
        last_rx_us[i] > 0,
    ensures
        ({
            let v2 = control::host_control_tick(v, now_ms, last_rx_us).0;
            let heard_ms = last_rx_us[i] / 1_000;
            if now_ms - heard_ms > PEER_TIMEOUT_MS {
                v2.hs.slots[i] is None
            } else {
                v2.hs.slots[i] == Some(
                    SlotView {
                        state: SlotState::Active,
                        last_heard_ms: heard_ms,
                        ..v.hs.slots[i]->Some_0
                    },
                )
            }
        }),
{
    lemma_audio_heard(v.hs, last_rx_us, MAX_CLIENTS as int);
    let h = control::audio_heard(v.hs, last_rx_us, MAX_CLIENTS as int);
    assert(h.slots[i] is Some);
    room_laws::law_tick_frees_or_keeps(h, now_ms, i);
}

/// A PING or a keepalive goes to someone in the room.
pub open spec fn goes_to_someone(e: HostEffectView, h: HostView) -> bool {
    exists|j: int|
        0 <= j < MAX_CLIENTS && (#[trigger] h.slots[j]) is Some && match e {
            HostEffectView::Ping { to } => to == h.slots[j]->Some_0.addr,
            HostEffectView::Send { to, .. } => to == h.slots[j]->Some_0.addr,
            _ => false,
        }
}

/// What a tick adds to the effects of the handshake: a PING to everyone in the
/// room once `PING_INTERVAL_MS` have passed since the last ones, a keepalive to
/// everyone once `KEEPALIVE_MS` have passed, and a snapshot once
/// `SNAPSHOT_INTERVAL_MS` have passed; before that none of them. Each of the
/// three is noted as done now, or not.
pub proof fn law_everyone_is_pinged_when_due(
    v: HostControlView,
    now_ms: u64,
    last_rx_us: Seq<u64>,
)
    requires
        handshake_laws::host_ok(v.hs),
        last_rx_us.len() == MAX_CLIENTS,
    ensures
        ({
            let (v2, effects) = control::host_control_tick(v, now_ms, last_rx_us);
            let ping = now_ms - v.last_ping >= PING_INTERVAL_MS;
            let keepalive = now_ms - v.last_keepalive >= KEEPALIVE_MS;
            let snapshot = now_ms - v.last_snapshot >= SNAPSHOT_INTERVAL_MS;
            &&& v2.last_ping == if ping {
                now_ms
            } else {
                v.last_ping
            }
            &&& v2.last_keepalive == if keepalive {
                now_ms
            } else {
                v.last_keepalive
            }
            &&& v2.last_snapshot == if snapshot {
                now_ms
            } else {
                v.last_snapshot
            }
            &&& v2.seq == v.seq
            &&& forall|j: int|
                0 <= j < MAX_CLIENTS && (#[trigger] v2.hs.slots[j]) is Some ==> {
                    let to = v2.hs.slots[j]->Some_0.addr;
                    &&& ping ==> effects.contains(HostEffectView::Ping { to })
                    &&& keepalive ==> effects.contains(
                        HostEffectView::Send { to, control: ControlView::Keepalive },
                    )
                }
            &&& snapshot ==> effects.contains(HostEffectView::Snapshot)
            &&& forall|k: int|
                0 <= k < effects.len() ==> match #[trigger] effects[k] {
                    HostEffectView::Ping { .. } => ping && goes_to_someone(effects[k], v2.hs),
                    HostEffectView::Send { control: ControlView::Keepalive, .. } => keepalive
                        && goes_to_someone(effects[k], v2.hs),
                    HostEffectView::Snapshot => snapshot,
                    HostEffectView::Joined { .. } => false,
                    HostEffectView::Rtt { .. } => false,
                    _ => true,
                }
        }),
{
    lemma_audio_heard(v.hs, last_rx_us, MAX_CLIENTS as int);
    let h = control::audio_heard(v.hs, last_rx_us, MAX_CLIENTS as int);
    handshake_laws::law_host_stays_in_order(h, HostInput::Tick { now_ms });
    room_laws::law_tick_is_told_to_the_rest(h, now_ms);
    let (h2, actions) = handshake::host_tick(h, now_ms);
    let (v2, effects) = control::host_control_tick(v, now_ms, last_rx_us);
    let addrs = handshake::addrs_of(h2.slots, MAX_CLIENTS as int);
    room_laws::law_addresses_list_everyone_once(h2);
    let ping = now_ms - v.last_ping >= PING_INTERVAL_MS;
    let keepalive = now_ms - v.last_keepalive >= KEEPALIVE_MS;
    let snapshot = now_ms - v.last_snapshot >= SNAPSHOT_INTERVAL_MS;
    let none = Seq::<HostEffectView>::empty();
    let e0 = control::effects_of(h2, actions);
    let e1 = if ping {
        control::pings(addrs)
    } else {
        none
    };
    let e2 = if keepalive {
        control::sends(addrs, ControlView::Keepalive)
    } else {
        none
    };
    let e3 = if snapshot {
        seq![HostEffectView::Snapshot]
    } else {
        none
    };
    assert(effects =~= e0 + e1 + e2 + e3);
    let a = e0.len() as int;
    let b = a + e1.len();
    let c = b + e2.len();
    assert forall|j: int| 0 <= j < MAX_CLIENTS && (#[trigger] v2.hs.slots[j]) is Some implies {
        let to = v2.hs.slots[j]->Some_0.addr;
        &&& ping ==> effects.contains(HostEffectView::Ping { to })
        &&& keepalive ==> effects.contains(
            HostEffectView::Send { to, control: ControlView::Keepalive },
        )
    } by {
        let to = v2.hs.slots[j]->Some_0.addr;
        let e = ((j + 1) as u16, to);
        assert(addrs.contains(e));
        let m = choose|m: int| 0 <= m < addrs.len() && addrs[m] == e;
        if ping {
            assert(effects[a + m] == HostEffectView::Ping { to });
        }
        if keepalive {
            assert(effects[b + m] == (HostEffectView::Send { to, control: ControlView::Keepalive }));
        }
    }
    if snapshot {
        assert(effects[c] == HostEffectView::Snapshot);
    }
    assert forall|m: int| 0 <= m < addrs.len() implies h2.slots[(#[trigger] addrs[m]).0 - 1] is Some
        && h2.slots[addrs[m].0 - 1]->Some_0.addr == addrs[m].1 by {
    }
    assert forall|k: int| 0 <= k < effects.len() implies match #[trigger] effects[k] {
        HostEffectView::Ping { .. } => ping && goes_to_someone(effects[k], v2.hs),
        HostEffectView::Send { control: ControlView::Keepalive, .. } => keepalive
            && goes_to_someone(effects[k], v2.hs),
        HostEffectView::Snapshot => snapshot,
        HostEffectView::Joined { .. } => false,
        HostEffectView::Rtt { .. } => false,
        _ => true,
    } by {
        if k < a {
            assert(effects[k] == control::effect_of(h2, actions[k]));
        } else if k < b {
            assert(effects[k] == e1[k - a]);
            assert(h2.slots[addrs[k - a].0 - 1] is Some);
        } else if k < c {
            assert(effects[k] == e2[k - b]);
            assert(h2.slots[addrs[k - b].0 - 1] is Some);
        } else {
            assert(effects[k] == e3[k - c]);
        }
    }
}

/// Whoever a tick drops is silenced and its name forgotten, and everyone who is
/// still there gets a ROSTER that lists exactly those who are left. Nobody who
/// stays is silenced.
pub proof fn law_dropping_is_carried_out(
    v: HostControlView,
    now_ms: u64,
    last_rx_us: Seq<u64>,
    i: int,
)
    requires
        control_laws::host_control_ok(v),
        last_rx_us.len() == MAX_CLIENTS,
        0 <= i < MAX_CLIENTS,
        v.hs.slots[i] is Some,
    ensures
        ({
            let (v2, effects) = control::host_control_tick(v, now_ms, last_rx_us);
            &&& v2.hs.slots[i] is None <==> effects.contains(HostEffectView::Left { slot: i })
            &&& v2.hs.slots[i] is Some ==> v2.names[i] == v.names[i]
            &&& v2.hs.slots[i] is None ==> {
                &&& v2.names[i] is None
                &&& forall|j: int|
                    0 <= j < MAX_CLIENTS && (#[trigger] v2.hs.slots[j]) is Some ==> told(
                        effects,
                        v2.hs.slots[j]->Some_0.addr,
                        v2.hs,
                    )
            }
        }),
{
    lemma_audio_heard(v.hs, last_rx_us, MAX_CLIENTS as int);
    let h = control::audio_heard(v.hs, last_rx_us, MAX_CLIENTS as int);
    assert(h.slots[i] is Some);
    handshake_laws::law_host_stays_in_order(h, HostInput::Tick { now_ms });
    control_laws::law_host_control_stays_in_order(
        v,
        control_laws::HostControlInput::Tick { now_ms, last_rx_us },
    );
    room_laws::law_tick_is_told_to_the_rest(h, now_ms);
    room_laws::law_tick_frees_or_keeps(h, now_ms, i);
    let (h2, actions) = handshake::host_tick(h, now_ms);
    let (v2, effects) = control::host_control_tick(v, now_ms, last_rx_us);
    let e0 = control::effects_of(h2, actions);
    control_laws::lemma_names_after_tick(h, v.names, now_ms);
    let farewell = room_laws::farewell(h, now_ms, i);
    assert(farewell is Some <==> h2.slots[i] is None);
    assert(v2.names[i] is Some <==> v2.hs.slots[i] is Some);
    assert(e0.len() <= effects.len());
    assert forall|k: int| 0 <= k < e0.len() implies #[trigger] effects[k] == e0[k] by {}
    if h2.slots[i] is None {
        assert(actions.contains(farewell->Some_0));
        let k = choose|k: int| 0 <= k < actions.len() && actions[k] == farewell->Some_0;
        assert(e0[k] == control::effect_of(h2, actions[k]));
        assert(effects[k] == HostEffectView::Left { slot: i });
        assert forall|j: int| 0 <= j < MAX_CLIENTS && (
        #[trigger] v2.hs.slots[j]) is Some implies told(
            effects,
            v2.hs.slots[j]->Some_0.addr,
            v2.hs,
        ) by {
            let to = v2.hs.slots[j]->Some_0.addr;
            lemma_told(h2, actions, to);
            let m = choose|m: int|
                0 <= m < e0.len() && ((#[trigger] e0[m]) matches HostEffectView::Send {
                    to: t,
                    control: ControlView::Roster { players },
                } && t == to && room_laws::lists_the_room(players, h2));
            assert(effects[m] == e0[m]);
        }
    }
    if effects.contains(HostEffectView::Left { slot: i }) {
        let k = choose|k: int|
            0 <= k < effects.len() && effects[k] == (HostEffectView::Left { slot: i });
        assert(k < e0.len());
        assert(e0[k] == control::effect_of(h2, actions[k]));
        assert(actions[k] is ClientLeft);
        assert(room_laws::is_farewell(actions[k], h, now_ms, MAX_CLIENTS as int));
    }
}

/// Sending a control packet uses up its number, which the next one follows, and
/// changes nothing else, except that the number of a WELCOME is noted for the
/// client that it is sent to.
pub proof fn law_sending_uses_up_a_number(v: HostControlView, control: ControlView, to: SocketAddr)
    ensures
        ({
            let v2 = control::transmitted(v, control, to);
            &&& v2.seq == if v.seq == 0xFFFF {
                0
            } else {
                v.seq + 1
            }
            &&& v2.names == v.names
            &&& v2.last_ping == v.last_ping
            &&& v2.last_keepalive == v.last_keepalive
            &&& v2.last_snapshot == v.last_snapshot
            &&& !(control is Welcome) ==> v2.hs == v.hs
            &&& control is Welcome ==> v2.hs.slots.len() == v.hs.slots.len() && forall|i: int|
                0 <= i < v.hs.slots.len() ==> match v.hs.slots[i] {
                    Some(s) if s.addr == to && s.state is Pending => {
                        &&& (#[trigger] v2.hs.slots[i]) matches Some(s2)
                            && s2.state matches SlotState::Pending { welcome_seq, .. }
                            && welcome_seq == Some(v.seq)
                    },
                    other => v2.hs.slots[i] == other,
                }
        }),
{
}

/// The farewell goes out in as many rounds as asked: everyone in the room is in
/// each round once, in the order of their ids, and nobody is sent anything else.
pub proof fn law_farewell_reaches_everyone(h: HostView, rounds: nat, r: int, i: int)
    requires
        handshake_laws::host_ok(h),
        0 <= r < rounds,
        0 <= i < MAX_CLIENTS,
        h.slots[i] is Some,
    ensures
        ({
            let addrs = handshake::addrs_of(h.slots, MAX_CLIENTS as int);
            let effects = control::farewells(addrs, rounds);
            &&& effects.len() == rounds * addrs.len()
            &&& exists|j: int|
                0 <= j < addrs.len() && (#[trigger] addrs[j]) == (
                    (i + 1) as u16,
                    h.slots[i]->Some_0.addr,
                ) && effects[r * addrs.len() + j] == (HostEffectView::Send {
                    to: h.slots[i]->Some_0.addr,
                    control: ControlView::Bye,
                })
        }),
{
    let addrs = handshake::addrs_of(h.slots, MAX_CLIENTS as int);
    room_laws::law_addresses_list_everyone_once(h);
    let e = ((i + 1) as u16, h.slots[i]->Some_0.addr);
    assert(addrs.contains(e));
    let j = choose|j: int| 0 <= j < addrs.len() && addrs[j] == e;
    lemma_farewells(addrs, rounds, r, j);
}

proof fn lemma_farewells(addrs: Seq<(u16, SocketAddr)>, rounds: nat, r: int, j: int)
    requires
        0 <= j < addrs.len(),
    ensures
        control::farewells(addrs, rounds).len() == rounds * addrs.len(),
        0 <= r < rounds ==> control::farewells(addrs, rounds)[r * addrs.len() + j] == (
        HostEffectView::Send { to: addrs[j].1, control: ControlView::Bye }),
    decreases rounds,
{
    let n = addrs.len() as int;
    if rounds > 0 {
        let m = (rounds - 1) as nat;
        lemma_farewells(addrs, m, r, j);
        let front = control::farewells(addrs, m);
        let all = control::farewells(addrs, rounds);
        assert(rounds * n == m * n + n) by (nonlinear_arith)
            requires
                rounds == m + 1,
        ;
        if 0 <= r < m {
            assert(0 <= r * n && r * n + n <= m * n) by (nonlinear_arith)
                requires
                    0 <= r < m,
                    0 <= n,
            ;
            assert(all[r * n + j] == front[r * n + j]);
        } else if r == m {
            assert(r * n == m * n);
            assert(0 <= m * n) by (nonlinear_arith)
                requires
                    0 <= m,
                    0 <= n,
            ;
            assert(all[m * n + j] == control::sends(addrs, ControlView::Bye)[j]);
        }
    } else {
        assert(0 * n == 0) by (nonlinear_arith);
    }
}

// ---------------------------------------------------------------------------
// Client
// ---------------------------------------------------------------------------
/// To ask to join is to send a HELLO of this protocol version with the room
/// code and the name that the client was given, and to wait for the answer from
/// then on, as after the first of its tries. Nothing else changes.
pub proof fn law_asking_names_the_room(v: ClientControlView, now_ms: u64)
    ensures
        control::hello_effect(v) == (ClientEffectView::Send {
            control: ControlView::Hello {
                proto_version: PROTOCOL_VERSION,
                room_code: v.room_code,
                name: v.name,
                codec_mask: 7,
                frame_mask: 3,
            },
            session_id: v.session_id,
            sender_id: v.sender_id,
        }),
        control::rehandshaken(v, now_ms).cs.phase == (ClientPhase::Joining {
            last_tx_ms: now_ms,
            tries: 1,
        }),
        control::hello_effect(v) == (ClientEffectView::Send {
            control: control::rehandshaken(v, now_ms).cs.hello,
            session_id: v.session_id,
            sender_id: v.sender_id,
        }),
        control::rehandshaken(v, now_ms) == (ClientControlView {
            cs: control::rehandshaken(v, now_ms).cs,
            ..v
        }),
{
}

/// A client takes over a list of players only if it is newer than the last one
/// that it took over: an older one that arrives late changes nothing.
pub proof fn law_only_newer_rosters_count(
    v: ClientControlView,
    header: Header,
    control: ControlView,
    rx_us: u64,
)
    requires
        control is Roster,
    ensures
        ({
            let (v2, effects, actions) = control::client_received(v, header, control, rx_us);
            &&& effects.len() == 0 && actions.len() == 0
            &&& match v.last_roster_seq {
                Some(last) if crate::seq::ring_diff(header.seq, last) <= 0 => v2 == v,
                _ => v2 == (ClientControlView {
                    roster: control->players,
                    last_roster_seq: Some(header.seq),
                    ..v
                }),
            }
        }),
{
}

/// A PONG gives one new round trip time: with the time that the host held the
/// PING it makes up the time from sending it to receiving the PONG. Nothing
/// else comes of it.
pub proof fn law_pong_gives_the_client_a_round_trip(
    v: ClientControlView,
    header: Header,
    t1_us: u64,
    t2_us: u64,
    t3_us: u64,
    rx_us: u64,
)
    requires
        t1_us <= rx_us,
        t2_us <= t3_us,
        t3_us - t2_us <= rx_us - t1_us,
    ensures
        ({
            let pong = ControlView::Pong { t1_us, t2_us, t3_us };
            let (v2, effects, actions) = control::client_received(v, header, pong, rx_us);
            &&& v2 == v
            &&& actions.len() == 0
            &&& effects.len() == 1
            &&& effects[0] matches ClientEffectView::Rtt { sample_us } && sample_us + (t3_us
                - t2_us) == rx_us - t1_us
        }),
{
}

/// When the host ends the session, the client stops playing, says so, and does
/// not try to rejoin.
pub proof fn law_host_ends_the_session(v: ClientControlView, header: Header, rx_us: u64)
    requires
        header.session_id == v.session_id,
    ensures
        ({
            let (v2, effects, actions) = control::client_received(
                v,
                header,
                ControlView::Bye,
                rx_us,
            );
            &&& !v2.joined
            &&& v2.status == Some(ClientStatus::HostEnded)
            &&& v2.rejoin_deadline is None
            &&& v2 == (ClientControlView {
                joined: v2.joined,
                status: v2.status,
                rejoin_deadline: v2.rejoin_deadline,
                ..v
            })
            &&& effects.len() == 1 && effects[0] == ClientEffectView::StopStream
            &&& actions.len() == 0
        }),
{
}

/// What only a host or nobody needs to answer leaves a client as it is.
pub proof fn law_other_packets_are_ignored(
    v: ClientControlView,
    header: Header,
    control: ControlView,
    rx_us: u64,
)
    requires
        !(control is Welcome) && !(control is Roster) && !(control is Deny) && !(control is Pong)
            && !(control is Bye),
    ensures
        control::client_received(v, header, control, rx_us).0 == v,
        control::client_received(v, header, control, rx_us).1.len() == 0,
        control::client_received(v, header, control, rx_us).2.len() == 0,
{
}

/// A waiting client that gets its WELCOME acknowledges it and starts to play
/// under the ids that it names. It takes over the list of players, keeps the
/// right to rejoin for `REJOIN_WINDOW_MS`, and warns if the host codes its audio
/// otherwise than the client was set up for.
pub proof fn law_welcome_starts_the_stream(
    v: ClientControlView,
    header: Header,
    control: ControlView,
    rx_us: u64,
    now_ms: u64,
)
    requires
        v.cs.phase is Joining,
        control is Welcome,
        now_ms + REJOIN_WINDOW_MS <= u64::MAX,
    ensures
        ({
            let (v2, effects) = control::client_settled(
                control::client_received(v, header, control, rx_us),
                now_ms,
            );
            let agrees = control->frame_samples == v.frame_samples && control->codec == v.codec;
            &&& v2.joined
            &&& v2.session_id == control->Welcome_session_id
            &&& v2.sender_id == control->assigned_id
            &&& v2.roster == control->roster
            &&& v2.last_roster_seq is None
            &&& v2.rejoin_deadline == Some((now_ms + REJOIN_WINDOW_MS) as u64)
            &&& v2.status == if agrees {
                v.status
            } else {
                Some(
                    ClientStatus::Mismatch {
                        codec: control->codec,
                        frame_samples: control->frame_samples,
                    },
                )
            }
            &&& v2.cs.phase matches ClientPhase::Joined { sender_id, session_id, .. } && sender_id
                == control->assigned_id && session_id == control->Welcome_session_id
            &&& v2.cs.hello == v.cs.hello
            &&& v2 == (ClientControlView {
                joined: v2.joined,
                session_id: v2.session_id,
                sender_id: v2.sender_id,
                roster: v2.roster,
                last_roster_seq: v2.last_roster_seq,
                rejoin_deadline: v2.rejoin_deadline,
                status: v2.status,
                cs: v2.cs,
                ..v
            })
            &&& effects.len() == 2
            &&& effects[0] matches ClientEffectView::Send {
                control: ControlView::Ack { acked_seq, .. },
                session_id,
                ..
            } && acked_seq == header.seq && session_id == control->Welcome_session_id
            &&& effects[1] == (ClientEffectView::StartStream {
                session_id: control->Welcome_session_id,
                sender_id: control->assigned_id,
            })
        }),
{
    let (v1, e1, actions) = control::client_received(v, header, control, rx_us);
    let (cs, ticked) = handshake::client_tick(v1.cs, now_ms);
    assert(ticked.len() == 0 && cs == v1.cs);
    assert(actions + ticked =~= seq![actions[0], actions[1]]);
    control_laws::lemma_two_actions(v1, actions[0], actions[1], now_ms);
}

/// A waiting client that is refused says why, does nothing more, and does not
/// try again.
pub proof fn law_refusal_is_final(
    v: ClientControlView,
    header: Header,
    reason: DenyReason,
    rx_us: u64,
    now_ms: u64,
)
    requires
        v.cs.phase is Joining,
    ensures
        ({
            let (v2, effects) = control::client_settled(
                control::client_received(v, header, ControlView::Deny { reason }, rx_us),
                now_ms,
            );
            &&& v2.status == Some(ClientStatus::Denied(reason))
            &&& v2.rejoin_deadline is None
            &&& v2.cs.phase == ClientPhase::Failed(JoinFailure::Denied(reason))
            &&& v2 == (ClientControlView {
                status: v2.status,
                rejoin_deadline: v2.rejoin_deadline,
                cs: v2.cs,
                ..v
            })
            &&& effects.len() == 0
        }),
{
    let (v1, e1, actions) = control::client_received(
        v,
        header,
        ControlView::Deny { reason },
        rx_us,
    );
    let (cs, ticked) = handshake::client_tick(v1.cs, now_ms);
    assert(ticked.len() == 0 && cs == v1.cs);
    assert(actions + ticked =~= seq![actions[0]]);
    control_laws::lemma_one_action(v1, actions[0], now_ms);
}

/// A waiting client sends its HELLO again when `CONTROL_RETRY_MS` have passed
/// since the last, as long as it has tries left, and until then does nothing.
pub proof fn law_unanswered_hello_is_repeated(
    v: ClientControlView,
    last_tx_ms: u64,
    tries: u32,
    now_ms: u64,
)
    requires
        v.cs.phase == (ClientPhase::Joining { last_tx_ms, tries }),
        tries < crate::CONTROL_MAX_TRIES,
    ensures
        ({
            let (v2, effects) = control::client_settled((v, Seq::empty(), Seq::empty()), now_ms);
            if now_ms - last_tx_ms < crate::CONTROL_RETRY_MS {
                v2 == v && effects.len() == 0
            } else {
                &&& v2.cs.phase == (ClientPhase::Joining {
                    last_tx_ms: now_ms,
                    tries: (tries + 1) as u32,
                })
                &&& v2.cs.hello == v.cs.hello
                &&& v2 == (ClientControlView { cs: v2.cs, ..v })
                &&& effects.len() == 1
                &&& effects[0] == (ClientEffectView::Send {
                    control: v.cs.hello,
                    session_id: v.session_id,
                    sender_id: v.sender_id,
                })
            }
        }),
{
    let (cs, ticked) = handshake::client_tick(v.cs, now_ms);
    let v1 = ClientControlView { cs, ..v };
    if ticked.len() > 0 {
        assert(Seq::<ClientActionView>::empty() + ticked =~= seq![ticked[0]]);
        control_laws::lemma_one_action(v1, ticked[0], now_ms);
    } else {
        assert(Seq::<ClientActionView>::empty() + ticked =~= Seq::empty());
        assert(control::client_actions(v1, Seq::<ClientActionView>::empty(), now_ms) == (
            v1,
            Seq::<ClientEffectView>::empty(),
        ));
        assert(v1 == v);
    }
}

/// The periodic checks of a client: while it is joined and hears its host, a
/// PING once `PING_INTERVAL_MS` have passed since the last and a keepalive once
/// `KEEPALIVE_MS` have passed, under the ids that it was assigned; joined or
/// not, a snapshot once `SNAPSHOT_INTERVAL_MS` have passed. Before that none of
/// them, and nothing else.
pub proof fn law_client_checks_are_done_when_due(
    v: ClientControlView,
    now_ms: u64,
    now_us: u64,
    last_rx_us: u64,
)
    requires
        v.joined ==> now_us - last_rx_us <= PEER_TIMEOUT_MS * 1_000,
    ensures
        ({
            let (v2, effects) = control::client_checked(v, now_ms, now_us, last_rx_us);
            let ping = v.joined && now_ms - v.last_ping >= PING_INTERVAL_MS;
            let keepalive = v.joined && now_ms - v.last_keepalive >= KEEPALIVE_MS;
            let snapshot = now_ms - v.last_snapshot >= SNAPSHOT_INTERVAL_MS;
            let ids = (v.session_id, v.sender_id);
            &&& v2.last_ping == if ping {
                now_ms
            } else {
                v.last_ping
            }
            &&& v2.last_keepalive == if keepalive {
                now_ms
            } else {
                v.last_keepalive
            }
            &&& v2.last_snapshot == if snapshot {
                now_ms
            } else {
                v.last_snapshot
            }
            &&& v2 == (ClientControlView {
                last_ping: v2.last_ping,
                last_keepalive: v2.last_keepalive,
                last_snapshot: v2.last_snapshot,
                ..v
            })
            &&& ping <==> effects.contains(
                ClientEffectView::Ping { session_id: ids.0, sender_id: ids.1 },
            )
            &&& keepalive <==> effects.contains(
                ClientEffectView::Send {
                    control: ControlView::Keepalive,
                    session_id: ids.0,
                    sender_id: ids.1,
                },
            )
            &&& snapshot <==> effects.contains(ClientEffectView::Snapshot)
            &&& effects.len() == (if ping {
                1int
            } else {
                0int
            }) + (if keepalive {
                1int
            } else {
                0int
            }) + (if snapshot {
                1int
            } else {
                0int
            })
        }),
{
    let (v2, effects) = control::client_checked(v, now_ms, now_us, last_rx_us);
    let ping = v.joined && now_ms - v.last_ping >= PING_INTERVAL_MS;
    let keepalive = v.joined && now_ms - v.last_keepalive >= KEEPALIVE_MS;
    let snapshot = now_ms - v.last_snapshot >= SNAPSHOT_INTERVAL_MS;
    let p = ClientEffectView::Ping { session_id: v.session_id, sender_id: v.sender_id };
    let k = ClientEffectView::Send {
        control: ControlView::Keepalive,
        session_id: v.session_id,
        sender_id: v.sender_id,
    };
    let s = ClientEffectView::Snapshot;
    let a: int = if ping {
        1
    } else {
        0
    };
    let b: int = if keepalive {
        1
    } else {
        0
    };
    if ping {
        assert(effects[0] == p);
    }
    if keepalive {
        assert(effects[a] == k);
    }
    if snapshot {
        assert(effects[a + b] == s);
    }
}

/// A host that was last heard of more than `PEER_TIMEOUT_MS` ago is lost: the
/// client stops playing and asks to join again, under the same room and name.
pub proof fn law_lost_host_is_asked_again(
    v: ClientControlView,
    now_ms: u64,
    now_us: u64,
    last_rx_us: u64,
)
    requires
        v.joined,
        now_us - last_rx_us > PEER_TIMEOUT_MS * 1_000,
        now_ms + REJOIN_WINDOW_MS <= u64::MAX,
    ensures
        ({
            let (v2, effects) = control::client_checked(v, now_ms, now_us, last_rx_us);
            &&& !v2.joined
            &&& v2.rejoin_deadline == Some((now_ms + REJOIN_WINDOW_MS) as u64)
            &&& v2.cs.phase == (ClientPhase::Joining { last_tx_ms: now_ms, tries: 1 })
            &&& v2.last_snapshot == if now_ms - v.last_snapshot >= SNAPSHOT_INTERVAL_MS {
                now_ms
            } else {
                v.last_snapshot
            }
            &&& v2 == (ClientControlView {
                joined: v2.joined,
                rejoin_deadline: v2.rejoin_deadline,
                cs: v2.cs,
                last_snapshot: v2.last_snapshot,
                ..v
            })
            &&& effects.len() == if now_ms - v.last_snapshot >= SNAPSHOT_INTERVAL_MS {
                3int
            } else {
                2int
            }
            &&& effects[0] == ClientEffectView::StopStream
            &&& effects.len() == 3 ==> effects[2] == ClientEffectView::Snapshot
            &&& effects[1] matches ClientEffectView::Send { control, session_id, sender_id }
                && control is Hello && control->room_code == v.room_code && control->Hello_name
                == v.name && session_id == v.session_id && sender_id == v.sender_id
        }),
{
}

/// A joined client says farewell as many times as asked, under the ids that it
/// was assigned; one that is not joined has nobody to say it to.
pub proof fn law_client_says_farewell(v: ClientControlView, rounds: nat, k: int)
    requires
        0 <= k < rounds,
    ensures
        v.joined ==> control::client_farewells(v, rounds).len() == rounds
            && control::client_farewells(v, rounds)[k] == (ClientEffectView::Send {
            control: ControlView::Bye,
            session_id: v.session_id,
            sender_id: v.sender_id,
        }),
        !v.joined ==> control::client_farewells(v, rounds).len() == 0,
{
}

// ---------------------------------------------------------------------------
// What is asked a second time, or in vain
// ---------------------------------------------------------------------------
/// A client that asks again is welcomed again into the slot that it has; nobody
/// joins, and the names stay as they were noted.
pub proof fn law_asking_again_is_answered_again(
    v: HostControlView,
    from: SocketAddr,
    header: Header,
    hello: ControlView,
    rx_us: u64,
    now_ms: u64,
    i: int,
)
    requires
        control_laws::host_control_ok(v),
        hello is Hello,
        hello->proto_version == PROTOCOL_VERSION,
        hello->room_code == v.hs.room_code,
        0 <= i < MAX_CLIENTS,
        v.hs.slots[i] is Some,
        v.hs.slots[i]->Some_0.addr == from,
    ensures
        ({
            let (v2, effects) = control::host_event(v, from, header, hello, rx_us, now_ms);
            &&& v2.names == v.names
            &&& v2.hs.slots[i] matches Some(s) && s.addr == from && s.name == hello->Hello_name
                && s.state is Pending
            &&& effects.len() == 1
            &&& effects[0] matches HostEffectView::Send {
                to,
                control: ControlView::Welcome { assigned_id, session_id, .. },
            } && to == from && assigned_id == i + 1 && session_id == v.hs.session_id
        }),
{
    let h = control::heard_from(v.hs, from, now_ms);
    lemma_heard_from(v.hs, from, now_ms);
    assert(h.slots[i] is Some);
    room_laws::law_known_client_is_welcomed_again(h, from, hello, now_ms, i);
    let (h2, actions) = handshake::host_hello(h, from, hello, now_ms);
    assert(control::effects_of(h2, actions)[0] == control::effect_of(h2, actions[0]));
    lemma_one_send_keeps_names(v.names, actions);
}

proof fn lemma_one_send_keeps_names(names: Seq<Option<Seq<char>>>, actions: Seq<HostActionView>)
    requires
        actions.len() == 1,
        actions[0] is Send,
    ensures
        control::names_after(names, actions) == names,
{
    let none = Seq::<HostActionView>::empty();
    assert(actions.drop_last() =~= none);
    assert(control::names_after(names, none) == names);
}

/// A HELLO that is refused is answered with one DENY to its sender and nothing
/// else: for the wrong version, else for the wrong room code, else because the
/// room is full of others. Nobody joins.
pub proof fn law_refusing_is_carried_out(
    v: HostControlView,
    from: SocketAddr,
    header: Header,
    hello: ControlView,
    rx_us: u64,
    now_ms: u64,
    j: int,
)
    requires
        control_laws::host_control_ok(v),
        hello is Hello,
        0 <= j < MAX_CLIENTS,
        hello->proto_version != PROTOCOL_VERSION || hello->room_code != v.hs.room_code || forall|
            i: int,
        |
            0 <= i < MAX_CLIENTS ==> ((#[trigger] v.hs.slots[i]) matches Some(s) && s.addr != from),
    ensures
        ({
            let (v2, effects) = control::host_event(v, from, header, hello, rx_us, now_ms);
            let reason = if hello->proto_version != PROTOCOL_VERSION {
                DenyReason::VersionMismatch
            } else if hello->room_code != v.hs.room_code {
                DenyReason::BadRoomCode
            } else {
                DenyReason::RoomFull
            };
            &&& v2.names == v.names
            &&& v2.hs.slots[j] is Some <==> v.hs.slots[j] is Some
            &&& effects.len() == 1
            &&& effects[0] == (HostEffectView::Send {
                to: from,
                control: ControlView::Deny { reason },
            })
        }),
{
    let h = control::heard_from(v.hs, from, now_ms);
    lemma_heard_from(v.hs, from, now_ms);
    handshake_laws::law_refused_hello_changes_nothing(h, from, hello, now_ms);
    assert(h.slots[j] is Some <==> v.hs.slots[j] is Some);
    if hello->proto_version == PROTOCOL_VERSION && hello->room_code == v.hs.room_code {
        assert forall|i: int| 0 <= i < MAX_CLIENTS implies ((
        #[trigger] h.slots[i]) matches Some(s) && s.addr != from) by {
            assert(v.hs.slots[i] matches Some(s) && s.addr != from);
        }
    }
    let (h2, actions) = handshake::host_hello(h, from, hello, now_ms);
    assert(actions.len() == 1);
    assert(control::effects_of(h2, actions)[0] == control::effect_of(h2, actions[0]));
    lemma_one_send_keeps_names(v.names, actions);
}

/// What is no HELLO does not open the door.
pub proof fn law_only_a_hello_asks_to_join(
    h: HostView,
    addr: SocketAddr,
    control: ControlView,
    now_ms: u64,
)
    requires
        !(control is Hello),
    ensures
        handshake::host_hello(h, addr, control, now_ms).0 == h,
        handshake::host_hello(h, addr, control, now_ms).1.len() == 0,
{
}

/// A BYE from someone who is not in the room changes nothing, whatever session
/// it names.
pub proof fn law_nobody_leaves_for_a_stranger(
    v: HostControlView,
    from: SocketAddr,
    header: Header,
    rx_us: u64,
    now_ms: u64,
)
    requires
        control_laws::host_control_ok(v),
        forall|i: int|
            0 <= i < MAX_CLIENTS ==> ((#[trigger] v.hs.slots[i]) matches Some(s) ==> s.addr
                != from),
    ensures
        control::host_event(v, from, header, ControlView::Bye, rx_us, now_ms).0 == v,
        control::host_event(v, from, header, ControlView::Bye, rx_us, now_ms).1.len() == 0,
{
    let h = control::heard_from(v.hs, from, now_ms);
    assert(handshake::sender_at(v.hs, from) is None) by {
        handshake_laws::lemma_slot_of_addr(v.hs.slots, from, 0);
    }
    assert(h == v.hs);
    room_laws::law_bye_of_a_stranger_is_ignored(h, from);
    assert(control::names_after(v.names, Seq::<HostActionView>::empty()) == v.names);
    assert(handshake::host_bye(h, from).1 =~= Seq::<HostActionView>::empty());
}

/// A client that does not wait for an answer acknowledges another WELCOME, so
/// that the host stops sending it, and does nothing else; a DENY does nothing to
/// it.
pub proof fn law_settled_client_only_acknowledges(
    v: ClientControlView,
    header: Header,
    control: ControlView,
    rx_us: u64,
    now_ms: u64,
)
    requires
        !(v.cs.phase is Joining),
        control is Welcome || control is Deny,
    ensures
        ({
            let (v2, effects) = control::client_settled(
                control::client_received(v, header, control, rx_us),
                now_ms,
            );
            &&& v2 == v
            &&& control is Deny ==> effects.len() == 0
            &&& control is Welcome ==> effects.len() == 1 && effects[0] == (ClientEffectView::Send {
                control: ControlView::Ack { acked_seq: header.seq, acked_type: packet::type_code(
                    header.ptype,
                ) },
                session_id: control->Welcome_session_id,
                sender_id: v.sender_id,
            })
        }),
{
    let (v1, e1, actions) = control::client_received(v, header, control, rx_us);
    let (cs, ticked) = handshake::client_tick(v1.cs, now_ms);
    let none = Seq::<ClientActionView>::empty();
    assert(actions + ticked =~= none);
    assert(control::client_actions(v1, none, now_ms) == (v1, Seq::<ClientEffectView>::empty()));
    assert(e1 + Seq::<ClientEffectView>::empty() =~= e1);
}

/// Nothing is done twice at a tick: no two of its effects are the same.
pub proof fn law_a_tick_does_nothing_twice(
    v: HostControlView,
    now_ms: u64,
    last_rx_us: Seq<u64>,
    k: int,
    l: int,
)
    requires
        handshake_laws::host_ok(v.hs),
        last_rx_us.len() == MAX_CLIENTS,
        0 <= k < l < control::host_control_tick(v, now_ms, last_rx_us).1.len(),
    ensures
        ({
            let effects = control::host_control_tick(v, now_ms, last_rx_us).1;
            effects[k] != effects[l]
        }),
{
    lemma_audio_heard(v.hs, last_rx_us, MAX_CLIENTS as int);
    let h = control::audio_heard(v.hs, last_rx_us, MAX_CLIENTS as int);
    handshake_laws::law_host_stays_in_order(h, HostInput::Tick { now_ms });
    room_laws::law_tick_is_told_to_the_rest(h, now_ms);
    let (h2, actions) = handshake::host_tick(h, now_ms);
    let effects = control::host_control_tick(v, now_ms, last_rx_us).1;
    let addrs = handshake::addrs_of(h2.slots, MAX_CLIENTS as int);
    room_laws::law_addresses_list_everyone_once(h2);
    let none = Seq::<HostEffectView>::empty();
    let e0 = control::effects_of(h2, actions);
    let e1 = if now_ms - v.last_ping >= PING_INTERVAL_MS {
        control::pings(addrs)
    } else {
        none
    };
    let e2 = if now_ms - v.last_keepalive >= KEEPALIVE_MS {
        control::sends(addrs, ControlView::Keepalive)
    } else {
        none
    };
    let e3 = if now_ms - v.last_snapshot >= SNAPSHOT_INTERVAL_MS {
        seq![HostEffectView::Snapshot]
    } else {
        none
    };
    assert(effects =~= e0 + e1 + e2 + e3);
    assert forall|m: int, n: int| 0 <= m < n < addrs.len() implies (#[trigger] addrs[m]).1 != (
    #[trigger] addrs[n]).1 by {
        assert(addrs[m].0 < addrs[n].0);
        assert(h2.slots[addrs[m].0 - 1] is Some && h2.slots[addrs[n].0 - 1] is Some);
    }
    assert forall|m: int, n: int| 0 <= m < n < e0.len() implies #[trigger] e0[m]
        != #[trigger] e0[n] by {
        lemma_effects_differ(h, h2, now_ms, actions, m, n);
    }
    assert forall|m: int| 0 <= m < e0.len() implies match #[trigger] e0[m] {
        HostEffectView::Send { control, .. } => !(control is Keepalive),
        HostEffectView::Left { .. } => true,
        _ => false,
    } by {
        assert(e0[m] == control::effect_of(h2, actions[m]));
    }
    lemma_parts_differ(e0, e1, e2, e3, addrs, k, l);
}

proof fn lemma_effects_differ(
    h: HostView,
    h2: HostView,
    now_ms: u64,
    actions: Seq<HostActionView>,
    m: int,
    n: int,
)
    requires
        0 <= m < n < actions.len(),
        actions[m] != actions[n],
        forall|k: int|
            0 <= k < actions.len() ==> {
                ||| room_laws::is_farewell(#[trigger] actions[k], h, now_ms, MAX_CLIENTS as int)
                ||| actions[k] is Send
            },
    ensures
        control::effects_of(h2, actions)[m] != control::effects_of(h2, actions)[n],
{
    assert(actions[m] is Send || room_laws::is_farewell(
        actions[m],
        h,
        now_ms,
        MAX_CLIENTS as int,
    ));
    assert(actions[n] is Send || room_laws::is_farewell(
        actions[n],
        h,
        now_ms,
        MAX_CLIENTS as int,
    ));
}

proof fn lemma_parts_differ(
    e0: Seq<HostEffectView>,
    e1: Seq<HostEffectView>,
    e2: Seq<HostEffectView>,
    e3: Seq<HostEffectView>,
    addrs: Seq<(u16, SocketAddr)>,
    k: int,
    l: int,
)
    requires
        forall|m: int, n: int|
            0 <= m < n < addrs.len() ==> (#[trigger] addrs[m]).1 != (#[trigger] addrs[n]).1,
        forall|m: int, n: int|
            0 <= m < n < e0.len() ==> #[trigger] e0[m] != #[trigger] e0[n],
        forall|m: int|
            0 <= m < e0.len() ==> match #[trigger] e0[m] {
                HostEffectView::Send { control, .. } => !(control is Keepalive),
                HostEffectView::Left { .. } => true,
                _ => false,
            },
        e1.len() == 0 || e1 == control::pings(addrs),
        e2.len() == 0 || e2 == control::sends(addrs, ControlView::Keepalive),
        e3.len() == 0 || e3 == seq![HostEffectView::Snapshot],
        0 <= k < l < (e0 + e1 + e2 + e3).len(),
    ensures
        (e0 + e1 + e2 + e3)[k] != (e0 + e1 + e2 + e3)[l],
{
    let all = e0 + e1 + e2 + e3;
    let a = e0.len() as int;
    let b = a + e1.len();
    let c = b + e2.len();
    if l < a {
        assert(all[k] == e0[k] && all[l] == e0[l]);
    } else if l < b {
        assert(all[l] == e1[l - a]);
        if k < a {
            assert(all[k] == e0[k]);
        } else {
            assert(all[k] == e1[k - a]);
            assert(addrs[k - a].1 != addrs[l - a].1);
        }
    } else if l < c {
        assert(all[l] == e2[l - b]);
        if k < a {
            assert(all[k] == e0[k]);
        } else if k < b {
            assert(all[k] == e1[k - a]);
        } else {
            assert(all[k] == e2[k - b]);
            assert(addrs[k - b].1 != addrs[l - b].1);
        }
    } else {
        assert(all[l] == e3[l - c]);
        if k < a {
            assert(all[k] == e0[k]);
        } else if k < b {
            assert(all[k] == e1[k - a]);
        } else {
            assert(all[k] == e2[k - b]);
        }
    }
}

/// A client that does not wait for an answer does nothing on its own account.
pub proof fn law_settled_client_rests(
    v: ClientControlView,
    effects: Seq<ClientEffectView>,
    now_ms: u64,
)
    requires
        !(v.cs.phase is Joining),
    ensures
        control::client_settled((v, effects, Seq::empty()), now_ms) == (v, effects),
{
    let none = Seq::<ClientActionView>::empty();
    let (cs, ticked) = handshake::client_tick(v.cs, now_ms);
    assert(none + ticked =~= none);
    assert(control::client_actions(v, none, now_ms) == (v, Seq::<ClientEffectView>::empty()));
    assert(effects + Seq::<ClientEffectView>::empty() =~= effects);
}

/// What a packet had done at once is done before what the time asks for, and
/// does not change that.
pub proof fn law_packets_come_before_ticks(
    v: ClientControlView,
    effects: Seq<ClientEffectView>,
    now_ms: u64,
)
    ensures
        ({
            let alone = control::client_settled((v, Seq::empty(), Seq::empty()), now_ms);
            let both = control::client_settled((v, effects, Seq::empty()), now_ms);
            &&& both.0 == alone.0
            &&& both.1 == effects + alone.1
        }),
{
    let none = Seq::<ClientEffectView>::empty();
    let (cs, ticked) = handshake::client_tick(v.cs, now_ms);
    let more = control::client_actions(
        ClientControlView { cs, ..v },
        Seq::<ClientActionView>::empty() + ticked,
        now_ms,
    ).1;
    assert(none + more =~= more);
}

/// Whatever packet comes in, what is next due and the next number stay as they
/// were, and so does what the room was opened with.
pub proof fn law_packets_leave_the_schedule(
    v: HostControlView,
    from: SocketAddr,
    header: Header,
    control: ControlView,
    rx_us: u64,
    now_ms: u64,
)
    requires
        handshake_laws::host_ok(v.hs),
    ensures
        ({
            let v2 = control::host_event(v, from, header, control, rx_us, now_ms).0;
            &&& v2 == (HostControlView { hs: v2.hs, names: v2.names, ..v })
            &&& v2.hs == (HostView { slots: v2.hs.slots, ..v.hs })
        }),
{
    let h = control::heard_from(v.hs, from, now_ms);
    lemma_heard_from(v.hs, from, now_ms);
    match control {
        ControlView::Hello { .. } => {
            handshake_laws::law_host_stays_in_order(
                h,
                HostInput::Hello { addr: from, hello: control, now_ms },
            );
        },
        ControlView::Bye => {
            handshake_laws::law_host_stays_in_order(h, HostInput::Bye { addr: from });
        },
        _ => {},
    }
}

} // verus!
