//! What holds of the control plane whatever happens.
use crate::addr::SocketAddr;
use crate::control;
use crate::control::{
    ClientControlView, ClientEffectView, ClientStatus, HostControlView, HostEffectView,
};
use crate::handshake;
use crate::handshake::{
    ClientActionView, ClientPhase, HostActionView, HostView, JoinFailure, SlotView,
};
use crate::handshake_laws;
use crate::handshake_laws::HostInput;
use crate::packet::{ControlView, Header};
use crate::roundtrip;
use crate::{
    CONTROL_MAX_TRIES, CONTROL_RETRY_MS, MAX_CLIENTS, PEER_TIMEOUT_MS, REJOIN_WINDOW_MS,
    ROOM_CODE_LEN,
};
use vstd::prelude::*;

verus! {

// ---------------------------------------------------------------------------
// Host
// ---------------------------------------------------------------------------
/// Everything that can happen to the host's control plane.
pub enum HostControlInput {
    Event { from: SocketAddr, header: Header, control: ControlView, rx_us: u64, now_ms: u64 },
    Tick { now_ms: u64, last_rx_us: Seq<u64> },
    Transmit { control: ControlView, to: SocketAddr },
}

/// What an input does to the host's control plane and has its thread do.
pub open spec fn host_control_step(v: HostControlView, e: HostControlInput) -> (
    HostControlView,
    Seq<HostEffectView>,
) {
    match e {
        HostControlInput::Event { from, header, control, rx_us, now_ms } => control::host_event(
            v,
            from,
            header,
            control,
            rx_us,
            now_ms,
        ),
        HostControlInput::Tick { now_ms, last_rx_us } => control::host_control_tick(
            v,
            now_ms,
            last_rx_us,
        ),
        HostControlInput::Transmit { control, to } => (
            control::transmitted(v, control, to),
            Seq::empty(),
        ),
    }
}

/// A name is noted for exactly the slots that are taken.
pub open spec fn names_match(h: HostView, names: Seq<Option<Seq<char>>>) -> bool {
    &&& names.len() == MAX_CLIENTS
    &&& forall|i: int|
        0 <= i < MAX_CLIENTS ==> ((#[trigger] names[i]) is Some <==> h.slots[i] is Some)
}

/// The handshake is in order, and a name is noted for exactly the slots that
/// are taken.
pub open spec fn host_control_ok(v: HostControlView) -> bool {
    handshake_laws::host_ok(v.hs) && names_match(v.hs, v.names)
}

/// An effect that can be carried out: a packet that can be read back, a slot
/// that exists.
pub open spec fn effect_ok(e: HostEffectView) -> bool {
    match e {
        HostEffectView::Send { control, .. } => roundtrip::sendable(control),
        HostEffectView::Joined { slot, addr } => 0 <= slot < MAX_CLIENTS && addr is Some,
        HostEffectView::Left { slot } => 0 <= slot < MAX_CLIENTS,
        HostEffectView::Rtt { slot, .. } => 0 <= slot < MAX_CLIENTS,
        _ => true,
    }
}

pub open spec fn effects_ok(effects: Seq<HostEffectView>) -> bool {
    forall|i: int| 0 <= i < effects.len() ==> effect_ok(#[trigger] effects[i])
}

/// Sends leave the names alone.
pub proof fn lemma_sends_keep_names(
    names: Seq<Option<Seq<char>>>,
    front: Seq<HostActionView>,
    sends: Seq<HostActionView>,
)
    requires
        forall|i: int| 0 <= i < sends.len() ==> (#[trigger] sends[i]) is Send,
    ensures
        control::names_after(names, front + sends) == control::names_after(names, front),
    decreases sends.len(),
{
    if sends.len() == 0 {
        assert(front + sends =~= front);
    } else {
        lemma_sends_keep_names(names, front, sends.drop_last());
        assert((front + sends).drop_last() =~= front + sends.drop_last());
        assert((front + sends).last() == sends[sends.len() - 1]);
    }
}

proof fn lemma_roster_sends_are_sends(h: HostView, except: Option<SocketAddr>, n: int)
    ensures
        forall|i: int|
            0 <= i < handshake::roster_sends(h, except, n).len() ==> (
            #[trigger] handshake::roster_sends(h, except, n)[i]) is Send,
    decreases n,
{
    if n > 0 {
        lemma_roster_sends_are_sends(h, except, n - 1);
    }
}

proof fn lemma_resends_are_sends(
    slots: Seq<Option<SlotView>>,
    h2: HostView,
    now_ms: u64,
    n: int,
)
    ensures
        forall|i: int|
            0 <= i < handshake::tick_resends(slots, h2, now_ms, n).len() ==> (
            #[trigger] handshake::tick_resends(slots, h2, now_ms, n)[i]) is Send,
    decreases n,
{
    if n > 0 {
        lemma_resends_are_sends(slots, h2, now_ms, n - 1);
    }
}

proof fn lemma_names_after_byes(
    names: Seq<Option<Seq<char>>>,
    slots: Seq<Option<SlotView>>,
    addr: SocketAddr,
    n: int,
)
    requires
        0 <= n <= MAX_CLIENTS,
        names.len() == MAX_CLIENTS,
        slots.len() == MAX_CLIENTS,
    ensures
        ({
            let after = control::names_after(names, handshake::byes(slots, addr, n));
            &&& after.len() == MAX_CLIENTS
            &&& forall|i: int|
                0 <= i < MAX_CLIENTS ==> #[trigger] after[i] == if i < n && handshake::taken_by(
                    slots[i],
                    addr,
                ) {
                    None
                } else {
                    names[i]
                }
        }),
    decreases n,
{
    if n > 0 {
        lemma_names_after_byes(names, slots, addr, n - 1);
        let front = handshake::byes(slots, addr, n - 1);
        if handshake::taken_by(slots[n - 1], addr) {
            let all = handshake::byes(slots, addr, n);
            assert(all.drop_last() =~= front);
        }
    }
}

proof fn lemma_names_after_drops(
    names: Seq<Option<Seq<char>>>,
    slots: Seq<Option<SlotView>>,
    now_ms: u64,
    n: int,
)
    requires
        0 <= n <= MAX_CLIENTS,
        names.len() == MAX_CLIENTS,
        slots.len() == MAX_CLIENTS,
    ensures
        ({
            let after = control::names_after(names, handshake::tick_drops(slots, now_ms, n));
            &&& after.len() == MAX_CLIENTS
            &&& forall|i: int|
                0 <= i < MAX_CLIENTS ==> #[trigger] after[i] == if i < n && slots[i] is Some
                    && handshake::slot_ticked(slots[i], now_ms) is None {
                    None
                } else {
                    names[i]
                }
        }),
    decreases n,
{
    if n > 0 {
        lemma_names_after_drops(names, slots, now_ms, n - 1);
        let front = handshake::tick_drops(slots, now_ms, n - 1);
        let all = handshake::tick_drops(slots, now_ms, n);
        if all != front {
            assert(all.drop_last() =~= front);
        }
    }
}

proof fn lemma_hello_keeps_names_match(
    h: HostView,
    names: Seq<Option<Seq<char>>>,
    addr: SocketAddr,
    hello: ControlView,
    now_ms: u64,
)
    requires
        handshake_laws::host_ok(h),
        names_match(h, names),
    ensures
        ({
            let (h2, actions) = handshake::host_hello(h, addr, hello, now_ms);
            names_match(h2, control::names_after(names, actions))
        }),
{
    let (h2, actions) = handshake::host_hello(h, addr, hello, now_ms);
    handshake_laws::lemma_slot_of_addr(h.slots, addr, 0);
    handshake_laws::lemma_free_slot(h.slots, 0);
    let none = Seq::<HostActionView>::empty();
    assert(control::names_after(names, none) == names);
    if h2 == h || actions.len() <= 1 {
        assert(none + actions =~= actions);
        if actions.len() > 0 {
            assert(actions.drop_last() =~= none);
        }
    } else {
        let i = handshake::free_slot(h.slots, 0)->Some_0;
        let sends = handshake::roster_sends(h2, Some(addr), MAX_CLIENTS as int);
        let front = actions.take(2);
        assert(actions =~= front + sends);
        lemma_roster_sends_are_sends(h2, Some(addr), MAX_CLIENTS as int);
        lemma_sends_keep_names(names, front, sends);
        assert(front.drop_last() =~= actions.take(1));
        assert(actions.take(1).drop_last() =~= none);
        assert(control::names_after(names, actions.take(1)) == names);
        assert(control::names_after(names, front) == names.update(
            i,
            Some(hello->Hello_name),
        ));
    }
}

proof fn lemma_bye_keeps_names_match(
    h: HostView,
    names: Seq<Option<Seq<char>>>,
    addr: SocketAddr,
)
    requires
        handshake_laws::host_ok(h),
        names_match(h, names),
    ensures
        ({
            let (h2, actions) = handshake::host_bye(h, addr);
            names_match(h2, control::names_after(names, actions))
        }),
{
    let (h2, actions) = handshake::host_bye(h, addr);
    let left = handshake::byes(h.slots, addr, MAX_CLIENTS as int);
    let sends = handshake::roster_sends(h2, None, MAX_CLIENTS as int);
    lemma_names_after_byes(names, h.slots, addr, MAX_CLIENTS as int);
    lemma_roster_sends_are_sends(h2, None, MAX_CLIENTS as int);
    lemma_sends_keep_names(names, left, sends);
}

proof fn lemma_tick_keeps_names_match(h: HostView, names: Seq<Option<Seq<char>>>, now_ms: u64)
    requires
        handshake_laws::host_ok(h),
        names_match(h, names),
    ensures
        ({
            let (h2, actions) = handshake::host_tick(h, now_ms);
            names_match(h2, control::names_after(names, actions))
        }),
{
    let (h2, actions) = handshake::host_tick(h, now_ms);
    let drops = handshake::tick_drops(h.slots, now_ms, MAX_CLIENTS as int);
    let resends = handshake::tick_resends(h.slots, h2, now_ms, MAX_CLIENTS as int);
    let sends = handshake::roster_sends(h2, None, MAX_CLIENTS as int);
    lemma_names_after_drops(names, h.slots, now_ms, MAX_CLIENTS as int);
    lemma_resends_are_sends(h.slots, h2, now_ms, MAX_CLIENTS as int);
    lemma_roster_sends_are_sends(h2, None, MAX_CLIENTS as int);
    lemma_sends_keep_names(names, drops, resends);
    lemma_sends_keep_names(names, drops + resends, sends);
}

/// A tick clears the names of those whom it drops, and no others.
pub proof fn lemma_names_after_tick(h: HostView, names: Seq<Option<Seq<char>>>, now_ms: u64)
    requires
        handshake_laws::host_ok(h),
        names.len() == MAX_CLIENTS,
    ensures
        ({
            let (h2, actions) = handshake::host_tick(h, now_ms);
            let after = control::names_after(names, actions);
            forall|i: int|
                0 <= i < MAX_CLIENTS ==> #[trigger] after[i] == if h.slots[i] is Some
                    && h2.slots[i] is None {
                    None
                } else {
                    names[i]
                }
        }),
{
    let (h2, actions) = handshake::host_tick(h, now_ms);
    let drops = handshake::tick_drops(h.slots, now_ms, MAX_CLIENTS as int);
    let resends = handshake::tick_resends(h.slots, h2, now_ms, MAX_CLIENTS as int);
    let sends = handshake::roster_sends(h2, None, MAX_CLIENTS as int);
    lemma_names_after_drops(names, h.slots, now_ms, MAX_CLIENTS as int);
    lemma_resends_are_sends(h.slots, h2, now_ms, MAX_CLIENTS as int);
    lemma_roster_sends_are_sends(h2, None, MAX_CLIENTS as int);
    lemma_sends_keep_names(names, drops, resends);
    lemma_sends_keep_names(names, drops + resends, sends);
}

proof fn lemma_audio_heard(h: HostView, last_rx_us: Seq<u64>, n: int)
    requires
        handshake_laws::host_ok(h),
        0 <= n <= MAX_CLIENTS,
    ensures
        handshake_laws::host_ok(control::audio_heard(h, last_rx_us, n)),
        forall|i: int|
            0 <= i < MAX_CLIENTS ==> ((#[trigger] control::audio_heard(
                h,
                last_rx_us,
                n,
            ).slots[i]) is Some <==> h.slots[i] is Some),
    decreases n,
{
    if n > 0 {
        lemma_audio_heard(h, last_rx_us, n - 1);
        let h1 = control::audio_heard(h, last_rx_us, n - 1);
        handshake_laws::law_host_stays_in_order(
            h1,
            HostInput::Heard { sender_id: n as u16, now_ms: last_rx_us[n - 1] / 1_000 },
        );
        assert forall|i: int| 0 <= i < MAX_CLIENTS implies ((#[trigger] control::audio_heard(
            h,
            last_rx_us,
            n,
        ).slots[i]) is Some <==> h.slots[i] is Some) by {
            assert(h1.slots[i] is Some <==> h.slots[i] is Some);
        }
    }
}

/// Whatever happens, the host's control plane stays in order: the handshake
/// does, and a name is noted for exactly the slots that are taken.
pub proof fn law_host_control_stays_in_order(v: HostControlView, e: HostControlInput)
    requires
        host_control_ok(v),
    ensures
        host_control_ok(host_control_step(v, e).0),
{
    match e {
        HostControlInput::Event { from, control, now_ms, .. } => {
            let h = control::heard_from(v.hs, from, now_ms);
            if let Some(id) = handshake::sender_at(v.hs, from) {
                handshake_laws::law_host_stays_in_order(
                    v.hs,
                    HostInput::Heard { sender_id: id, now_ms },
                );
            }
            assert(names_match(h, v.names));
            match control {
                ControlView::Hello { .. } => {
                    handshake_laws::law_host_stays_in_order(
                        h,
                        HostInput::Hello { addr: from, hello: control, now_ms },
                    );
                    lemma_hello_keeps_names_match(h, v.names, from, control, now_ms);
                },
                ControlView::Ack { acked_seq, .. } => {
                    handshake_laws::law_host_stays_in_order(
                        h,
                        HostInput::Ack { addr: from, acked_seq, now_ms },
                    );
                },
                ControlView::Bye => {
                    handshake_laws::law_host_stays_in_order(h, HostInput::Bye { addr: from });
                    lemma_bye_keeps_names_match(h, v.names, from);
                },
                _ => {},
            }
        },
        HostControlInput::Tick { now_ms, last_rx_us } => {
            let h = control::audio_heard(v.hs, last_rx_us, MAX_CLIENTS as int);
            lemma_audio_heard(v.hs, last_rx_us, MAX_CLIENTS as int);
            handshake_laws::law_host_stays_in_order(h, HostInput::Tick { now_ms });
            assert forall|i: int| 0 <= i < MAX_CLIENTS implies ((#[trigger] v.names[i]) is Some
                <==> h.slots[i] is Some) by {
                assert(h.slots[i] is Some <==> v.hs.slots[i] is Some);
            }
            lemma_tick_keeps_names_match(h, v.names, now_ms);
        },
        HostControlInput::Transmit { control, to } => {
            handshake_laws::law_host_stays_in_order(
                v.hs,
                HostInput::WelcomeSent { to, seq: v.seq },
            );
        },
    }
}

proof fn lemma_effects_of_ok(h: HostView, actions: Seq<HostActionView>)
    requires
        handshake_laws::actions_ok(actions),
        forall|i: int|
            0 <= i < actions.len() ==> ((#[trigger] actions[i]) matches HostActionView::ClientJoined {
                sender_id,
                ..
            } ==> handshake::client_of(h, sender_id) is Some),
    ensures
        effects_ok(control::effects_of(h, actions)),
{
    let effects = control::effects_of(h, actions);
    assert forall|i: int| 0 <= i < effects.len() implies effect_ok(#[trigger] effects[i]) by {
        assert(handshake_laws::action_ok(actions[i]));
    }
}

proof fn lemma_drops_do_not_join(slots: Seq<Option<SlotView>>, now_ms: u64, n: int)
    ensures
        forall|i: int|
            0 <= i < handshake::tick_drops(slots, now_ms, n).len() ==> (
            #[trigger] handshake::tick_drops(slots, now_ms, n)[i]) is ClientLeft,
    decreases n,
{
    if n > 0 {
        lemma_drops_do_not_join(slots, now_ms, n - 1);
    }
}

proof fn lemma_byes_do_not_join(slots: Seq<Option<SlotView>>, addr: SocketAddr, n: int)
    ensures
        forall|i: int|
            0 <= i < handshake::byes(slots, addr, n).len() ==> (#[trigger] handshake::byes(
                slots,
                addr,
                n,
            )[i]) is ClientLeft,
    decreases n,
{
    if n > 0 {
        lemma_byes_do_not_join(slots, addr, n - 1);
    }
}

/// Whatever happens, all that the host's control thread is asked to do can be
/// done: each packet fits and can be read back, each slot exists, and a client
/// that joined has an address.
pub proof fn law_host_effects_can_be_carried_out(v: HostControlView, e: HostControlInput)
    requires
        host_control_ok(v),
    ensures
        effects_ok(host_control_step(v, e).1),
{
    match e {
        HostControlInput::Event { from, control, now_ms, .. } => {
            let h = control::heard_from(v.hs, from, now_ms);
            if let Some(id) = handshake::sender_at(v.hs, from) {
                handshake_laws::law_host_stays_in_order(
                    v.hs,
                    HostInput::Heard { sender_id: id, now_ms },
                );
            }
            handshake_laws::lemma_slot_of_addr(h.slots, from, 0);
            match control {
                ControlView::Hello { .. } => {
                    let input = HostInput::Hello { addr: from, hello: control, now_ms };
                    let (h2, actions) = handshake::host_hello(h, from, control, now_ms);
                    handshake_laws::law_host_actions_can_be_carried_out(h, input);
                    handshake_laws::lemma_free_slot(h.slots, 0);
                    lemma_roster_sends_are_sends(h2, Some(from), MAX_CLIENTS as int);
                    assert forall|i: int| 0 <= i < actions.len() implies ((
                    #[trigger] actions[i]) matches HostActionView::ClientJoined { sender_id, .. }
                        ==> handshake::client_of(h2, sender_id) is Some) by {
                        if i >= 2 {
                            assert(actions[i] == handshake::roster_sends(
                                h2,
                                Some(from),
                                MAX_CLIENTS as int,
                            )[i - 2]);
                        }
                    }
                    lemma_effects_of_ok(h2, actions);
                },
                ControlView::Bye => {
                    let (h2, actions) = handshake::host_bye(h, from);
                    handshake_laws::law_host_actions_can_be_carried_out(
                        h,
                        HostInput::Bye { addr: from },
                    );
                    lemma_byes_do_not_join(h.slots, from, MAX_CLIENTS as int);
                    lemma_roster_sends_are_sends(h2, None, MAX_CLIENTS as int);
                    lemma_effects_of_ok(h2, actions);
                },
                _ => {},
            }
        },
        HostControlInput::Tick { now_ms, last_rx_us } => {
            let h = control::audio_heard(v.hs, last_rx_us, MAX_CLIENTS as int);
            lemma_audio_heard(v.hs, last_rx_us, MAX_CLIENTS as int);
            let (h2, actions) = handshake::host_tick(h, now_ms);
            handshake_laws::law_host_actions_can_be_carried_out(h, HostInput::Tick { now_ms });
            lemma_drops_do_not_join(h.slots, now_ms, MAX_CLIENTS as int);
            lemma_resends_are_sends(h.slots, h2, now_ms, MAX_CLIENTS as int);
            lemma_roster_sends_are_sends(h2, None, MAX_CLIENTS as int);
            lemma_effects_of_ok(h2, actions);
        },
        _ => {},
    }
}

/// A BYE that does not carry our session id drops nobody: all it does is show
/// that its sender is alive.
pub proof fn law_foreign_bye_drops_nobody(
    v: HostControlView,
    from: SocketAddr,
    header: Header,
    rx_us: u64,
    now_ms: u64,
)
    requires
        header.session_id != v.hs.session_id,
    ensures
        control::host_event(v, from, header, ControlView::Bye, rx_us, now_ms) == (
            HostControlView { hs: control::heard_from(v.hs, from, now_ms), ..v },
            Seq::<HostEffectView>::empty(),
        ),
{
}

/// The ACK of the WELCOME that was sent to a waiting client makes that client
/// active: it is not sent another.
pub proof fn law_ack_settles_the_welcome(
    v: HostControlView,
    i: int,
    welcome: ControlView,
    now_ms: u64,
)
    requires
        host_control_ok(v),
        0 <= i < MAX_CLIENTS,
        v.hs.slots[i] matches Some(s) && s.state is Pending,
        welcome is Welcome,
    ensures
        ({
            let addr = v.hs.slots[i]->Some_0.addr;
            let sent = control::transmitted(v, welcome, addr).hs;
            let acked = handshake::host_acked(sent, addr, v.seq, now_ms);
            &&& acked.slots[i] is Some
            &&& acked.slots[i]->Some_0.state is Active
            &&& !handshake::due(acked.slots[i], now_ms)
        }),
{
}

// ---------------------------------------------------------------------------
// Client
// ---------------------------------------------------------------------------
/// The handshake asks for this client's room, and the client counts as joined
/// only under the ids that its host assigned.
pub open spec fn client_control_ok(v: ClientControlView) -> bool {
    &&& v.room_code.len() == ROOM_CODE_LEN
    &&& v.cs.hello == handshake::hello_view(v.room_code, v.name)
    &&& v.joined ==> (v.cs.phase matches ClientPhase::Joined { sender_id, session_id, .. }
        && sender_id == v.sender_id && session_id == v.session_id)
}

/// Whether all packets among the effects can be read back.
pub open spec fn client_effects_ok(effects: Seq<ClientEffectView>) -> bool {
    forall|i: int|
        0 <= i < effects.len() ==> ((#[trigger] effects[i]) matches ClientEffectView::Send {
            control,
            ..
        } ==> roundtrip::sendable(control))
}

pub proof fn lemma_two_actions(
    v: ClientControlView,
    a: ClientActionView,
    b: ClientActionView,
    now_ms: u64,
)
    ensures
        ({
            let (v1, e1) = control::client_action(v, a, now_ms);
            let (v2, e2) = control::client_action(v1, b, now_ms);
            control::client_actions(v, seq![a, b], now_ms) == (v2, e1 + e2)
        }),
{
    lemma_one_action(v, a, now_ms);
    assert(seq![a, b].drop_last() =~= seq![a]);
}

pub proof fn lemma_one_action(v: ClientControlView, a: ClientActionView, now_ms: u64)
    ensures
        control::client_actions(v, seq![a], now_ms) == control::client_action(v, a, now_ms),
{
    assert(seq![a].drop_last() =~= Seq::empty());
    assert(control::client_actions(v, Seq::<ClientActionView>::empty(), now_ms) == (
        v,
        Seq::<ClientEffectView>::empty(),
    ));
    let (v2, more) = control::client_action(v, a, now_ms);
    assert(Seq::<ClientEffectView>::empty() + more =~= more);
}

proof fn lemma_settled(
    received: (ClientControlView, Seq<ClientEffectView>, Seq<ClientActionView>),
    now_ms: u64,
)
    requires
        client_effects_ok(received.1),
        received.2.len() == 0 ==> client_control_ok(received.0),
        received.2.len() > 0 ==> {
            &&& received.0.room_code.len() == ROOM_CODE_LEN
            &&& received.0.cs.hello == handshake::hello_view(received.0.room_code, received.0.name)
            &&& !received.0.joined
            &&& match received.0.cs.phase {
                ClientPhase::Joined { sender_id, session_id, params } => received.2.len() == 2
                    && received.2[0] == (ClientActionView::StartAudio {
                    sender_id,
                    session_id,
                    params,
                }) && received.2[1] is RosterUpdate,
                ClientPhase::Failed(f) => received.2 == seq![ClientActionView::Failed(f)] && f
                    !is Timeout,
                _ => false,
            }
        },
    ensures
        client_control_ok(control::client_settled(received, now_ms).0),
        client_effects_ok(control::client_settled(received, now_ms).1),
{
    let (v, effects, actions) = received;
    let (cs, ticked) = handshake::client_tick(v.cs, now_ms);
    let v1 = ClientControlView { cs, ..v };
    if actions.len() == 0 {
        assert(actions + ticked =~= ticked);
        if ticked.len() > 0 {
            assert(ticked =~= seq![ticked[0]]);
            lemma_one_action(v1, ticked[0], now_ms);
        }
    } else {
        assert(ticked.len() == 0);
        assert(cs == v.cs);
        assert(actions + ticked =~= actions);
        if actions.len() == 1 {
            assert(actions =~= seq![actions[0]]);
            lemma_one_action(v1, actions[0], now_ms);
        } else {
            assert(actions =~= seq![actions[0], actions[1]]);
            lemma_two_actions(v1, actions[0], actions[1], now_ms);
        }
    }
}

/// Whatever the client's control plane gets, it stays in order, and all that it
/// sends can be read back.
pub proof fn law_client_control_stays_in_order(
    v: ClientControlView,
    header: Header,
    control: ControlView,
    rx_us: u64,
    now_ms: u64,
)
    requires
        client_control_ok(v),
    ensures
        ({
            let (v2, effects) = control::client_settled(
                control::client_received(v, header, control, rx_us),
                now_ms,
            );
            client_control_ok(v2) && client_effects_ok(effects)
        }),
        ({
            let (v2, effects) = control::client_settled((v, Seq::empty(), Seq::empty()), now_ms);
            client_control_ok(v2) && client_effects_ok(effects)
        }),
{
    let received = control::client_received(v, header, control, rx_us);
    lemma_settled(received, now_ms);
    lemma_settled((v, Seq::empty(), Seq::empty()), now_ms);
}

/// The same of the periodic checks.
pub proof fn law_client_checks_stay_in_order(
    v: ClientControlView,
    now_ms: u64,
    now_us: u64,
    last_rx_us: u64,
)
    requires
        client_control_ok(v),
    ensures
        client_control_ok(control::client_checked(v, now_ms, now_us, last_rx_us).0),
        client_effects_ok(control::client_checked(v, now_ms, now_us, last_rx_us).1),
{
}

/// A WELCOME is always acknowledged with its own number and session.
pub proof fn law_welcome_is_always_acknowledged(
    v: ClientControlView,
    header: Header,
    control: ControlView,
    rx_us: u64,
    now_ms: u64,
)
    requires
        control is Welcome,
    ensures
        ({
            let effects = control::client_settled(
                control::client_received(v, header, control, rx_us),
                now_ms,
            ).1;
            effects.len() > 0 && effects[0] == (ClientEffectView::Send {
                control: ControlView::Ack {
                    acked_seq: header.seq,
                    acked_type: crate::packet::type_code(header.ptype),
                },
                session_id: control->Welcome_session_id,
                sender_id: v.sender_id,
            })
        }),
{
}

/// A BYE that does not carry our session id changes nothing.
pub proof fn law_foreign_bye_is_ignored(v: ClientControlView, header: Header, rx_us: u64)
    requires
        header.session_id != v.session_id,
    ensures
        control::client_received(v, header, ControlView::Bye, rx_us) == (
            v,
            Seq::<ClientEffectView>::empty(),
            Seq::<ClientActionView>::empty(),
        ),
{
}

/// A joined client that has not heard of its host for longer than
/// `PEER_TIMEOUT_MS` stops playing and asks to join again, and from then on
/// keeps trying for `REJOIN_WINDOW_MS`; until then it stays joined.
pub proof fn law_silent_host_starts_a_rejoin(
    v: ClientControlView,
    now_ms: u64,
    now_us: u64,
    last_rx_us: u64,
)
    requires
        v.joined,
        now_ms + REJOIN_WINDOW_MS <= u64::MAX,
    ensures
        ({
            let (v2, effects) = control::client_checked(v, now_ms, now_us, last_rx_us);
            if handshake::elapsed(now_us, last_rx_us) > PEER_TIMEOUT_MS * 1_000 {
                &&& !v2.joined
                &&& v2.cs.phase is Joining
                &&& v2.rejoin_deadline == Some((now_ms + REJOIN_WINDOW_MS) as u64)
                &&& effects.len() >= 2
                &&& effects[0] == ClientEffectView::StopStream
                &&& effects[1] == control::hello_effect(v)
            } else {
                v2.joined && v2.cs == v.cs
            }
        }),
{
}

/// A handshake that times out is begun anew as long as the window to rejoin is
/// open; after that the client reports that it could not reach its host.
pub proof fn law_rejoin_until_the_deadline(v: ClientControlView, now_ms: u64)
    requires
        client_control_ok(v),
        v.cs.phase matches ClientPhase::Joining { last_tx_ms, tries } && tries
            >= CONTROL_MAX_TRIES && handshake::elapsed(now_ms, last_tx_ms) >= CONTROL_RETRY_MS,
    ensures
        ({
            let (v2, effects) = control::client_settled((v, Seq::empty(), Seq::empty()), now_ms);
            if v.rejoin_deadline matches Some(deadline) && now_ms < deadline {
                &&& v2.cs.phase == (ClientPhase::Joining { last_tx_ms: now_ms, tries: 1 })
                &&& v2.status == v.status
                &&& v2 == (ClientControlView { cs: v2.cs, ..v })
                &&& effects == seq![control::hello_effect(v)]
            } else {
                &&& v2.status == Some(ClientStatus::TimedOut)
                &&& v2.cs.phase == ClientPhase::Failed(JoinFailure::Timeout)
                &&& v2 == (ClientControlView { cs: v2.cs, status: v2.status, ..v })
                &&& effects.len() == 0
            }
        }),
{
    let (cs, ticked) = handshake::client_tick(v.cs, now_ms);
    let v1 = ClientControlView { cs, ..v };
    assert(Seq::<ClientActionView>::empty() + ticked =~= seq![ticked[0]]);
    lemma_one_action(v1, ticked[0], now_ms);
    let (v2, effects) = control::client_settled((v, Seq::empty(), Seq::empty()), now_ms);
    assert(effects =~= control::client_action(v1, ticked[0], now_ms).1);
}

} // verus!
