//! What holds of the handshake whatever happens: of every event the host can
//! see, and of the two sides together.
use crate::addr::SocketAddr;
use crate::handshake;
use crate::handshake::{
    ClientActionView, ClientPhase, ClientView, HostActionView, HostView, JoinFailure, LeaveReason,
    SlotState, SlotView,
};
use crate::packet::{ControlView, DenyReason, PlayerView};
use crate::roundtrip;
use crate::{
    CONTROL_MAX_TRIES, CONTROL_RETRY_MS, HOST_SENDER_ID, MAX_CLIENTS, PEER_TIMEOUT_MS,
    PROTOCOL_VERSION, ROOM_CODE_LEN,
};
use vstd::prelude::*;

verus! {

/// Everything that can happen to the host's side of the handshake.
pub enum HostInput {
    Hello { addr: SocketAddr, hello: ControlView, now_ms: u64 },
    WelcomeSent { to: SocketAddr, seq: u16 },
    Ack { addr: SocketAddr, acked_seq: u16, now_ms: u64 },
    Heard { sender_id: u16, now_ms: u64 },
    Bye { addr: SocketAddr },
    Tick { now_ms: u64 },
}

/// What an input does to the host and makes it do.
pub open spec fn host_step(h: HostView, e: HostInput) -> (HostView, Seq<HostActionView>) {
    match e {
        HostInput::Hello { addr, hello, now_ms } => handshake::host_hello(h, addr, hello, now_ms),
        HostInput::WelcomeSent { to, seq } => (
            handshake::host_welcome_sent(h, to, seq),
            Seq::empty(),
        ),
        HostInput::Ack { addr, acked_seq, now_ms } => (
            handshake::host_acked(h, addr, acked_seq, now_ms),
            Seq::empty(),
        ),
        HostInput::Heard { sender_id, now_ms } => (
            handshake::host_heard(h, sender_id, now_ms),
            Seq::empty(),
        ),
        HostInput::Bye { addr } => handshake::host_bye(h, addr),
        HostInput::Tick { now_ms } => handshake::host_tick(h, now_ms),
    }
}

/// A client that awaits an acknowledgement was sent between one and
/// `CONTROL_MAX_TRIES` WELCOMEs.
pub open spec fn slot_ok(slot: Option<SlotView>) -> bool {
    slot matches Some(s) ==> s.state matches SlotState::Pending { tries, .. } ==> 1 <= tries
        <= CONTROL_MAX_TRIES
}

/// The room has `MAX_CLIENTS` slots, no two of them taken by the same address.
pub open spec fn host_ok(h: HostView) -> bool {
    &&& h.room_code.len() == ROOM_CODE_LEN
    &&& h.slots.len() == MAX_CLIENTS
    &&& forall|i: int| 0 <= i < MAX_CLIENTS ==> slot_ok(#[trigger] h.slots[i])
    &&& forall|i: int, j: int|
        0 <= i < MAX_CLIENTS && 0 <= j < MAX_CLIENTS && i != j && (#[trigger] h.slots[i]) is Some
            && (#[trigger] h.slots[j]) is Some ==> h.slots[i]->Some_0.addr
            != h.slots[j]->Some_0.addr
}

pub proof fn lemma_slot_of_addr(slots: Seq<Option<SlotView>>, addr: SocketAddr, i: int)
    requires
        0 <= i <= slots.len(),
    ensures
        match handshake::slot_of_addr(slots, addr, i) {
            Some(k) => i <= k < slots.len() && handshake::taken_by(slots[k], addr) && forall|j: int|
                i <= j < k ==> !handshake::taken_by(#[trigger] slots[j], addr),
            None => forall|j: int|
                i <= j < slots.len() ==> !handshake::taken_by(#[trigger] slots[j], addr),
        },
    decreases slots.len() - i,
{
    if i < slots.len() && !handshake::taken_by(slots[i], addr) {
        lemma_slot_of_addr(slots, addr, i + 1);
    }
}

pub proof fn lemma_free_slot(slots: Seq<Option<SlotView>>, i: int)
    requires
        0 <= i <= slots.len(),
    ensures
        match handshake::free_slot(slots, i) {
            Some(k) => i <= k < slots.len() && slots[k] is None && forall|j: int|
                i <= j < k ==> (#[trigger] slots[j]) is Some,
            None => forall|j: int| i <= j < slots.len() ==> (#[trigger] slots[j]) is Some,
        },
    decreases slots.len() - i,
{
    if i < slots.len() && slots[i] is Some {
        lemma_free_slot(slots, i + 1);
    }
}

/// Whatever happens, the slots stay in order: no address ever holds two of
/// them, and no client is sent more than `CONTROL_MAX_TRIES` WELCOMEs. What
/// the room was opened with never changes.
pub proof fn law_host_stays_in_order(h: HostView, e: HostInput)
    requires
        host_ok(h),
    ensures
        host_ok(host_step(h, e).0),
        host_step(h, e).0.room_code == h.room_code,
        host_step(h, e).0.session_id == h.session_id,
        host_step(h, e).0.params == h.params,
        host_step(h, e).0.host_name == h.host_name,
{
    match e {
        HostInput::Hello { addr, .. } => {
            lemma_slot_of_addr(h.slots, addr, 0);
            lemma_free_slot(h.slots, 0);
        },
        _ => {},
    }
}

/// A HELLO is refused with exactly one DENY, to its sender, and changes
/// nothing: for the wrong version, else for the wrong room code, else if the
/// room is full of others.
pub proof fn law_refused_hello_changes_nothing(
    h: HostView,
    addr: SocketAddr,
    hello: ControlView,
    now_ms: u64,
)
    requires
        host_ok(h),
        hello is Hello,
    ensures
        ({
            let (h2, actions) = handshake::host_hello(h, addr, hello, now_ms);
            let full = forall|i: int|
                0 <= i < MAX_CLIENTS ==> (#[trigger] h.slots[i] matches Some(s) && s.addr != addr);
            let reason = if hello->proto_version != PROTOCOL_VERSION {
                Some(DenyReason::VersionMismatch)
            } else if hello->room_code != h.room_code {
                Some(DenyReason::BadRoomCode)
            } else if full {
                Some(DenyReason::RoomFull)
            } else {
                None
            };
            match reason {
                Some(r) => h2 == h && actions == seq![
                    HostActionView::Send { to: addr, control: ControlView::Deny { reason: r } },
                ],
                None => handshake::sender_at(h2, addr) is Some && actions.len() > 0,
            }
        }),
{
    lemma_slot_of_addr(h.slots, addr, 0);
    lemma_free_slot(h.slots, 0);
    let h2 = handshake::host_hello(h, addr, hello, now_ms).0;
    lemma_slot_of_addr(h2.slots, addr, 0);
    match handshake::slot_of_addr(h.slots, addr, 0) {
        Some(i) => {
            assert(handshake::taken_by(h2.slots[i], addr)
                || hello->proto_version != PROTOCOL_VERSION || hello->room_code != h.room_code);
        },
        None => match handshake::free_slot(h.slots, 0) {
            Some(i) => {
                assert(handshake::taken_by(h2.slots[i], addr)
                    || hello->proto_version != PROTOCOL_VERSION || hello->room_code != h.room_code);
            },
            None => {},
        },
    }
}

/// An accepted HELLO is answered with a WELCOME to its sender that names the
/// id by which the host then knows that address.
pub proof fn law_welcome_names_the_id(
    h: HostView,
    addr: SocketAddr,
    hello: ControlView,
    now_ms: u64,
)
    requires
        host_ok(h),
        hello is Hello,
        hello->proto_version == PROTOCOL_VERSION,
        hello->room_code == h.room_code,
        handshake::sender_at(h, addr) is Some || exists|i: int|
            0 <= i < MAX_CLIENTS && (#[trigger] h.slots[i]) is None,
    ensures
        ({
            let (h2, actions) = handshake::host_hello(h, addr, hello, now_ms);
            let id = handshake::sender_at(h2, addr)->Some_0;
            &&& handshake::sender_at(h2, addr) is Some
            &&& 1 <= id <= MAX_CLIENTS
            &&& actions.len() > 0
            &&& actions[0] == (HostActionView::Send {
                to: addr,
                control: handshake::welcome_view(h2, id - 1),
            })
            &&& handshake::client_of(h2, id) == Some(
                handshake::fresh_slot(addr, hello->Hello_name, now_ms),
            )
        }),
{
    law_host_stays_in_order(h, HostInput::Hello { addr, hello, now_ms });
    lemma_slot_of_addr(h.slots, addr, 0);
    lemma_free_slot(h.slots, 0);
    let h2 = handshake::host_hello(h, addr, hello, now_ms).0;
    lemma_slot_of_addr(h2.slots, addr, 0);
    let i = match handshake::slot_of_addr(h.slots, addr, 0) {
        Some(i) => i,
        None => handshake::free_slot(h.slots, 0)->Some_0,
    };
    assert(h2.slots[i] == Some(handshake::fresh_slot(addr, hello->Hello_name, now_ms)));
    assert(handshake::taken_by(h2.slots[i], addr));
}

/// A HELLO from an address that is in the room already is answered with one
/// WELCOME for the same id. Nobody joins, and no other slot changes.
pub proof fn law_duplicate_hello_is_idempotent(
    h: HostView,
    addr: SocketAddr,
    hello: ControlView,
    now_ms: u64,
)
    requires
        host_ok(h),
        hello is Hello,
        hello->proto_version == PROTOCOL_VERSION,
        hello->room_code == h.room_code,
        handshake::sender_at(h, addr) is Some,
    ensures
        ({
            let (h2, actions) = handshake::host_hello(h, addr, hello, now_ms);
            let id = handshake::sender_at(h, addr)->Some_0;
            &&& handshake::sender_at(h2, addr) == Some(id)
            &&& actions == seq![
                HostActionView::Send { to: addr, control: handshake::welcome_view(h2, id - 1) },
            ]
            &&& forall|i: int| 0 <= i < MAX_CLIENTS && i != id - 1 ==> h2.slots[i] == h.slots[i]
        }),
{
    law_host_stays_in_order(h, HostInput::Hello { addr, hello, now_ms });
    lemma_slot_of_addr(h.slots, addr, 0);
    let h2 = handshake::host_hello(h, addr, hello, now_ms).0;
    lemma_slot_of_addr(h2.slots, addr, 0);
    let i = handshake::slot_of_addr(h.slots, addr, 0)->Some_0;
    assert(handshake::taken_by(h2.slots[i], addr));
}

proof fn lemma_byes(slots: Seq<Option<SlotView>>, addr: SocketAddr, n: int)
    requires
        0 <= n <= slots.len() <= MAX_CLIENTS,
    ensures
        handshake::byes(slots, addr, n).len() == 0 <==> forall|i: int|
            0 <= i < n ==> !handshake::taken_by(#[trigger] slots[i], addr),
        forall|k: int|
            0 <= k < handshake::byes(slots, addr, n).len() ==> ((#[trigger] handshake::byes(
                slots,
                addr,
                n,
            )[k]) matches HostActionView::ClientLeft { sender_id, reason } && 1 <= sender_id <= n
                && reason == LeaveReason::Bye && handshake::taken_by(slots[sender_id - 1], addr)),
    decreases n,
{
    if n > 0 {
        lemma_byes(slots, addr, n - 1);
        if handshake::taken_by(slots[n - 1], addr) {
            assert(handshake::byes(slots, addr, n).len() > 0);
        }
    }
}

/// A BYE frees the slot of its sender and no other, so that there is room for
/// someone else; from an address that is not in the room it changes nothing.
pub proof fn law_bye_frees_the_slot(h: HostView, addr: SocketAddr)
    requires
        host_ok(h),
    ensures
        handshake::sender_at(handshake::host_bye(h, addr).0, addr) is None,
        handshake::sender_at(h, addr) is None ==> handshake::host_bye(h, addr) == (
            h,
            Seq::<HostActionView>::empty(),
        ),
        handshake::sender_at(h, addr) matches Some(id) ==> {
            let (h2, actions) = handshake::host_bye(h, addr);
            &&& h2.slots == h.slots.update(id - 1, None)
            &&& handshake::free_slot(h2.slots, 0) is Some
            &&& actions.len() > 0
            &&& actions[0] == (HostActionView::ClientLeft {
                sender_id: id,
                reason: LeaveReason::Bye,
            })
        },
{
    let (h2, actions) = handshake::host_bye(h, addr);
    lemma_slot_of_addr(h.slots, addr, 0);
    lemma_slot_of_addr(h2.slots, addr, 0);
    lemma_free_slot(h2.slots, 0);
    lemma_byes(h.slots, addr, MAX_CLIENTS as int);
    match handshake::slot_of_addr(h.slots, addr, 0) {
        None => {
            assert(h2.slots =~= h.slots);
            assert(actions =~= Seq::empty());
        },
        Some(i) => {
            let left = handshake::byes(h.slots, addr, MAX_CLIENTS as int);
            assert(handshake::taken_by(h.slots[i], addr));
            assert(left.len() > 0);
            assert(actions[0] == left[0]);
            assert forall|j: int|
                0 <= j < MAX_CLIENTS && handshake::taken_by(
                    #[trigger] h.slots[j],
                    addr,
                ) implies j == i by {
            }
            assert(left[0] matches HostActionView::ClientLeft { sender_id, reason } && sender_id - 1
                == i);
            assert(h2.slots =~= h.slots.update(i, None));
            assert(h2.slots[i] is None);
        },
    }
}

/// After a clock tick nobody is left who has been silent for longer than
/// `PEER_TIMEOUT_MS`, and a client that was heard in time and has acknowledged
/// its WELCOME is untouched.
pub proof fn law_tick_drops_the_silent(h: HostView, now_ms: u64)
    requires
        host_ok(h),
    ensures
        ({
            let h2 = handshake::host_tick(h, now_ms).0;
            forall|i: int|
                0 <= i < MAX_CLIENTS ==> {
                    &&& ((#[trigger] h2.slots[i]) matches Some(s) ==> handshake::elapsed(
                        now_ms,
                        s.last_heard_ms,
                    ) <= PEER_TIMEOUT_MS)
                    &&& (h.slots[i] matches Some(s) ==> s.state is Active && handshake::elapsed(
                        now_ms,
                        s.last_heard_ms,
                    ) <= PEER_TIMEOUT_MS ==> h2.slots[i] == h.slots[i])
                    &&& (h.slots[i] is None ==> h2.slots[i] is None)
                }
        }),
{
}

/// A slot after clock ticks at the given times, and nothing else.
pub open spec fn slot_after_ticks(slot: Option<SlotView>, times: Seq<u64>) -> Option<SlotView>
    decreases times.len(),
{
    if times.len() == 0 {
        slot
    } else {
        handshake::slot_ticked(slot_after_ticks(slot, times.drop_last()), times.last())
    }
}

/// Times that follow each other, and `start`, by at least `CONTROL_RETRY_MS`.
pub open spec fn spaced(start: u64, times: Seq<u64>) -> bool {
    forall|k: int|
        0 <= k < times.len() ==> #[trigger] times[k] >= CONTROL_RETRY_MS + (if k == 0 {
            start
        } else {
            times[k - 1]
        })
}

proof fn lemma_spaced_front(start: u64, times: Seq<u64>)
    requires
        spaced(start, times),
        times.len() > 0,
    ensures
        spaced(start, times.drop_last()),
{
    let front = times.drop_last();
    assert forall|k: int| 0 <= k < front.len() implies #[trigger] front[k] >= CONTROL_RETRY_MS + (
    if k == 0 {
        start
    } else {
        front[k - 1]
    }) by {
        assert(front[k] == times[k]);
    }
}

proof fn lemma_unacked_after_ticks(slot: SlotView, times: Seq<u64>)
    requires
        slot.state matches SlotState::Pending { last_tx_ms, tries, .. } && tries == 1 && spaced(
            last_tx_ms,
            times,
        ),
    ensures
        match slot_after_ticks(Some(slot), times) {
            None => true,
            Some(s) => times.len() < CONTROL_MAX_TRIES && s.state is Pending && s.state->tries == 1
                + times.len() && s.state->last_tx_ms == if times.len() == 0 {
                slot.state->last_tx_ms
            } else {
                times.last()
            },
        },
    decreases times.len(),
{
    if times.len() > 0 {
        lemma_spaced_front(slot.state->last_tx_ms, times);
        lemma_unacked_after_ticks(slot, times.drop_last());
        let k = times.len() - 1;
        assert(times[k] == times.last());
        if k > 0 {
            assert(times.drop_last().last() == times[k - 1]);
        }
    }
}

/// A client that is never heard of again after its first WELCOME is gone after
/// `CONTROL_MAX_TRIES` ticks that are at least `CONTROL_RETRY_MS` apart.
pub proof fn law_unacknowledged_client_is_dropped(slot: SlotView, times: Seq<u64>)
    requires
        slot.state matches SlotState::Pending { last_tx_ms, tries, .. } && tries == 1 && spaced(
            last_tx_ms,
            times,
        ),
        times.len() >= CONTROL_MAX_TRIES,
    ensures
        slot_after_ticks(Some(slot), times) is None,
{
    lemma_unacked_after_ticks(slot, times);
}

proof fn lemma_roster_entries(slots: Seq<Option<SlotView>>, n: int)
    requires
        0 <= n <= slots.len() <= MAX_CLIENTS,
    ensures
        handshake::roster_entries(slots, n).len() <= n,
        forall|k: int|
            0 <= k < handshake::roster_entries(slots, n).len() ==> {
                let p = #[trigger] handshake::roster_entries(slots, n)[k];
                1 <= p.id <= n && slots[p.id - 1] is Some && slots[p.id - 1]->Some_0.name == p.name
            },
        forall|k: int, l: int|
            0 <= k < l < handshake::roster_entries(slots, n).len() ==> (
            #[trigger] handshake::roster_entries(slots, n)[k]).id < (
            #[trigger] handshake::roster_entries(slots, n)[l]).id,
        forall|i: int|
            0 <= i < n && (#[trigger] slots[i]) is Some ==> handshake::roster_entries(
                slots,
                n,
            ).contains(PlayerView { id: (i + 1) as u16, name: slots[i]->Some_0.name }),
    decreases n,
{
    if n > 0 {
        lemma_roster_entries(slots, n - 1);
        let front = handshake::roster_entries(slots, n - 1);
        let all = handshake::roster_entries(slots, n);
        assert forall|i: int| 0 <= i < n && (#[trigger] slots[i]) is Some implies all.contains(
            PlayerView { id: (i + 1) as u16, name: slots[i]->Some_0.name },
        ) by {
            let p = PlayerView { id: (i + 1) as u16, name: slots[i]->Some_0.name };
            if i == n - 1 {
                assert(all[front.len() as int] == p);
            } else {
                assert(front.contains(p));
                let k = choose|k: int| 0 <= k < front.len() && front[k] == p;
                assert(all[k] == p);
            }
        }
    }
}

/// The roster starts with the host; the clients follow in the order of their
/// ids, one entry for each slot that is taken, and no other. So it always fits
/// into a packet.
pub proof fn law_roster_lists_everyone_once(h: HostView)
    requires
        host_ok(h),
    ensures
        ({
            let r = handshake::host_roster(h);
            &&& 1 <= r.len() <= MAX_CLIENTS + 1
            &&& r[0] == (PlayerView { id: HOST_SENDER_ID, name: h.host_name })
            &&& forall|k: int, l: int|
                0 <= k < l < r.len() ==> (#[trigger] r[k]).id < (#[trigger] r[l]).id
            &&& forall|k: int|
                1 <= k < r.len() ==> (handshake::client_of(h, (#[trigger] r[k]).id) matches Some(s)
                    && s.name == r[k].name)
            &&& forall|i: int|
                0 <= i < MAX_CLIENTS && (#[trigger] h.slots[i]) is Some ==> r.contains(
                    PlayerView { id: (i + 1) as u16, name: h.slots[i]->Some_0.name },
                )
        }),
{
    let e = handshake::roster_entries(h.slots, MAX_CLIENTS as int);
    let r = handshake::host_roster(h);
    lemma_roster_entries(h.slots, MAX_CLIENTS as int);
    assert forall|k: int, l: int| 0 <= k < l < r.len() implies (#[trigger] r[k]).id < (
    #[trigger] r[l]).id by {
        assert(r[l] == e[l - 1]);
        if k > 0 {
            assert(r[k] == e[k - 1]);
        }
    }
    assert forall|k: int| 1 <= k < r.len() implies (handshake::client_of(
        h,
        (#[trigger] r[k]).id,
    ) matches Some(s) && s.name == r[k].name) by {
        assert(r[k] == e[k - 1]);
    }
    assert forall|i: int| 0 <= i < MAX_CLIENTS && (#[trigger] h.slots[i]) is Some implies r.contains(
        PlayerView { id: (i + 1) as u16, name: h.slots[i]->Some_0.name },
    ) by {
        let p = PlayerView { id: (i + 1) as u16, name: h.slots[i]->Some_0.name };
        let k = choose|k: int| 0 <= k < e.len() && e[k] == p;
        assert(r[k + 1] == p);
    }
}

/// An action that can be carried out: what it sends can be read back, and the
/// client that it speaks of is one of `1..=MAX_CLIENTS`.
pub open spec fn action_ok(a: HostActionView) -> bool {
    match a {
        HostActionView::Send { control, .. } => roundtrip::sendable(control),
        HostActionView::ClientJoined { sender_id, .. } => 1 <= sender_id <= MAX_CLIENTS,
        HostActionView::ClientLeft { sender_id, .. } => 1 <= sender_id <= MAX_CLIENTS,
    }
}

pub open spec fn actions_ok(actions: Seq<HostActionView>) -> bool {
    forall|k: int| 0 <= k < actions.len() ==> action_ok(#[trigger] actions[k])
}

proof fn lemma_roster_sends_ok(h: HostView, except: Option<SocketAddr>, n: int)
    requires
        host_ok(h),
        0 <= n <= MAX_CLIENTS,
    ensures
        actions_ok(handshake::roster_sends(h, except, n)),
    decreases n,
{
    law_roster_lists_everyone_once(h);
    if n > 0 {
        lemma_roster_sends_ok(h, except, n - 1);
    }
}

proof fn lemma_tick_drops_ok(slots: Seq<Option<SlotView>>, now_ms: u64, n: int)
    requires
        0 <= n <= MAX_CLIENTS,
    ensures
        actions_ok(handshake::tick_drops(slots, now_ms, n)),
    decreases n,
{
    if n > 0 {
        lemma_tick_drops_ok(slots, now_ms, n - 1);
    }
}

proof fn lemma_tick_resends_ok(slots: Seq<Option<SlotView>>, h2: HostView, now_ms: u64, n: int)
    requires
        host_ok(h2),
        0 <= n <= MAX_CLIENTS,
    ensures
        actions_ok(handshake::tick_resends(slots, h2, now_ms, n)),
    decreases n,
{
    law_roster_lists_everyone_once(h2);
    if n > 0 {
        lemma_tick_resends_ok(slots, h2, now_ms, n - 1);
    }
}

/// Whatever happens, all that the host is made to do can be carried out.
pub proof fn law_host_actions_can_be_carried_out(h: HostView, e: HostInput)
    requires
        host_ok(h),
    ensures
        actions_ok(host_step(h, e).1),
{
    law_host_stays_in_order(h, e);
    let h2 = host_step(h, e).0;
    law_roster_lists_everyone_once(h2);
    match e {
        HostInput::Hello { addr, .. } => {
            lemma_slot_of_addr(h.slots, addr, 0);
            lemma_free_slot(h.slots, 0);
            lemma_roster_sends_ok(h2, Some(addr), MAX_CLIENTS as int);
        },
        HostInput::Bye { addr } => {
            lemma_byes(h.slots, addr, MAX_CLIENTS as int);
            lemma_roster_sends_ok(h2, None, MAX_CLIENTS as int);
        },
        HostInput::Tick { now_ms } => {
            lemma_tick_drops_ok(h.slots, now_ms, MAX_CLIENTS as int);
            lemma_tick_resends_ok(h.slots, h2, now_ms, MAX_CLIENTS as int);
            lemma_roster_sends_ok(h2, None, MAX_CLIENTS as int);
        },
        _ => {},
    }
}

/// The address of a client leads to its id, and the id to its address.
pub proof fn law_ids_and_addresses_agree(h: HostView, id: u16, addr: SocketAddr)
    requires
        host_ok(h),
    ensures
        (handshake::client_of(h, id) matches Some(s) && s.addr == addr) <==> handshake::sender_at(
            h,
            addr,
        ) == Some(id),
{
    lemma_slot_of_addr(h.slots, addr, 0);
    if handshake::client_of(h, id) is Some && handshake::client_of(h, id)->Some_0.addr == addr {
        assert(handshake::taken_by(h.slots[id - 1], addr));
    }
}

// ---------------------------------------------------------------------------
// The client, and both sides together
// ---------------------------------------------------------------------------
/// The WELCOME that answers a HELLO joins the client to that session, under
/// the id and with the parameters that the host has for it.
pub proof fn law_welcome_completes_the_join(
    h: HostView,
    addr: SocketAddr,
    c: ClientView,
    now_ms: u64,
)
    requires
        host_ok(h),
        c.phase is Joining,
        c.hello is Hello,
        c.hello->proto_version == PROTOCOL_VERSION,
        c.hello->room_code == h.room_code,
        handshake::sender_at(h, addr) is Some || exists|i: int|
            0 <= i < MAX_CLIENTS && (#[trigger] h.slots[i]) is None,
    ensures
        ({
            let (h2, actions) = handshake::host_hello(h, addr, c.hello, now_ms);
            let c2 = handshake::client_control(c, actions[0]->control).0;
            &&& actions.len() > 0
            &&& actions[0] is Send
            &&& actions[0]->to == addr
            &&& c2.phase == (ClientPhase::Joined {
                sender_id: handshake::sender_at(h2, addr)->Some_0,
                session_id: h.session_id,
                params: h.params,
            })
        }),
{
    law_welcome_names_the_id(h, addr, c.hello, now_ms);
    law_host_stays_in_order(h, HostInput::Hello { addr, hello: c.hello, now_ms });
}

/// The client after clock ticks at the given times, and nothing else.
pub open spec fn client_after_ticks(c: ClientView, times: Seq<u64>) -> ClientView
    decreases times.len(),
{
    if times.len() == 0 {
        c
    } else {
        handshake::client_tick(client_after_ticks(c, times.drop_last()), times.last()).0
    }
}

proof fn lemma_unanswered_after_ticks(c: ClientView, times: Seq<u64>)
    requires
        c.phase matches ClientPhase::Joining { last_tx_ms, tries } && tries == 1 && spaced(
            last_tx_ms,
            times,
        ),
    ensures
        if times.len() < CONTROL_MAX_TRIES {
            client_after_ticks(c, times).phase == (ClientPhase::Joining {
                last_tx_ms: if times.len() == 0 {
                    c.phase->last_tx_ms
                } else {
                    times.last()
                },
                tries: (1 + times.len()) as u32,
            })
        } else {
            client_after_ticks(c, times).phase == ClientPhase::Failed(JoinFailure::Timeout)
        },
    decreases times.len(),
{
    if times.len() > 0 {
        lemma_spaced_front(c.phase->last_tx_ms, times);
        lemma_unanswered_after_ticks(c, times.drop_last());
        let k = times.len() - 1;
        assert(times[k] == times.last());
        if k > 0 {
            assert(times.drop_last().last() == times[k - 1]);
        }
    }
}

/// A client whose HELLOs go unanswered sends the next one at each of the first
/// `CONTROL_MAX_TRIES - 1` ticks that are at least `CONTROL_RETRY_MS` apart,
/// and gives up at the next.
pub proof fn law_client_gives_up(c: ClientView, times: Seq<u64>)
    requires
        c.phase matches ClientPhase::Joining { last_tx_ms, tries } && tries == 1 && spaced(
            last_tx_ms,
            times,
        ),
    ensures
        times.len() < CONTROL_MAX_TRIES ==> client_after_ticks(c, times).phase is Joining
            && client_after_ticks(c, times).phase->tries == 1 + times.len(),
        times.len() >= CONTROL_MAX_TRIES ==> client_after_ticks(c, times).phase
            == ClientPhase::Failed(JoinFailure::Timeout),
{
    lemma_unanswered_after_ticks(c, times);
}

/// Once a client has joined or failed, no tick and no packet changes that; a
/// second WELCOME makes it do nothing.
pub proof fn law_joining_happens_once(c: ClientView, control: ControlView, now_ms: u64)
    requires
        c.phase is Joined || c.phase is Failed,
    ensures
        handshake::client_tick(c, now_ms) == (c, Seq::<ClientActionView>::empty()),
        handshake::client_control(c, control).0 == c,
        control is Welcome ==> handshake::client_control(c, control).1 == Seq::<
            ClientActionView,
        >::empty(),
{
}

} // verus!
