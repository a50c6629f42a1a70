//! What the people in a room are told: who was let in, who has left, and who
//! is there.
use crate::addr::SocketAddr;
use crate::handshake;
use crate::handshake::{
    ClientActionView, ClientPhase, ClientView, HostActionView, HostView, JoinFailure, LeaveReason,
    SlotState, SlotView,
};
use crate::handshake_laws;
use crate::handshake_laws::HostInput;
use crate::packet::{ControlView, PlayerView};
use crate::{
    CONTROL_MAX_TRIES, CONTROL_RETRY_MS, HOST_SENDER_ID, MAX_CLIENTS, PEER_TIMEOUT_MS,
    PROTOCOL_VERSION,
};
use vstd::prelude::*;

verus! {

/// The list starts with the host and goes on, in the order of their ids, with
/// exactly the clients that hold a slot, each under its own name.
pub open spec fn lists_the_room(players: Seq<PlayerView>, h: HostView) -> bool {
    &&& players.len() > 0
    &&& players[0] == (PlayerView { id: HOST_SENDER_ID, name: h.host_name })
    &&& forall|k: int, l: int|
        0 <= k < l < players.len() ==> (#[trigger] players[k]).id < (#[trigger] players[l]).id
    &&& forall|k: int|
        1 <= k < players.len() ==> 1 <= (#[trigger] players[k]).id <= MAX_CLIENTS && (
        h.slots[players[k].id - 1] matches Some(s) && s.name == players[k].name)
    &&& forall|i: int|
        0 <= i < MAX_CLIENTS && (#[trigger] h.slots[i]) is Some ==> exists|k: int|
            1 <= k < players.len() && (#[trigger] players[k]).id == i + 1
}

/// A ROSTER to `to` that lists the room.
pub open spec fn tells(a: HostActionView, to: SocketAddr, h: HostView) -> bool {
    a matches HostActionView::Send { to: t, control: ControlView::Roster { players } } && t == to
        && lists_the_room(players, h)
}

/// A WELCOME to the client with the id `id`: it names that id, the session and
/// how its audio is coded, and lists the room.
pub open spec fn welcomes(a: HostActionView, to: SocketAddr, id: int, h: HostView) -> bool {
    a matches HostActionView::Send {
        to: t,
        control: ControlView::Welcome {
            assigned_id,
            session_id,
            sample_rate,
            frame_samples,
            codec,
            roster,
        },
    } && t == to && assigned_id == id && session_id == h.session_id && sample_rate
        == h.params.sample_rate && frame_samples == h.params.frame_samples && codec
        == h.params.codec && lists_the_room(roster, h)
}

/// Some action is a ROSTER to `to` that lists the room.
pub open spec fn told(actions: Seq<HostActionView>, to: SocketAddr, h: HostView) -> bool {
    exists|k: int| 0 <= k < actions.len() && tells(#[trigger] actions[k], to, h)
}

/// A ROSTER that lists the room, to someone in it who is not at `except`.
pub open spec fn tells_someone(a: HostActionView, h: HostView, except: Option<SocketAddr>) -> bool {
    exists|j: int|
        0 <= j < MAX_CLIENTS && (#[trigger] h.slots[j]) is Some && Some(h.slots[j]->Some_0.addr)
            != except && tells(a, h.slots[j]->Some_0.addr, h)
}

/// Everyone in the room is told who is in it, but for the one at `except`.
pub open spec fn everyone_is_told(
    actions: Seq<HostActionView>,
    h: HostView,
    except: Option<SocketAddr>,
) -> bool {
    forall|j: int|
        0 <= j < MAX_CLIENTS && (#[trigger] h.slots[j]) is Some && Some(h.slots[j]->Some_0.addr)
            != except ==> told(actions, h.slots[j]->Some_0.addr, h)
}

proof fn lemma_roster_lists_the_room(h: HostView)
    requires
        handshake_laws::host_ok(h),
    ensures
        lists_the_room(handshake::host_roster(h), h),
{
    handshake_laws::law_roster_lists_everyone_once(h);
    let r = handshake::host_roster(h);
    assert forall|i: int| 0 <= i < MAX_CLIENTS && (#[trigger] h.slots[i]) is Some implies exists|
        k: int,
    | 1 <= k < r.len() && (#[trigger] r[k]).id == i + 1 by {
        let p = PlayerView { id: (i + 1) as u16, name: h.slots[i]->Some_0.name };
        assert(r.contains(p));
        let k = choose|k: int| 0 <= k < r.len() && r[k] == p;
        assert(r[k].id == i + 1);
    }
}

/// What the list of ROSTERs to the first `n` slots holds.
proof fn lemma_roster_sends(h: HostView, except: Option<SocketAddr>, n: int)
    requires
        handshake_laws::host_ok(h),
        0 <= n <= MAX_CLIENTS,
    ensures
        forall|j: int|
            0 <= j < n && (#[trigger] h.slots[j]) is Some && Some(h.slots[j]->Some_0.addr) != except
                ==> told(handshake::roster_sends(h, except, n), h.slots[j]->Some_0.addr, h),
        forall|k: int|
            0 <= k < handshake::roster_sends(h, except, n).len() ==> tells_someone(
                #[trigger] handshake::roster_sends(h, except, n)[k],
                h,
                except,
            ),
        forall|k: int|
            0 <= k < handshake::roster_sends(h, except, n).len() ==> exists|j: int|
                0 <= j < n && (#[trigger] h.slots[j]) is Some && (#[trigger] handshake::roster_sends(
                    h,
                    except,
                    n,
                )[k])->to == h.slots[j]->Some_0.addr,
        forall|k: int, l: int|
            0 <= k < l < handshake::roster_sends(h, except, n).len()
                ==> #[trigger] handshake::roster_sends(h, except, n)[k]
                != #[trigger] handshake::roster_sends(h, except, n)[l],
    decreases n,
{
    if n > 0 {
        lemma_roster_sends(h, except, n - 1);
        lemma_roster_lists_the_room(h);
        let front = handshake::roster_sends(h, except, n - 1);
        let all = handshake::roster_sends(h, except, n);
        assert forall|j: int|
            0 <= j < n && (#[trigger] h.slots[j]) is Some && Some(h.slots[j]->Some_0.addr)
                != except implies told(all, h.slots[j]->Some_0.addr, h) by {
            let to = h.slots[j]->Some_0.addr;
            if j == n - 1 {
                assert(tells(all[front.len() as int], to, h));
            } else {
                assert(told(front, to, h));
                let k = choose|k: int| 0 <= k < front.len() && tells(#[trigger] front[k], to, h);
                assert(all[k] == front[k]);
            }
        }
        assert forall|k: int| 0 <= k < all.len() implies tells_someone(
            #[trigger] all[k],
            h,
            except,
        ) by {
            if k < front.len() {
                assert(all[k] == front[k]);
            } else {
                assert(h.slots[n - 1] is Some);
                assert(tells(all[k], h.slots[n - 1]->Some_0.addr, h));
            }
        }
        assert forall|k: int| 0 <= k < all.len() implies exists|j: int|
            0 <= j < n && (#[trigger] h.slots[j]) is Some && (#[trigger] all[k])->to
                == h.slots[j]->Some_0.addr by {
            if k < front.len() {
                assert(all[k] == front[k]);
                let j = choose|j: int|
                    0 <= j < n - 1 && (#[trigger] h.slots[j]) is Some && front[k]->to
                        == h.slots[j]->Some_0.addr;
                assert(h.slots[j] is Some);
            } else {
                assert(h.slots[n - 1] is Some);
            }
        }
        assert forall|k: int, l: int| 0 <= k < l < all.len() implies #[trigger] all[k]
            != #[trigger] all[l] by {
            assert(all[k] == front[k]);
            if l < front.len() {
                assert(all[l] == front[l]);
            } else {
                let j = choose|j: int|
                    0 <= j < n - 1 && (#[trigger] h.slots[j]) is Some && front[k]->to
                        == h.slots[j]->Some_0.addr;
                assert(h.slots[j] is Some && h.slots[n - 1] is Some);
            }
        }
    }
}

proof fn lemma_told_later(
    first: Seq<HostActionView>,
    later: Seq<HostActionView>,
    h: HostView,
    except: Option<SocketAddr>,
)
    requires
        everyone_is_told(later, h, except),
    ensures
        everyone_is_told(first + later, h, except),
{
    let all = first + later;
    assert forall|j: int|
        0 <= j < MAX_CLIENTS && (#[trigger] h.slots[j]) is Some && Some(h.slots[j]->Some_0.addr)
            != except implies told(all, h.slots[j]->Some_0.addr, h) by {
        let to = h.slots[j]->Some_0.addr;
        assert(told(later, to, h));
        let k = choose|k: int| 0 <= k < later.len() && tells(#[trigger] later[k], to, h);
        assert(all[first.len() + k] == later[k]);
    }
}

/// A BYE from the client in slot `i` frees that slot and no other. The host
/// announces once that this client has left, and everyone who is still there
/// gets one ROSTER that lists exactly those who are left. It does nothing else.
pub proof fn law_bye_is_told_to_the_rest(h: HostView, addr: SocketAddr, i: int)
    requires
        handshake_laws::host_ok(h),
        0 <= i < MAX_CLIENTS,
        h.slots[i] is Some,
        h.slots[i]->Some_0.addr == addr,
    ensures
        ({
            let (h2, actions) = handshake::host_bye(h, addr);
            &&& h2.slots.len() == MAX_CLIENTS
            &&& h2.slots[i] is None
            &&& forall|j: int| 0 <= j < MAX_CLIENTS && j != i ==> h2.slots[j] == h.slots[j]
            &&& actions.len() > 0
            &&& actions[0] == (HostActionView::ClientLeft {
                sender_id: (i + 1) as u16,
                reason: LeaveReason::Bye,
            })
            &&& everyone_is_told(actions, h2, None)
            &&& forall|k: int|
                1 <= k < actions.len() ==> tells_someone(#[trigger] actions[k], h2, None)
            &&& forall|k: int, l: int|
                0 <= k < l < actions.len() ==> #[trigger] actions[k] != #[trigger] actions[l]
        }),
{
    let (h2, actions) = handshake::host_bye(h, addr);
    handshake_laws::law_host_stays_in_order(h, HostInput::Bye { addr });
    handshake_laws::law_bye_frees_the_slot(h, addr);
    handshake_laws::law_ids_and_addresses_agree(h, (i + 1) as u16, addr);
    let left = handshake::byes(h.slots, addr, MAX_CLIENTS as int);
    let sends = handshake::roster_sends(h2, None, MAX_CLIENTS as int);
    assert(left.len() == 1) by {
        reveal_with_fuel(handshake::byes, 5);
    }
    lemma_roster_sends(h2, None, MAX_CLIENTS as int);
    lemma_told_later(left, sends, h2, None);
    assert forall|k: int| 1 <= k < actions.len() implies tells_someone(
        #[trigger] actions[k],
        h2,
        None,
    ) by {
        assert(actions[k] == sends[k - 1]);
    }
    assert forall|k: int, l: int| 0 <= k < l < actions.len() implies #[trigger] actions[k]
        != #[trigger] actions[l] by {
        assert(actions[l] == sends[l - 1]);
        if k > 0 {
            assert(actions[k] == sends[k - 1]);
        } else {
            assert(actions[l] is Send);
        }
    }
}

/// A BYE from an address that no client has changes nothing and nobody hears
/// of it.
pub proof fn law_bye_of_a_stranger_is_ignored(h: HostView, addr: SocketAddr)
    requires
        handshake_laws::host_ok(h),
        forall|i: int|
            0 <= i < MAX_CLIENTS ==> ((#[trigger] h.slots[i]) matches Some(s) ==> s.addr != addr),
    ensures
        handshake::host_bye(h, addr).0 == h,
        handshake::host_bye(h, addr).1.len() == 0,
{
    handshake_laws::law_bye_frees_the_slot(h, addr);
    handshake_laws::lemma_slot_of_addr(h.slots, addr, 0);
}

/// A newcomer who knows the room code gets the lowest free slot. It is
/// welcomed under the id of that slot, the host announces it once, and everyone
/// else gets one ROSTER that lists the room with the newcomer in it. The other
/// slots stay, and the host does nothing else.
pub proof fn law_newcomer_gets_the_lowest_free_slot(
    h: HostView,
    addr: SocketAddr,
    hello: ControlView,
    now_ms: u64,
    i: int,
)
    requires
        handshake_laws::host_ok(h),
        hello is Hello,
        hello->proto_version == PROTOCOL_VERSION,
        hello->room_code == h.room_code,
        forall|j: int|
            0 <= j < MAX_CLIENTS ==> ((#[trigger] h.slots[j]) matches Some(s) ==> s.addr != addr),
        0 <= i < MAX_CLIENTS,
        h.slots[i] is None,
        forall|j: int| 0 <= j < i ==> (#[trigger] h.slots[j]) is Some,
    ensures
        ({
            let (h2, actions) = handshake::host_hello(h, addr, hello, now_ms);
            &&& h2.slots.len() == MAX_CLIENTS
            &&& h2.slots[i] == Some(
                SlotView {
                    addr,
                    name: hello->Hello_name,
                    state: SlotState::Pending { welcome_seq: None, last_tx_ms: now_ms, tries: 1 },
                    last_heard_ms: now_ms,
                },
            )
            &&& forall|j: int| 0 <= j < MAX_CLIENTS && j != i ==> h2.slots[j] == h.slots[j]
            &&& actions.len() >= 2
            &&& welcomes(actions[0], addr, i + 1, h2)
            &&& actions[1] == (HostActionView::ClientJoined {
                sender_id: (i + 1) as u16,
                name: hello->Hello_name,
            })
            &&& everyone_is_told(actions, h2, Some(addr))
            &&& forall|k: int|
                2 <= k < actions.len() ==> tells_someone(#[trigger] actions[k], h2, Some(addr))
            &&& forall|k: int, l: int|
                0 <= k < l < actions.len() ==> #[trigger] actions[k] != #[trigger] actions[l]
        }),
{
    let (h2, actions) = handshake::host_hello(h, addr, hello, now_ms);
    handshake_laws::law_host_stays_in_order(h, HostInput::Hello { addr, hello, now_ms });
    handshake_laws::lemma_slot_of_addr(h.slots, addr, 0);
    handshake_laws::lemma_free_slot(h.slots, 0);
    lemma_roster_lists_the_room(h2);
    let first = seq![actions[0], actions[1]];
    let sends = handshake::roster_sends(h2, Some(addr), MAX_CLIENTS as int);
    lemma_roster_sends(h2, Some(addr), MAX_CLIENTS as int);
    lemma_told_later(first, sends, h2, Some(addr));
    assert(actions =~= first + sends);
    assert forall|k: int| 2 <= k < actions.len() implies tells_someone(
        #[trigger] actions[k],
        h2,
        Some(addr),
    ) by {
        assert(actions[k] == sends[k - 2]);
    }
    assert forall|k: int, l: int| 0 <= k < l < actions.len() implies #[trigger] actions[k]
        != #[trigger] actions[l] by {
        if l >= 2 {
            assert(actions[l] == sends[l - 2]);
            if k >= 2 {
                assert(actions[k] == sends[k - 2]);
            }
        }
    }
}

/// A HELLO from someone who is in the room already renews that slot and no
/// other, and is answered with a WELCOME under the same id. Nobody else hears
/// of it.
pub proof fn law_known_client_is_welcomed_again(
    h: HostView,
    addr: SocketAddr,
    hello: ControlView,
    now_ms: u64,
    i: int,
)
    requires
        handshake_laws::host_ok(h),
        hello is Hello,
        hello->proto_version == PROTOCOL_VERSION,
        hello->room_code == h.room_code,
        0 <= i < MAX_CLIENTS,
        h.slots[i] is Some,
        h.slots[i]->Some_0.addr == addr,
    ensures
        ({
            let (h2, actions) = handshake::host_hello(h, addr, hello, now_ms);
            &&& h2.slots.len() == MAX_CLIENTS
            &&& h2.slots[i] == Some(
                SlotView {
                    addr,
                    name: hello->Hello_name,
                    state: SlotState::Pending { welcome_seq: None, last_tx_ms: now_ms, tries: 1 },
                    last_heard_ms: now_ms,
                },
            )
            &&& forall|j: int| 0 <= j < MAX_CLIENTS && j != i ==> h2.slots[j] == h.slots[j]
            &&& actions.len() == 1
            &&& welcomes(actions[0], addr, i + 1, h2)
        }),
{
    let (h2, actions) = handshake::host_hello(h, addr, hello, now_ms);
    handshake_laws::law_host_stays_in_order(h, HostInput::Hello { addr, hello, now_ms });
    handshake_laws::lemma_slot_of_addr(h.slots, addr, 0);
    assert(handshake::taken_by(h.slots[i], addr));
    lemma_roster_lists_the_room(h2);
}

/// Nothing was heard of a client for more than `PEER_TIMEOUT_MS`.
pub open spec fn silent(s: SlotView, now_ms: u64) -> bool {
    now_ms - s.last_heard_ms > PEER_TIMEOUT_MS
}

/// The last WELCOME to a client went unacknowledged for `CONTROL_RETRY_MS`; so
/// many were sent.
pub open spec fn unanswered(s: SlotView, now_ms: u64) -> Option<u32> {
    match s.state {
        SlotState::Pending { last_tx_ms, tries, .. } => if now_ms - last_tx_ms
            >= CONTROL_RETRY_MS {
            Some(tries)
        } else {
            None
        },
        SlotState::Active => None,
    }
}

/// A clock tick frees the slot of a client that is silent or left
/// `CONTROL_MAX_TRIES` WELCOMEs unanswered. One that left fewer unanswered is
/// noted to have been sent one more, now. All others stay as they are.
pub proof fn law_tick_frees_or_keeps(h: HostView, now_ms: u64, i: int)
    requires
        handshake_laws::host_ok(h),
        0 <= i < MAX_CLIENTS,
    ensures
        ({
            let h2 = handshake::host_tick(h, now_ms).0;
            &&& h2.slots.len() == MAX_CLIENTS
            &&& match h.slots[i] {
                None => h2.slots[i] is None,
                Some(s) => match unanswered(s, now_ms) {
                    _ if silent(s, now_ms) => h2.slots[i] is None,
                    None => h2.slots[i] == Some(s),
                    Some(tries) if tries >= CONTROL_MAX_TRIES => h2.slots[i] is None,
                    Some(tries) => h2.slots[i] matches Some(s2) && s2 == (SlotView {
                        state: s2.state,
                        ..s
                    }) && s2.state == (SlotState::Pending {
                        welcome_seq: s.state->welcome_seq,
                        last_tx_ms: now_ms,
                        tries: (tries + 1) as u32,
                    }),
                },
            }
        }),
{
}

/// What a clock tick has to say of the client in slot `i` leaving.
pub open spec fn farewell(h: HostView, now_ms: u64, i: int) -> Option<HostActionView> {
    match h.slots[i] {
        None => None,
        Some(s) => if silent(s, now_ms) {
            Some(
                HostActionView::ClientLeft {
                    sender_id: (i + 1) as u16,
                    reason: LeaveReason::Timeout,
                },
            )
        } else if unanswered(s, now_ms) is Some && unanswered(s, now_ms)->Some_0
            >= CONTROL_MAX_TRIES {
            Some(
                HostActionView::ClientLeft {
                    sender_id: (i + 1) as u16,
                    reason: LeaveReason::WelcomeUnacked,
                },
            )
        } else {
            None
        },
    }
}

/// Whether the client in slot `i` is sent its WELCOME once more at a clock tick.
pub open spec fn welcome_due(h: HostView, now_ms: u64, i: int) -> bool {
    h.slots[i] matches Some(s) && !silent(s, now_ms) && (unanswered(s, now_ms) matches Some(tries)
        && tries < CONTROL_MAX_TRIES)
}

/// An action that says that one of the first `n` slots was given up.
pub open spec fn is_farewell(a: HostActionView, h: HostView, now_ms: u64, n: int) -> bool {
    exists|i: int| 0 <= i < n && #[trigger] farewell(h, now_ms, i) == Some(a)
}

/// An action that welcomes the client in one of the first `n` slots again.
pub open spec fn is_repeat(a: HostActionView, h: HostView, h2: HostView, now_ms: u64, n: int) -> bool {
    exists|i: int|
        0 <= i < n && #[trigger] welcome_due(h, now_ms, i) && welcomes(
            a,
            h.slots[i]->Some_0.addr,
            i + 1,
            h2,
        )
}

proof fn lemma_tick_drops(h: HostView, now_ms: u64, n: int)
    requires
        handshake_laws::host_ok(h),
        0 <= n <= MAX_CLIENTS,
    ensures
        ({
            let drops = handshake::tick_drops(h.slots, now_ms, n);
            &&& forall|i: int|
                0 <= i < n && (#[trigger] farewell(h, now_ms, i)) is Some ==> drops.contains(
                    farewell(h, now_ms, i)->Some_0,
                )
            &&& forall|k: int|
                0 <= k < drops.len() ==> is_farewell(#[trigger] drops[k], h, now_ms, n)
            &&& forall|k: int, l: int|
                0 <= k < l < drops.len() ==> #[trigger] drops[k] != #[trigger] drops[l]
        }),
    decreases n,
{
    if n > 0 {
        lemma_tick_drops(h, now_ms, n - 1);
        let front = handshake::tick_drops(h.slots, now_ms, n - 1);
        let drops = handshake::tick_drops(h.slots, now_ms, n);
        assert forall|i: int| 0 <= i < n && (
        #[trigger] farewell(h, now_ms, i)) is Some implies drops.contains(
            farewell(h, now_ms, i)->Some_0,
        ) by {
            let a = farewell(h, now_ms, i)->Some_0;
            if i == n - 1 {
                assert(drops[front.len() as int] == a);
            } else {
                assert(front.contains(a));
                let k = choose|k: int| 0 <= k < front.len() && front[k] == a;
                assert(drops[k] == a);
            }
        }
        assert forall|k: int| 0 <= k < drops.len() implies is_farewell(
            #[trigger] drops[k],
            h,
            now_ms,
            n,
        ) by {
            if k < front.len() {
                assert(drops[k] == front[k]);
                assert(is_farewell(front[k], h, now_ms, n - 1));
            } else {
                assert(farewell(h, now_ms, n - 1) == Some(drops[k]));
            }
        }
        assert forall|k: int, l: int| 0 <= k < l < drops.len() implies #[trigger] drops[k]
            != #[trigger] drops[l] by {
            assert(drops[k] == front[k]);
            assert(is_farewell(front[k], h, now_ms, n - 1));
            if l < front.len() {
                assert(drops[l] == front[l]);
            } else {
                assert(farewell(h, now_ms, n - 1) == Some(drops[l]));
            }
        }
    }
}

proof fn lemma_tick_resends(h: HostView, h2: HostView, now_ms: u64, n: int)
    requires
        handshake_laws::host_ok(h),
        handshake_laws::host_ok(h2),
        0 <= n <= MAX_CLIENTS,
    ensures
        ({
            let again = handshake::tick_resends(h.slots, h2, now_ms, n);
            &&& forall|i: int|
                0 <= i < n && #[trigger] welcome_due(h, now_ms, i) ==> exists|k: int|
                    0 <= k < again.len() && welcomes(
                        #[trigger] again[k],
                        h.slots[i]->Some_0.addr,
                        i + 1,
                        h2,
                    )
            &&& forall|k: int|
                0 <= k < again.len() ==> is_repeat(#[trigger] again[k], h, h2, now_ms, n)
            &&& forall|k: int, l: int|
                0 <= k < l < again.len() ==> #[trigger] again[k] != #[trigger] again[l]
        }),
    decreases n,
{
    if n > 0 {
        lemma_tick_resends(h, h2, now_ms, n - 1);
        lemma_roster_lists_the_room(h2);
        let front = handshake::tick_resends(h.slots, h2, now_ms, n - 1);
        let again = handshake::tick_resends(h.slots, h2, now_ms, n);
        assert(handshake::due(h.slots[n - 1], now_ms) == welcome_due(h, now_ms, n - 1));
        assert forall|i: int| 0 <= i < n && #[trigger] welcome_due(h, now_ms, i) implies exists|
            k: int,
        |
            0 <= k < again.len() && welcomes(
                #[trigger] again[k],
                h.slots[i]->Some_0.addr,
                i + 1,
                h2,
            ) by {
            let to = h.slots[i]->Some_0.addr;
            if i == n - 1 {
                assert(welcomes(again[front.len() as int], to, i + 1, h2));
            } else {
                let k = choose|k: int|
                    0 <= k < front.len() && welcomes(#[trigger] front[k], to, i + 1, h2);
                assert(again[k] == front[k]);
            }
        }
        assert forall|k: int| 0 <= k < again.len() implies is_repeat(
            #[trigger] again[k],
            h,
            h2,
            now_ms,
            n,
        ) by {
            if k < front.len() {
                assert(again[k] == front[k]);
                assert(is_repeat(front[k], h, h2, now_ms, n - 1));
            } else {
                assert(welcome_due(h, now_ms, n - 1));
            }
        }
        assert forall|k: int, l: int| 0 <= k < l < again.len() implies #[trigger] again[k]
            != #[trigger] again[l] by {
            assert(again[k] == front[k]);
            assert(is_repeat(front[k], h, h2, now_ms, n - 1));
            if l < front.len() {
                assert(again[l] == front[l]);
            }
        }
    }
}

/// At a clock tick the host announces once each client that it gives up, with
/// the reason. Each client whose WELCOME is due again gets it once. If anyone
/// was given up, everyone who is left gets one ROSTER that lists exactly those
/// who are left; else nobody gets one. The host does nothing else.
pub proof fn law_tick_is_told_to_the_rest(h: HostView, now_ms: u64)
    requires
        handshake_laws::host_ok(h),
    ensures
        ({
            let (h2, actions) = handshake::host_tick(h, now_ms);
            let dropped = exists|i: int|
                0 <= i < MAX_CLIENTS && (#[trigger] h.slots[i]) is Some && h2.slots[i] is None;
            &&& forall|i: int|
                0 <= i < MAX_CLIENTS && (#[trigger] farewell(h, now_ms, i)) is Some
                    ==> actions.contains(farewell(h, now_ms, i)->Some_0)
            &&& forall|i: int|
                0 <= i < MAX_CLIENTS && #[trigger] welcome_due(h, now_ms, i) ==> exists|k: int|
                    0 <= k < actions.len() && welcomes(
                        #[trigger] actions[k],
                        h.slots[i]->Some_0.addr,
                        i + 1,
                        h2,
                    )
            &&& dropped ==> everyone_is_told(actions, h2, None)
            &&& forall|k: int|
                0 <= k < actions.len() ==> {
                    ||| is_farewell(#[trigger] actions[k], h, now_ms, MAX_CLIENTS as int)
                    ||| is_repeat(actions[k], h, h2, now_ms, MAX_CLIENTS as int)
                    ||| dropped && tells_someone(actions[k], h2, None)
                }
            &&& forall|k: int, l: int|
                0 <= k < l < actions.len() ==> #[trigger] actions[k] != #[trigger] actions[l]
        }),
{
    let (h2, actions) = handshake::host_tick(h, now_ms);
    handshake_laws::law_host_stays_in_order(h, HostInput::Tick { now_ms });
    let n = MAX_CLIENTS as int;
    let drops = handshake::tick_drops(h.slots, now_ms, n);
    let again = handshake::tick_resends(h.slots, h2, now_ms, n);
    let sends = if drops.len() == 0 {
        Seq::empty()
    } else {
        handshake::roster_sends(h2, None, n)
    };
    lemma_tick_drops(h, now_ms, n);
    lemma_tick_resends(h, h2, now_ms, n);
    lemma_roster_sends(h2, None, n);
    assert(actions =~= drops + again + sends);
    assert forall|i: int| 0 <= i < MAX_CLIENTS implies (farewell(h, now_ms, i) is Some <==> (
    #[trigger] h.slots[i]) is Some && h2.slots[i] is None) by {
        law_tick_frees_or_keeps(h, now_ms, i);
    }
    let dropped = exists|i: int|
        0 <= i < MAX_CLIENTS && (#[trigger] h.slots[i]) is Some && h2.slots[i] is None;
    assert(dropped <==> drops.len() > 0) by {
        if drops.len() > 0 {
            assert(is_farewell(drops[0], h, now_ms, n));
            let i = choose|i: int|
                0 <= i < n && #[trigger] farewell(h, now_ms, i) == Some(drops[0]);
            assert(h.slots[i] is Some && h2.slots[i] is None);
        }
        if dropped {
            let i = choose|i: int|
                0 <= i < MAX_CLIENTS && (#[trigger] h.slots[i]) is Some && h2.slots[i] is None;
            assert(farewell(h, now_ms, i) is Some);
            assert(drops.contains(farewell(h, now_ms, i)->Some_0));
        }
    }
    assert forall|i: int| 0 <= i < MAX_CLIENTS && (
    #[trigger] farewell(h, now_ms, i)) is Some implies actions.contains(
        farewell(h, now_ms, i)->Some_0,
    ) by {
        let a = farewell(h, now_ms, i)->Some_0;
        let k = choose|k: int| 0 <= k < drops.len() && drops[k] == a;
        assert(actions[k] == a);
    }
    assert forall|i: int| 0 <= i < MAX_CLIENTS && #[trigger] welcome_due(
        h,
        now_ms,
        i,
    ) implies exists|k: int|
        0 <= k < actions.len() && welcomes(
            #[trigger] actions[k],
            h.slots[i]->Some_0.addr,
            i + 1,
            h2,
        ) by {
        let k = choose|k: int|
            0 <= k < again.len() && welcomes(
                #[trigger] again[k],
                h.slots[i]->Some_0.addr,
                i + 1,
                h2,
            );
        assert(actions[drops.len() + k] == again[k]);
    }
    if dropped {
        lemma_told_later(drops + again, sends, h2, None);
    }
    lemma_tick_actions(h, h2, now_ms, drops, again, sends);
}

proof fn lemma_tick_actions(
    h: HostView,
    h2: HostView,
    now_ms: u64,
    drops: Seq<HostActionView>,
    again: Seq<HostActionView>,
    sends: Seq<HostActionView>,
)
    requires
        forall|k: int|
            0 <= k < drops.len() ==> is_farewell(#[trigger] drops[k], h, now_ms, MAX_CLIENTS as int),
        forall|k: int|
            0 <= k < again.len() ==> is_repeat(
                #[trigger] again[k],
                h,
                h2,
                now_ms,
                MAX_CLIENTS as int,
            ),
        forall|k: int| 0 <= k < sends.len() ==> tells_someone(#[trigger] sends[k], h2, None),
        forall|k: int, l: int|
            0 <= k < l < drops.len() ==> #[trigger] drops[k] != #[trigger] drops[l],
        forall|k: int, l: int|
            0 <= k < l < again.len() ==> #[trigger] again[k] != #[trigger] again[l],
        forall|k: int, l: int|
            0 <= k < l < sends.len() ==> #[trigger] sends[k] != #[trigger] sends[l],
    ensures
        ({
            let actions = drops + again + sends;
            &&& forall|k: int|
                0 <= k < actions.len() ==> {
                    ||| is_farewell(#[trigger] actions[k], h, now_ms, MAX_CLIENTS as int)
                    ||| is_repeat(actions[k], h, h2, now_ms, MAX_CLIENTS as int)
                    ||| sends.len() > 0 && tells_someone(actions[k], h2, None)
                }
            &&& forall|k: int, l: int|
                0 <= k < l < actions.len() ==> #[trigger] actions[k] != #[trigger] actions[l]
        }),
{
    let actions = drops + again + sends;
    let a = drops.len() as int;
    let b = a + again.len();
    assert forall|k: int| 0 <= k < actions.len() implies {
        ||| is_farewell(#[trigger] actions[k], h, now_ms, MAX_CLIENTS as int)
        ||| is_repeat(actions[k], h, h2, now_ms, MAX_CLIENTS as int)
        ||| sends.len() > 0 && tells_someone(actions[k], h2, None)
    } by {
        if k < a {
            assert(actions[k] == drops[k]);
        } else if k < b {
            assert(actions[k] == again[k - a]);
        } else {
            assert(actions[k] == sends[k - b]);
        }
    }
    assert forall|k: int, l: int| 0 <= k < l < actions.len() implies #[trigger] actions[k]
        != #[trigger] actions[l] by {
        if l < a {
            assert(actions[l] == drops[l] && actions[k] == drops[k]);
        } else if l < b {
            assert(actions[l] == again[l - a]);
            if k < a {
                assert(is_farewell(drops[k], h, now_ms, MAX_CLIENTS as int));
                assert(is_repeat(again[l - a], h, h2, now_ms, MAX_CLIENTS as int));
            } else {
                assert(actions[k] == again[k - a]);
            }
        } else {
            assert(actions[l] == sends[l - b]);
            assert(tells_someone(sends[l - b], h2, None));
            if k < a {
                assert(is_farewell(drops[k], h, now_ms, MAX_CLIENTS as int));
            } else if k < b {
                assert(is_repeat(again[k - a], h, h2, now_ms, MAX_CLIENTS as int));
                assert(actions[k] == again[k - a]);
            } else {
                assert(actions[k] == sends[k - b]);
            }
        }
    }
}

/// The number of a WELCOME is noted for a client that awaits it, so that only
/// the acknowledgement of the last one counts. Nothing else changes.
pub proof fn law_welcome_number_is_noted(h: HostView, to: SocketAddr, seq: u16, i: int)
    requires
        handshake_laws::host_ok(h),
        0 <= i < MAX_CLIENTS,
    ensures
        ({
            let h2 = handshake::host_welcome_sent(h, to, seq);
            match h.slots[i] {
                Some(s) if s.addr == to && s.state is Pending => h2.slots[i] == Some(
                    SlotView {
                        state: SlotState::Pending {
                            welcome_seq: Some(seq),
                            last_tx_ms: s.state->last_tx_ms,
                            tries: s.state->tries,
                        },
                        ..s
                    },
                ),
                _ => h2.slots[i] == h.slots[i],
            }
        }),
{
}

/// The acknowledgement of the last WELCOME completes the join: the client is
/// active from then on, and no clock tick sends it another one. Any other
/// acknowledgement only shows that the client is there.
pub proof fn law_acknowledged_client_is_active(
    h: HostView,
    to: SocketAddr,
    seq: u16,
    acked_seq: u16,
    now_ms: u64,
    i: int,
)
    requires
        handshake_laws::host_ok(h),
        0 <= i < MAX_CLIENTS,
        h.slots[i] is Some,
        h.slots[i]->Some_0.addr == to,
    ensures
        ({
            let s = h.slots[i]->Some_0;
            let h2 = handshake::host_acked(
                handshake::host_welcome_sent(h, to, seq),
                to,
                acked_seq,
                now_ms,
            );
            &&& h2.slots[i] matches Some(s2) && s2.addr == to && s2.name == s.name
                && s2.last_heard_ms == now_ms
            &&& s.state is Pending ==> (h2.slots[i]->Some_0.state is Active <==> acked_seq == seq)
            &&& s.state is Active ==> h2.slots[i]->Some_0.state is Active
            &&& forall|j: int| 0 <= j < MAX_CLIENTS && j != i ==> h2.slots[j] == h.slots[j]
        }),
{
}

/// Whatever packet comes from a client, it is active from then on and was heard
/// of just now; its address and name stay, and so do all others.
pub proof fn law_any_packet_shows_a_client_is_there(
    h: HostView,
    sender_id: u16,
    now_ms: u64,
    j: int,
)
    requires
        handshake_laws::host_ok(h),
        0 <= j < MAX_CLIENTS,
    ensures
        ({
            let h2 = handshake::host_heard(h, sender_id, now_ms);
            match h.slots[j] {
                Some(s) if j + 1 == sender_id => h2.slots[j] == Some(
                    SlotView { state: SlotState::Active, last_heard_ms: now_ms, ..s },
                ),
                _ => h2.slots[j] == h.slots[j],
            }
        }),
{
}

/// A client is found by its id and by its address: the id of the client in
/// slot `i` is `i + 1`, and no other id or address leads there.
pub proof fn law_slots_have_ids(h: HostView, i: int, id: u16, addr: SocketAddr)
    requires
        handshake_laws::host_ok(h),
        0 <= i < MAX_CLIENTS,
    ensures
        id == i + 1 ==> handshake::client_of(h, id) == h.slots[i],
        id == 0 || id > MAX_CLIENTS ==> handshake::client_of(h, id) is None,
        h.slots[i] is Some ==> (handshake::sender_at(h, addr) == Some((i + 1) as u16) <==> addr
            == h.slots[i]->Some_0.addr),
        h.slots[i] is None ==> handshake::sender_at(h, addr) != Some((i + 1) as u16),
{
    handshake_laws::lemma_slot_of_addr(h.slots, addr, 0);
    assert(handshake::taken_by(h.slots[i], addr) <==> h.slots[i] is Some
        && h.slots[i]->Some_0.addr == addr);
}

/// The list of addresses has one entry for each slot that is taken, under the
/// id of that slot, in the order of the ids.
pub proof fn law_addresses_list_everyone_once(h: HostView)
    requires
        handshake_laws::host_ok(h),
    ensures
        ({
            let list = handshake::addrs_of(h.slots, MAX_CLIENTS as int);
            &&& forall|k: int|
                0 <= k < list.len() ==> 1 <= (#[trigger] list[k]).0 <= MAX_CLIENTS && (h.slots[
                list[k].0 - 1] matches Some(s) && s.addr == list[k].1)
            &&& forall|k: int, l: int|
                0 <= k < l < list.len() ==> (#[trigger] list[k]).0 < (#[trigger] list[l]).0
            &&& forall|i: int|
                0 <= i < MAX_CLIENTS && (#[trigger] h.slots[i]) is Some ==> list.contains(
                    ((i + 1) as u16, h.slots[i]->Some_0.addr),
                )
        }),
{
    lemma_addrs_of(h, MAX_CLIENTS as int);
}

proof fn lemma_addrs_of(h: HostView, n: int)
    requires
        handshake_laws::host_ok(h),
        0 <= n <= MAX_CLIENTS,
    ensures
        ({
            let list = handshake::addrs_of(h.slots, n);
            &&& forall|k: int|
                0 <= k < list.len() ==> 1 <= (#[trigger] list[k]).0 <= n && (h.slots[list[k].0
                    - 1] matches Some(s) && s.addr == list[k].1)
            &&& forall|k: int, l: int|
                0 <= k < l < list.len() ==> (#[trigger] list[k]).0 < (#[trigger] list[l]).0
            &&& forall|i: int|
                0 <= i < n && (#[trigger] h.slots[i]) is Some ==> list.contains(
                    ((i + 1) as u16, h.slots[i]->Some_0.addr),
                )
        }),
    decreases n,
{
    if n > 0 {
        lemma_addrs_of(h, n - 1);
        let front = handshake::addrs_of(h.slots, n - 1);
        let list = handshake::addrs_of(h.slots, n);
        assert forall|i: int| 0 <= i < n && (#[trigger] h.slots[i]) is Some implies list.contains(
            ((i + 1) as u16, h.slots[i]->Some_0.addr),
        ) by {
            let e = ((i + 1) as u16, h.slots[i]->Some_0.addr);
            if i == n - 1 {
                assert(list[front.len() as int] == e);
            } else {
                assert(front.contains(e));
                let k = choose|k: int| 0 <= k < front.len() && front[k] == e;
                assert(list[k] == e);
            }
        }
    }
}

/// A client that waits for its WELCOME sends its HELLO again each time
/// `CONTROL_RETRY_MS` have passed without one, and fails when it has sent
/// `CONTROL_MAX_TRIES`; until then it does nothing. Its HELLO never changes.
pub proof fn law_waiting_client_repeats_its_hello(
    c: ClientView,
    last_tx_ms: u64,
    tries: u32,
    now_ms: u64,
)
    requires
        c.phase == (ClientPhase::Joining { last_tx_ms, tries }),
    ensures
        ({
            let (c2, actions) = handshake::client_tick(c, now_ms);
            &&& c2.hello == c.hello
            &&& now_ms - last_tx_ms < CONTROL_RETRY_MS ==> c2.phase == c.phase && actions.len() == 0
            &&& now_ms - last_tx_ms >= CONTROL_RETRY_MS && tries < CONTROL_MAX_TRIES ==> c2.phase
                == (ClientPhase::Joining { last_tx_ms: now_ms, tries: (tries + 1) as u32 })
                && actions.len() == 1 && actions[0] == ClientActionView::Send(c.hello)
            &&& now_ms - last_tx_ms >= CONTROL_RETRY_MS && tries >= CONTROL_MAX_TRIES ==> c2.phase
                == ClientPhase::Failed(JoinFailure::Timeout) && actions.len() == 1 && actions[0]
                == ClientActionView::Failed(JoinFailure::Timeout)
        }),
{
}

/// A waiting client that is let in joins under what the WELCOME says, starts
/// its audio with just that, and takes over the list of players. One that is
/// refused fails for the reason that the DENY gives.
pub proof fn law_waiting_client_does_as_it_is_told(c: ClientView, control: ControlView)
    requires
        c.phase is Joining,
    ensures
        ({
            let (c2, actions) = handshake::client_control(c, control);
            &&& c2.hello == c.hello
            &&& match control {
                ControlView::Welcome {
                    assigned_id,
                    session_id,
                    sample_rate,
                    frame_samples,
                    codec,
                    roster,
                } => {
                    &&& c2.phase matches ClientPhase::Joined { sender_id, session_id: s, params }
                        && sender_id == assigned_id && s == session_id && params.sample_rate
                        == sample_rate && params.frame_samples == frame_samples && params.codec
                        == codec
                    &&& actions.len() == 2
                    &&& actions[0] == (ClientActionView::StartAudio {
                        sender_id: assigned_id,
                        session_id,
                        params: c2.phase->params,
                    })
                    &&& actions[1] == ClientActionView::RosterUpdate(roster)
                },
                ControlView::Deny { reason } => {
                    &&& c2.phase == ClientPhase::Failed(JoinFailure::Denied(reason))
                    &&& actions.len() == 1
                    &&& actions[0] == ClientActionView::Failed(JoinFailure::Denied(reason))
                },
                _ => c2.phase == c.phase && actions.len() == 0,
            }
        }),
{
}

/// A client that has joined takes over each new list of players; a client that
/// has neither asked nor joined does not listen, and a tick does nothing to it.
pub proof fn law_only_a_joined_client_follows_the_roster(
    c: ClientView,
    control: ControlView,
    now_ms: u64,
)
    requires
        !(c.phase is Joining),
    ensures
        ({
            let (c2, actions) = handshake::client_control(c, control);
            &&& c2 == c
            &&& control is Roster && c.phase is Joined ==> actions.len() == 1 && actions[0]
                == ClientActionView::RosterUpdate(control->players)
            &&& !(control is Roster && c.phase is Joined) ==> actions.len() == 0
        }),
        handshake::client_tick(c, now_ms).0 == c,
        handshake::client_tick(c, now_ms).1.len() == 0,
{
}

} // verus!
