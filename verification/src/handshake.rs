//! Session join/leave state machines for both sides of the handshake.
//!
//! Pure logic: no sockets, no timers. The embedding code feeds in parsed
//! control packets and clock ticks (`now_ms` from any monotonic source) and
//! executes the returned actions (send a packet, start audio, drop a slot).
//!
//! Reliability model:
//! - `HELLO` is retransmitted by the client until it gets `WELCOME`/`DENY`
//!   (those replies are its implicit ack).
//! - `WELCOME` is retransmitted by the host until the client acks it, either
//!   with an `ACK` packet or implicitly by audio arriving from that sender.
//! - Everything else is sent once; the machines here only decide *what* to
//!   send and *when* to give up.
use crate::addr::SocketAddr;
use crate::packet;
use crate::packet::{clone_players, Codec, Control, ControlView, DenyReason, PlayerInfo, PlayerView};
use crate::{
    CONTROL_MAX_TRIES, CONTROL_RETRY_MS, HOST_SENDER_ID, MAX_CLIENTS, PEER_TIMEOUT_MS,
    PROTOCOL_VERSION, ROOM_CODE_LEN,
};
use vstd::prelude::*;

verus! {

/// Audio parameters fixed by the host for the whole session.
#[derive(Debug, Clone, Copy, PartialEq, Eq, Structural)]
pub struct SessionParams {
    pub sample_rate: u32,
    pub frame_samples: u16,
    pub codec: Codec,
}

impl Default for SessionParams {
    fn default() -> (p: Self)
        ensures
            p.sample_rate == 48_000,
            p.frame_samples == 120,
            p.codec == Codec::Opus,
    {
        SessionParams { sample_rate: 48_000, frame_samples: 120, codec: Codec::Opus }
    }
}

/// The time from `then` to `now`, nothing if the clock reads earlier.
pub open spec fn elapsed(now: u64, then: u64) -> int {
    if now < then {
        0
    } else {
        now - then
    }
}

// ---------------------------------------------------------------------------
// Client side
// ---------------------------------------------------------------------------
#[derive(Debug, Clone, Copy, PartialEq, Eq, Structural)]
pub enum JoinFailure {
    Denied(DenyReason),
    Timeout,
}

#[derive(Debug, Clone, Copy, PartialEq, Eq, Structural)]
pub enum ClientPhase {
    Idle,
    Joining { last_tx_ms: u64, tries: u32 },
    Joined { sender_id: u16, session_id: u16, params: SessionParams },
    Failed(JoinFailure),
}

#[derive(Debug, Clone, PartialEq)]
pub enum ClientAction {
    /// Send this control packet to the host.
    Send(Control),
    /// Handshake completed: bring up the audio path.
    StartAudio { sender_id: u16, session_id: u16, params: SessionParams },
    /// Roster changed (initial roster arrives inside WELCOME).
    RosterUpdate(Vec<PlayerInfo>),
    /// Handshake failed permanently; tear down.
    Failed(JoinFailure),
}

/// A client action as a mathematical value.
#[verifier::ext_equal]
pub enum ClientActionView {
    Send(ControlView),
    StartAudio { sender_id: u16, session_id: u16, params: SessionParams },
    RosterUpdate(Seq<PlayerView>),
    Failed(JoinFailure),
}

impl View for ClientAction {
    type V = ClientActionView;

    open spec fn view(&self) -> ClientActionView {
        match *self {
            ClientAction::Send(c) => ClientActionView::Send(c@),
            ClientAction::StartAudio { sender_id, session_id, params } => {
                ClientActionView::StartAudio { sender_id, session_id, params }
            },
            ClientAction::RosterUpdate(players) => {
                ClientActionView::RosterUpdate(packet::players_view(players@))
            },
            ClientAction::Failed(f) => ClientActionView::Failed(f),
        }
    }
}

/// A list of client actions as a mathematical value.
pub open spec fn client_actions_view(actions: Seq<ClientAction>) -> Seq<ClientActionView> {
    Seq::new(actions.len(), |i: int| actions[i]@)
}

#[derive(Debug)]
pub struct ClientHandshake {
    phase: ClientPhase,
    hello: Control,
}

/// The state of a client's handshake.
#[verifier::ext_equal]
pub struct ClientView {
    pub phase: ClientPhase,
    /// The HELLO that the client asks to join with.
    pub hello: ControlView,
}

impl View for ClientHandshake {
    type V = ClientView;

    closed spec fn view(&self) -> ClientView {
        ClientView { phase: self.phase, hello: self.hello@ }
    }
}

/// The HELLO of this version of the protocol: all three codecs, both frame
/// sizes.
pub open spec fn hello_view(room_code: Seq<u8>, name: Seq<char>) -> ControlView {
    ControlView::Hello {
        proto_version: PROTOCOL_VERSION,
        room_code,
        name,
        codec_mask: 0b0000_0111,
        frame_mask: 0b0000_0011,
    }
}

/// What a clock tick does to a client and makes it do.
pub open spec fn client_tick(c: ClientView, now_ms: u64) -> (ClientView, Seq<ClientActionView>) {
    match c.phase {
        ClientPhase::Joining { last_tx_ms, tries } => {
            if elapsed(now_ms, last_tx_ms) < CONTROL_RETRY_MS {
                (c, Seq::empty())
            } else if tries >= CONTROL_MAX_TRIES {
                (
                    ClientView { phase: ClientPhase::Failed(JoinFailure::Timeout), ..c },
                    seq![ClientActionView::Failed(JoinFailure::Timeout)],
                )
            } else {
                (
                    ClientView {
                        phase: ClientPhase::Joining {
                            last_tx_ms: now_ms,
                            tries: (tries + 1) as u32,
                        },
                        ..c
                    },
                    seq![ClientActionView::Send(c.hello)],
                )
            }
        },
        _ => (c, Seq::empty()),
    }
}

/// What a control packet from the host does to a client and makes it do.
pub open spec fn client_control(c: ClientView, control: ControlView) -> (
    ClientView,
    Seq<ClientActionView>,
) {
    match (c.phase, control) {
        (
            ClientPhase::Joining { .. },
            ControlView::Welcome {
                assigned_id,
                session_id,
                sample_rate,
                frame_samples,
                codec,
                roster,
            },
        ) => {
            let params = SessionParams { sample_rate, frame_samples, codec };
            (
                ClientView {
                    phase: ClientPhase::Joined { sender_id: assigned_id, session_id, params },
                    ..c
                },
                seq![
                    ClientActionView::StartAudio { sender_id: assigned_id, session_id, params },
                    ClientActionView::RosterUpdate(roster),
                ],
            )
        },
        (ClientPhase::Joining { .. }, ControlView::Deny { reason }) => (
            ClientView { phase: ClientPhase::Failed(JoinFailure::Denied(reason)), ..c },
            seq![ClientActionView::Failed(JoinFailure::Denied(reason))],
        ),
        (ClientPhase::Joined { .. }, ControlView::Roster { players }) => (
            c,
            seq![ClientActionView::RosterUpdate(players)],
        ),
        _ => (c, Seq::empty()),
    }
}

impl ClientHandshake {
    pub fn new(room_code: [u8; ROOM_CODE_LEN], name: String) -> (c: Self)
        ensures
            c@ == (ClientView {
                phase: ClientPhase::Idle,
                hello: hello_view(room_code@, name@),
            }),
    {
        ClientHandshake {
            phase: ClientPhase::Idle,
            hello: Control::Hello {
                proto_version: PROTOCOL_VERSION,
                room_code,
                name,
                codec_mask: 0b0000_0111,
                frame_mask: 0b0000_0011,
            },
        }
    }

    pub fn phase(&self) -> (p: &ClientPhase)
        ensures
            *p == self@.phase,
    {
        &self.phase
    }

    /// Kick off the join. Returns the first HELLO to send.
    pub fn start(&mut self, now_ms: u64) -> (actions: Vec<ClientAction>)
        ensures
            final(self)@ == (ClientView {
                phase: ClientPhase::Joining { last_tx_ms: now_ms, tries: 1 },
                hello: old(self)@.hello,
            }),
            client_actions_view(actions@) == seq![ClientActionView::Send(old(self)@.hello)],
    {
        self.phase = ClientPhase::Joining { last_tx_ms: now_ms, tries: 1 };
        let mut actions: Vec<ClientAction> = Vec::new();
        actions.push(ClientAction::Send(self.hello.clone()));
        assert(client_actions_view(actions@) =~= seq![ClientActionView::Send(self.hello@)]);
        actions
    }

    /// Clock tick; drives HELLO retransmission and the give-up timeout.
    pub fn tick(&mut self, now_ms: u64) -> (actions: Vec<ClientAction>)
        ensures
            final(self)@ == client_tick(old(self)@, now_ms).0,
            client_actions_view(actions@) == client_tick(old(self)@, now_ms).1,
    {
        let mut actions: Vec<ClientAction> = Vec::new();
        if let ClientPhase::Joining { last_tx_ms, tries } = self.phase {
            if now_ms.saturating_sub(last_tx_ms) >= CONTROL_RETRY_MS {
                if tries >= CONTROL_MAX_TRIES {
                    self.phase = ClientPhase::Failed(JoinFailure::Timeout);
                    actions.push(ClientAction::Failed(JoinFailure::Timeout));
                } else {
                    self.phase = ClientPhase::Joining { last_tx_ms: now_ms, tries: tries + 1 };
                    actions.push(ClientAction::Send(self.hello.clone()));
                }
            }
        }
        assert(client_actions_view(actions@) =~= client_tick(old(self)@, now_ms).1);
        actions
    }

    /// A control packet arrived from the host.
    pub fn on_control(&mut self, control: &Control) -> (actions: Vec<ClientAction>)
        ensures
            final(self)@ == client_control(old(self)@, control@).0,
            client_actions_view(actions@) == client_control(old(self)@, control@).1,
    {
        let mut actions: Vec<ClientAction> = Vec::new();
        match (self.phase, control) {
            (
                ClientPhase::Joining { .. },
                Control::Welcome {
                    assigned_id,
                    session_id,
                    sample_rate,
                    frame_samples,
                    codec,
                    roster,
                },
            ) => {
                let params = SessionParams {
                    sample_rate: *sample_rate,
                    frame_samples: *frame_samples,
                    codec: *codec,
                };
                self.phase =
                ClientPhase::Joined { sender_id: *assigned_id, session_id: *session_id, params };
                actions.push(
                    ClientAction::StartAudio {
                        sender_id: *assigned_id,
                        session_id: *session_id,
                        params,
                    },
                );
                actions.push(ClientAction::RosterUpdate(clone_players(roster)));
            },
            (ClientPhase::Joining { .. }, Control::Deny { reason }) => {
                self.phase = ClientPhase::Failed(JoinFailure::Denied(*reason));
                actions.push(ClientAction::Failed(JoinFailure::Denied(*reason)));
            },
            (ClientPhase::Joined { .. }, Control::Roster { players }) => {
                actions.push(ClientAction::RosterUpdate(clone_players(players)));
            },
            _ => {},
        }
        assert(client_actions_view(actions@) =~= client_control(old(self)@, control@).1);
        actions
    }
}

// ---------------------------------------------------------------------------
// Host side
// ---------------------------------------------------------------------------
#[derive(Debug, Clone, Copy, PartialEq, Eq, Structural)]
pub enum LeaveReason {
    Bye,
    Timeout,
    WelcomeUnacked,
}

#[derive(Debug, Clone, Copy, PartialEq, Eq, Structural)]
pub enum SlotState {
    /// WELCOME sent, awaiting ack (explicit ACK or first audio).
    Pending { welcome_seq: Option<u16>, last_tx_ms: u64, tries: u32 },
    Active,
}

#[derive(Debug)]
struct Slot {
    addr: SocketAddr,
    name: String,
    state: SlotState,
    last_heard_ms: u64,
}

/// A connected client as a mathematical value.
#[verifier::ext_equal]
pub struct SlotView {
    pub addr: SocketAddr,
    pub name: Seq<char>,
    pub state: SlotState,
    pub last_heard_ms: u64,
}

impl View for Slot {
    type V = SlotView;

    closed spec fn view(&self) -> SlotView {
        SlotView {
            addr: self.addr,
            name: self.name@,
            state: self.state,
            last_heard_ms: self.last_heard_ms,
        }
    }
}

#[derive(Debug, Clone, PartialEq)]
pub enum HostAction {
    /// Send this control to one address. The embedder must report the header
    /// seq it stamped on a WELCOME back via `welcome_sent` so acks can be
    /// matched.
    Send { to: SocketAddr, control: Control },
    /// A client finished the handshake (audio slots may now activate).
    ClientJoined { sender_id: u16, name: String },
    /// A client left; free its audio slot.
    ClientLeft { sender_id: u16, reason: LeaveReason },
}

/// A host action as a mathematical value.
#[verifier::ext_equal]
pub enum HostActionView {
    Send { to: SocketAddr, control: ControlView },
    ClientJoined { sender_id: u16, name: Seq<char> },
    ClientLeft { sender_id: u16, reason: LeaveReason },
}

impl View for HostAction {
    type V = HostActionView;

    open spec fn view(&self) -> HostActionView {
        match *self {
            HostAction::Send { to, control } => HostActionView::Send { to, control: control@ },
            HostAction::ClientJoined { sender_id, name } => {
                HostActionView::ClientJoined { sender_id, name: name@ }
            },
            HostAction::ClientLeft { sender_id, reason } => {
                HostActionView::ClientLeft { sender_id, reason }
            },
        }
    }
}

/// A list of host actions as a mathematical value.
pub open spec fn host_actions_view(actions: Seq<HostAction>) -> Seq<HostActionView> {
    Seq::new(actions.len(), |i: int| actions[i]@)
}

#[derive(Debug)]
pub struct HostHandshake {
    room_code: [u8; ROOM_CODE_LEN],
    session_id: u16,
    params: SessionParams,
    host_name: String,
    slots: [Option<Slot>; MAX_CLIENTS],
}

/// The state of the host's side of all handshakes. Slot `i` belongs to the
/// client with sender id `i + 1`.
#[verifier::ext_equal]
pub struct HostView {
    pub room_code: Seq<u8>,
    pub session_id: u16,
    pub params: SessionParams,
    pub host_name: Seq<char>,
    pub slots: Seq<Option<SlotView>>,
}

spec fn slot_view(s: Option<Slot>) -> Option<SlotView> {
    match s {
        None => None,
        Some(s) => Some(s@),
    }
}

impl View for HostHandshake {
    type V = HostView;

    closed spec fn view(&self) -> HostView {
        HostView {
            room_code: self.room_code@,
            session_id: self.session_id,
            params: self.params,
            host_name: self.host_name@,
            slots: Seq::new(MAX_CLIENTS as nat, |i: int| slot_view(self.slots@[i])),
        }
    }
}

/// The players in the first `n` slots.
pub open spec fn roster_entries(slots: Seq<Option<SlotView>>, n: int) -> Seq<PlayerView>
    decreases n,
{
    if n <= 0 {
        Seq::empty()
    } else {
        match slots[n - 1] {
            None => roster_entries(slots, n - 1),
            Some(s) => roster_entries(slots, n - 1).push(
                PlayerView { id: n as u16, name: s.name },
            ),
        }
    }
}

/// Everyone in the room: the host, then the clients in the order of their ids.
pub open spec fn host_roster(h: HostView) -> Seq<PlayerView> {
    seq![PlayerView { id: HOST_SENDER_ID, name: h.host_name }] + roster_entries(
        h.slots,
        MAX_CLIENTS as int,
    )
}

/// Whether a slot is taken by the client at `addr`.
pub open spec fn taken_by(slot: Option<SlotView>, addr: SocketAddr) -> bool {
    slot matches Some(s) && s.addr == addr
}

/// The first slot from `i` on that is taken by the client at `addr`.
pub open spec fn slot_of_addr(slots: Seq<Option<SlotView>>, addr: SocketAddr, i: int) -> Option<int>
    decreases slots.len() - i,
{
    if i >= slots.len() {
        None
    } else if taken_by(slots[i], addr) {
        Some(i)
    } else {
        slot_of_addr(slots, addr, i + 1)
    }
}

/// The first free slot from `i` on.
pub open spec fn free_slot(slots: Seq<Option<SlotView>>, i: int) -> Option<int>
    decreases slots.len() - i,
{
    if i >= slots.len() {
        None
    } else if slots[i] is None {
        Some(i)
    } else {
        free_slot(slots, i + 1)
    }
}

/// The id of the client at `addr`.
pub open spec fn sender_at(h: HostView, addr: SocketAddr) -> Option<u16> {
    match slot_of_addr(h.slots, addr, 0) {
        None => None,
        Some(i) => Some((i + 1) as u16),
    }
}

/// The client with the id `sender_id`.
pub open spec fn client_of(h: HostView, sender_id: u16) -> Option<SlotView> {
    if 1 <= sender_id <= MAX_CLIENTS {
        h.slots[sender_id - 1]
    } else {
        None
    }
}

/// Ids and addresses of the clients in the first `n` slots.
pub open spec fn addrs_of(slots: Seq<Option<SlotView>>, n: int) -> Seq<(u16, SocketAddr)>
    decreases n,
{
    if n <= 0 {
        Seq::empty()
    } else {
        match slots[n - 1] {
            None => addrs_of(slots, n - 1),
            Some(s) => addrs_of(slots, n - 1).push((n as u16, s.addr)),
        }
    }
}

/// The WELCOME for the client in a slot.
pub open spec fn welcome_view(h: HostView, slot: int) -> ControlView {
    ControlView::Welcome {
        assigned_id: (slot + 1) as u16,
        session_id: h.session_id,
        sample_rate: h.params.sample_rate,
        frame_samples: h.params.frame_samples,
        codec: h.params.codec,
        roster: host_roster(h),
    }
}

/// The ROSTER to each client in the first `n` slots but the one at `except`.
pub open spec fn roster_sends(h: HostView, except: Option<SocketAddr>, n: int) -> Seq<
    HostActionView,
>
    decreases n,
{
    if n <= 0 {
        Seq::empty()
    } else {
        match h.slots[n - 1] {
            Some(s) if Some(s.addr) != except => roster_sends(h, except, n - 1).push(
                HostActionView::Send {
                    to: s.addr,
                    control: ControlView::Roster { players: host_roster(h) },
                },
            ),
            _ => roster_sends(h, except, n - 1),
        }
    }
}

/// A client that was just sent its first WELCOME.
pub open spec fn fresh_slot(addr: SocketAddr, name: Seq<char>, now_ms: u64) -> SlotView {
    SlotView {
        addr,
        name,
        state: SlotState::Pending { welcome_seq: None, last_tx_ms: now_ms, tries: 1 },
        last_heard_ms: now_ms,
    }
}

/// The answer to a HELLO that is refused.
pub open spec fn denial(addr: SocketAddr, reason: DenyReason) -> Seq<HostActionView> {
    seq![HostActionView::Send { to: addr, control: ControlView::Deny { reason } }]
}

/// What a HELLO from `addr` does to the host and makes it do.
pub open spec fn host_hello(h: HostView, addr: SocketAddr, hello: ControlView, now_ms: u64) -> (
    HostView,
    Seq<HostActionView>,
) {
    match hello {
        ControlView::Hello { proto_version, room_code, name, .. } => {
            if proto_version != PROTOCOL_VERSION {
                (h, denial(addr, DenyReason::VersionMismatch))
            } else if room_code != h.room_code {
                (h, denial(addr, DenyReason::BadRoomCode))
            } else {
                match slot_of_addr(h.slots, addr, 0) {
                    Some(i) => {
                        let h2 = HostView {
                            slots: h.slots.update(i, Some(fresh_slot(addr, name, now_ms))),
                            ..h
                        };
                        (h2, seq![HostActionView::Send { to: addr, control: welcome_view(h2, i) }])
                    },
                    None => match free_slot(h.slots, 0) {
                        None => (h, denial(addr, DenyReason::RoomFull)),
                        Some(i) => {
                            let h2 = HostView {
                                slots: h.slots.update(i, Some(fresh_slot(addr, name, now_ms))),
                                ..h
                            };
                            (
                                h2,
                                seq![
                                    HostActionView::Send { to: addr, control: welcome_view(h2, i) },
                                    HostActionView::ClientJoined {
                                        sender_id: (i + 1) as u16,
                                        name,
                                    },
                                ] + roster_sends(h2, Some(addr), MAX_CLIENTS as int),
                            )
                        },
                    },
                }
            }
        },
        _ => (h, Seq::empty()),
    }
}

/// A slot after the WELCOME to `to` went out with the header number `seq`.
pub open spec fn slot_welcome_sent(slot: Option<SlotView>, to: SocketAddr, seq: u16) -> Option<
    SlotView,
> {
    match slot {
        Some(s) => match s.state {
            SlotState::Pending { last_tx_ms, tries, .. } if s.addr == to => Some(
                SlotView {
                    state: SlotState::Pending { welcome_seq: Some(seq), last_tx_ms, tries },
                    ..s
                },
            ),
            _ => slot,
        },
        None => None,
    }
}

/// The host after the WELCOME to `to` went out with the header number `seq`.
pub open spec fn host_welcome_sent(h: HostView, to: SocketAddr, seq: u16) -> HostView {
    HostView {
        slots: Seq::new(h.slots.len(), |i: int| slot_welcome_sent(h.slots[i], to, seq)),
        ..h
    }
}

/// A slot after an ACK from `addr`.
pub open spec fn slot_acked(
    slot: Option<SlotView>,
    addr: SocketAddr,
    acked_seq: u16,
    now_ms: u64,
) -> Option<SlotView> {
    match slot {
        Some(s) if s.addr == addr => Some(
            SlotView {
                last_heard_ms: now_ms,
                state: match s.state {
                    SlotState::Pending { welcome_seq, .. } if welcome_seq == Some(acked_seq) => {
                        SlotState::Active
                    },
                    _ => s.state,
                },
                ..s
            },
        ),
        _ => slot,
    }
}

/// The host after an ACK from `addr`.
pub open spec fn host_acked(
    h: HostView,
    addr: SocketAddr,
    acked_seq: u16,
    now_ms: u64,
) -> HostView {
    HostView {
        slots: Seq::new(h.slots.len(), |i: int| slot_acked(h.slots[i], addr, acked_seq, now_ms)),
        ..h
    }
}

/// The host after any packet from the client `sender_id`.
pub open spec fn host_heard(h: HostView, sender_id: u16, now_ms: u64) -> HostView {
    match client_of(h, sender_id) {
        None => h,
        Some(s) => HostView {
            slots: h.slots.update(
                sender_id - 1,
                Some(SlotView { state: SlotState::Active, last_heard_ms: now_ms, ..s }),
            ),
            ..h
        },
    }
}

/// The announcements that the clients at `addr` in the first `n` slots left.
pub open spec fn byes(slots: Seq<Option<SlotView>>, addr: SocketAddr, n: int) -> Seq<HostActionView>
    decreases n,
{
    if n <= 0 {
        Seq::empty()
    } else if taken_by(slots[n - 1], addr) {
        byes(slots, addr, n - 1).push(
            HostActionView::ClientLeft { sender_id: n as u16, reason: LeaveReason::Bye },
        )
    } else {
        byes(slots, addr, n - 1)
    }
}

/// What a BYE from `addr` does to the host and makes it do.
pub open spec fn host_bye(h: HostView, addr: SocketAddr) -> (HostView, Seq<HostActionView>) {
    let h2 = HostView {
        slots: Seq::new(
            h.slots.len(),
            |i: int|
                if taken_by(h.slots[i], addr) {
                    None
                } else {
                    h.slots[i]
                },
        ),
        ..h
    };
    let left = byes(h.slots, addr, MAX_CLIENTS as int);
    if left.len() == 0 {
        (h2, left)
    } else {
        (h2, left + roster_sends(h2, None, MAX_CLIENTS as int))
    }
}

/// What a clock tick means for one connected client.
pub enum Verdict {
    Keep,
    /// Silent for too long.
    TimedOut,
    /// The last WELCOME went unacknowledged.
    GaveUp,
    /// Send the WELCOME again.
    Resend,
}

pub open spec fn verdict(s: SlotView, now_ms: u64) -> Verdict {
    if elapsed(now_ms, s.last_heard_ms) > PEER_TIMEOUT_MS {
        Verdict::TimedOut
    } else {
        match s.state {
            SlotState::Pending { last_tx_ms, tries, .. } => {
                if elapsed(now_ms, last_tx_ms) < CONTROL_RETRY_MS {
                    Verdict::Keep
                } else if tries >= CONTROL_MAX_TRIES {
                    Verdict::GaveUp
                } else {
                    Verdict::Resend
                }
            },
            SlotState::Active => Verdict::Keep,
        }
    }
}

/// Whether the WELCOME to the client in a slot is due again.
pub open spec fn due(slot: Option<SlotView>, now_ms: u64) -> bool {
    slot matches Some(s) && verdict(s, now_ms) is Resend
}

/// A slot after a clock tick.
pub open spec fn slot_ticked(slot: Option<SlotView>, now_ms: u64) -> Option<SlotView> {
    match slot {
        None => None,
        Some(s) => match verdict(s, now_ms) {
            Verdict::Keep => slot,
            Verdict::TimedOut => None,
            Verdict::GaveUp => None,
            Verdict::Resend => match s.state {
                SlotState::Pending { welcome_seq, tries, .. } => Some(
                    SlotView {
                        state: SlotState::Pending {
                            welcome_seq,
                            last_tx_ms: now_ms,
                            tries: (tries + 1) as u32,
                        },
                        ..s
                    },
                ),
                SlotState::Active => slot,
            },
        },
    }
}

/// The announcements of the clients in the first `n` slots that a clock tick
/// drops.
pub open spec fn tick_drops(slots: Seq<Option<SlotView>>, now_ms: u64, n: int) -> Seq<
    HostActionView,
>
    decreases n,
{
    if n <= 0 {
        Seq::empty()
    } else {
        let front = tick_drops(slots, now_ms, n - 1);
        match slots[n - 1] {
            None => front,
            Some(s) => match verdict(s, now_ms) {
                Verdict::TimedOut => front.push(
                    HostActionView::ClientLeft {
                        sender_id: n as u16,
                        reason: LeaveReason::Timeout,
                    },
                ),
                Verdict::GaveUp => front.push(
                    HostActionView::ClientLeft {
                        sender_id: n as u16,
                        reason: LeaveReason::WelcomeUnacked,
                    },
                ),
                _ => front,
            },
        }
    }
}

/// The WELCOMEs that go out again to clients in the first `n` slots; `h2` is
/// the host after the tick.
pub open spec fn tick_resends(
    slots: Seq<Option<SlotView>>,
    h2: HostView,
    now_ms: u64,
    n: int,
) -> Seq<HostActionView>
    decreases n,
{
    if n <= 0 {
        Seq::empty()
    } else {
        let front = tick_resends(slots, h2, now_ms, n - 1);
        if due(slots[n - 1], now_ms) {
            front.push(
                HostActionView::Send {
                    to: slots[n - 1]->Some_0.addr,
                    control: welcome_view(h2, n - 1),
                },
            )
        } else {
            front
        }
    }
}

/// What a clock tick does to the host and makes it do: it drops clients that
/// are silent or never acknowledged, sends due WELCOMEs again, and tells those
/// left if anyone was dropped.
pub open spec fn host_tick(h: HostView, now_ms: u64) -> (HostView, Seq<HostActionView>) {
    let h2 = HostView {
        slots: Seq::new(h.slots.len(), |i: int| slot_ticked(h.slots[i], now_ms)),
        ..h
    };
    let drops = tick_drops(h.slots, now_ms, MAX_CLIENTS as int);
    let resends = tick_resends(h.slots, h2, now_ms, MAX_CLIENTS as int);
    if drops.len() == 0 {
        (h2, drops + resends)
    } else {
        (h2, drops + resends + roster_sends(h2, None, MAX_CLIENTS as int))
    }
}

proof fn lemma_push_action(actions: Seq<HostAction>, a: HostAction)
    ensures
        host_actions_view(actions.push(a)) == host_actions_view(actions).push(a@),
{
    assert(host_actions_view(actions.push(a)) =~= host_actions_view(actions).push(a@));
}

impl HostHandshake {
    pub fn new(
        room_code: [u8; ROOM_CODE_LEN],
        session_id: u16,
        params: SessionParams,
        host_name: String,
    ) -> (h: Self)
        ensures
            h@ == (HostView {
                room_code: room_code@,
                session_id,
                params,
                host_name: host_name@,
                slots: Seq::new(MAX_CLIENTS as nat, |i: int| None),
            }),
    {
        HostHandshake { room_code, session_id, params, host_name, slots: [None, None, None, None] }
    }

    pub fn session_id(&self) -> (id: u16)
        ensures
            id == self@.session_id,
    {
        self.session_id
    }

    pub fn host_name(&self) -> (name: &String)
        ensures
            name@ == self@.host_name,
    {
        &self.host_name
    }

    /// sender_id for slot index (slot 0 -> sender 1; the host itself is 0).
    fn sender_id(slot: usize) -> (id: u16)
        requires
            slot < MAX_CLIENTS,
        ensures
            id == slot + 1,
    {
        (slot + 1) as u16
    }

    fn slot_of_sender(sender_id: u16) -> (slot: Option<usize>)
        ensures
            slot == if 1 <= sender_id <= MAX_CLIENTS {
                Some((sender_id - 1) as usize)
            } else {
                None
            },
    {
        if 1 <= sender_id && sender_id as usize <= MAX_CLIENTS {
            Some((sender_id - 1) as usize)
        } else {
            None
        }
    }

    /// Full roster including the host, for WELCOME/ROSTER packets.
    pub fn roster(&self) -> (players: Vec<PlayerInfo>)
        ensures
            packet::players_view(players@) == host_roster(self@),
    {
        let mut players: Vec<PlayerInfo> = Vec::new();
        players.push(PlayerInfo { id: HOST_SENDER_ID, name: self.host_name.clone() });
        let ghost host = PlayerView { id: HOST_SENDER_ID, name: self@.host_name };
        let mut i: usize = 0;
        assert(packet::players_view(players@) =~= seq![host] + roster_entries(self@.slots, 0));
        while i < MAX_CLIENTS
            invariant
                i <= MAX_CLIENTS,
                packet::players_view(players@) == seq![host] + roster_entries(
                    self@.slots,
                    i as int,
                ),
            decreases MAX_CLIENTS - i,
        {
            let ghost before = packet::players_view(players@);
            match &self.slots[i] {
                None => {},
                Some(s) => {
                    let ghost entry = PlayerView { id: (i + 1) as u16, name: s.name@ };
                    players.push(PlayerInfo { id: Self::sender_id(i), name: s.name.clone() });
                    assert(packet::players_view(players@) =~= before.push(entry));
                    assert(before.push(entry) =~= seq![host] + roster_entries(self@.slots, i + 1));
                },
            }
            i = i + 1;
        }
        players
    }

    pub fn client_addr(&self, sender_id: u16) -> (addr: Option<SocketAddr>)
        ensures
            addr == match client_of(self@, sender_id) {
                None => None,
                Some(s) => Some(s.addr),
            },
    {
        match Self::slot_of_sender(sender_id) {
            None => None,
            Some(slot) => match &self.slots[slot] {
                None => None,
                Some(s) => Some(s.addr),
            },
        }
    }

    /// Addresses of all connected (pending or active) clients.
    pub fn client_addrs(&self) -> (addrs: Vec<(u16, SocketAddr)>)
        ensures
            addrs@ == addrs_of(self@.slots, MAX_CLIENTS as int),
    {
        let mut addrs: Vec<(u16, SocketAddr)> = Vec::new();
        let mut i: usize = 0;
        while i < MAX_CLIENTS
            invariant
                i <= MAX_CLIENTS,
                addrs@ == addrs_of(self@.slots, i as int),
            decreases MAX_CLIENTS - i,
        {
            match &self.slots[i] {
                None => {},
                Some(s) => {
                    addrs.push((Self::sender_id(i), s.addr));
                },
            }
            i = i + 1;
        }
        addrs
    }

    fn find_addr(&self, addr: SocketAddr) -> (slot: Option<usize>)
        ensures
            match (slot, slot_of_addr(self@.slots, addr, 0)) {
                (Some(i), Some(j)) => i == j && i < MAX_CLIENTS,
                (None, None) => true,
                _ => false,
            },
    {
        let mut i: usize = 0;
        while i < MAX_CLIENTS
            invariant
                i <= MAX_CLIENTS,
                slot_of_addr(self@.slots, addr, i as int) == slot_of_addr(self@.slots, addr, 0),
            decreases MAX_CLIENTS - i,
        {
            match &self.slots[i] {
                None => {},
                Some(s) => {
                    if s.addr == addr {
                        return Some(i);
                    }
                },
            }
            i = i + 1;
        }
        None
    }

    /// The sender id registered for a source address, if any. The receive
    /// thread uses this mapping (mirrored into its own table) to reject
    /// spoofed sender ids.
    pub fn sender_for_addr(&self, addr: SocketAddr) -> (id: Option<u16>)
        ensures
            id == sender_at(self@, addr),
    {
        match self.find_addr(addr) {
            None => None,
            Some(slot) => Some(Self::sender_id(slot)),
        }
    }

    fn welcome_for(&self, slot: usize) -> (c: Control)
        requires
            slot < MAX_CLIENTS,
        ensures
            c@ == welcome_view(self@, slot as int),
    {
        Control::Welcome {
            assigned_id: Self::sender_id(slot),
            session_id: self.session_id,
            sample_rate: self.params.sample_rate,
            frame_samples: self.params.frame_samples,
            codec: self.params.codec,
            roster: self.roster(),
        }
    }

    fn broadcast_roster(&self, except: Option<SocketAddr>, actions: &mut Vec<HostAction>)
        ensures
            host_actions_view(final(actions)@) == host_actions_view(old(actions)@) + roster_sends(
                self@,
                except,
                MAX_CLIENTS as int,
            ),
    {
        let roster = self.roster();
        let ghost start = host_actions_view(actions@);
        let mut i: usize = 0;
        assert(start + roster_sends(self@, except, 0) =~= start);
        while i < MAX_CLIENTS
            invariant
                i <= MAX_CLIENTS,
                packet::players_view(roster@) == host_roster(self@),
                host_actions_view(actions@) == start + roster_sends(self@, except, i as int),
            decreases MAX_CLIENTS - i,
        {
            match &self.slots[i] {
                None => {},
                Some(s) => {
                    if except.is_none() || except.unwrap() != s.addr {
                        let a = HostAction::Send {
                            to: s.addr,
                            control: Control::Roster { players: clone_players(&roster) },
                        };
                        proof {
                            lemma_push_action(actions@, a);
                            assert(start + roster_sends(self@, except, i as int).push(a@)
                                =~= (start + roster_sends(self@, except, i as int)).push(a@));
                        }
                        actions.push(a);
                    }
                },
            }
            i = i + 1;
        }
    }

    /// HELLO received from `addr`.
    pub fn on_hello(&mut self, addr: SocketAddr, hello: &Control, now_ms: u64) -> (actions: Vec<
        HostAction,
    >)
        ensures
            final(self)@ == host_hello(old(self)@, addr, hello@, now_ms).0,
            host_actions_view(actions@) == host_hello(old(self)@, addr, hello@, now_ms).1,
    {
        let mut actions: Vec<HostAction> = Vec::new();
        match hello {
            Control::Hello { proto_version, room_code, name, .. } => {
                if *proto_version != PROTOCOL_VERSION {
                    actions.push(deny(addr, DenyReason::VersionMismatch));
                } else if !same_code(room_code, &self.room_code) {
                    actions.push(deny(addr, DenyReason::BadRoomCode));
                } else {
                    // Same address again: a HELLO retry (our WELCOME may be in
                    // flight or lost) or a client restart. Reset to Pending and
                    // resend WELCOME, idempotent from the client's point of view.
                    let known = self.find_addr(addr);
                    let target = if known.is_some() {
                        known
                    } else {
                        self.find_free()
                    };
                    match target {
                        None => {
                            actions.push(deny(addr, DenyReason::RoomFull));
                        },
                        Some(slot) => {
                            self.slots[slot] =
                            Some(
                                Slot {
                                    addr,
                                    name: name.clone(),
                                    state: SlotState::Pending {
                                        welcome_seq: None,
                                        last_tx_ms: now_ms,
                                        tries: 1,
                                    },
                                    last_heard_ms: now_ms,
                                },
                            );
                            assert(self@.slots =~= old(self)@.slots.update(
                                slot as int,
                                Some(fresh_slot(addr, name@, now_ms)),
                            ));
                            actions.push(
                                HostAction::Send { to: addr, control: self.welcome_for(slot) },
                            );
                            if known.is_none() {
                                actions.push(
                                    HostAction::ClientJoined {
                                        sender_id: Self::sender_id(slot),
                                        name: name.clone(),
                                    },
                                );
                                assert(host_actions_view(actions@) =~= seq![
                                    HostActionView::Send {
                                        to: addr,
                                        control: welcome_view(self@, slot as int),
                                    },
                                    HostActionView::ClientJoined {
                                        sender_id: (slot + 1) as u16,
                                        name: name@,
                                    },
                                ]);
                                self.broadcast_roster(Some(addr), &mut actions);
                            }
                        },
                    }
                }
            },
            _ => {},
        }
        assert(host_actions_view(actions@) =~= host_hello(old(self)@, addr, hello@, now_ms).1);
        actions
    }

    fn find_free(&self) -> (slot: Option<usize>)
        ensures
            match (slot, free_slot(self@.slots, 0)) {
                (Some(i), Some(j)) => i == j && i < MAX_CLIENTS,
                (None, None) => true,
                _ => false,
            },
    {
        let mut i: usize = 0;
        while i < MAX_CLIENTS
            invariant
                i <= MAX_CLIENTS,
                free_slot(self@.slots, i as int) == free_slot(self@.slots, 0),
            decreases MAX_CLIENTS - i,
        {
            if self.slots[i].is_none() {
                return Some(i);
            }
            i = i + 1;
        }
        None
    }

    /// The embedder stamped a header seq on an outgoing WELCOME; remember it
    /// so the client's ACK can be matched.
    pub fn welcome_sent(&mut self, to: SocketAddr, seq: u16)
        ensures
            final(self)@ == host_welcome_sent(old(self)@, to, seq),
    {
        let ghost before = self@;
        let mut i: usize = 0;
        while i < MAX_CLIENTS
            invariant
                i <= MAX_CLIENTS,
                before == old(self)@,
                self@ == (HostView { slots: self@.slots, ..before }),
                forall|j: int|
                    0 <= j < MAX_CLIENTS ==> #[trigger] self@.slots[j] == if j < i {
                        slot_welcome_sent(before.slots[j], to, seq)
                    } else {
                        before.slots[j]
                    },
            decreases MAX_CLIENTS - i,
        {
            let ghost prev = self@;
            match &mut self.slots[i] {
                None => {},
                Some(s) => {
                    if s.addr == to {
                        if let SlotState::Pending { last_tx_ms, tries, .. } = s.state {
                            s.state =
                            SlotState::Pending { welcome_seq: Some(seq), last_tx_ms, tries };
                        }
                    }
                },
            }
            assert(self@.slots =~= prev.slots.update(i as int, slot_welcome_sent(prev.slots[i as int], to, seq)));
            i = i + 1;
        }
        assert(self@.slots =~= host_welcome_sent(before, to, seq).slots);
    }

    /// ACK received from a client address.
    pub fn on_ack(&mut self, addr: SocketAddr, acked_seq: u16, now_ms: u64) -> (actions: Vec<
        HostAction,
    >)
        ensures
            final(self)@ == host_acked(old(self)@, addr, acked_seq, now_ms),
            actions@ == Seq::<HostAction>::empty(),
    {
        let ghost before = self@;
        let mut i: usize = 0;
        while i < MAX_CLIENTS
            invariant
                i <= MAX_CLIENTS,
                before == old(self)@,
                self@ == (HostView { slots: self@.slots, ..before }),
                forall|j: int|
                    0 <= j < MAX_CLIENTS ==> #[trigger] self@.slots[j] == if j < i {
                        slot_acked(before.slots[j], addr, acked_seq, now_ms)
                    } else {
                        before.slots[j]
                    },
            decreases MAX_CLIENTS - i,
        {
            let ghost prev = self@;
            match &mut self.slots[i] {
                None => {},
                Some(s) => {
                    if s.addr == addr {
                        s.last_heard_ms = now_ms;
                        if let SlotState::Pending { welcome_seq: Some(ws), .. } = s.state {
                            if ws == acked_seq {
                                s.state = SlotState::Active;
                            }
                        }
                    }
                },
            }
            assert(self@.slots =~= prev.slots.update(i as int, slot_acked(prev.slots[i as int], addr, acked_seq, now_ms)));
            i = i + 1;
        }
        assert(self@.slots =~= host_acked(before, addr, acked_seq, now_ms).slots);
        Vec::new()
    }

    /// Any packet (audio included) arrived from this sender: refresh liveness
    /// and treat as implicit WELCOME ack.
    pub fn mark_heard(&mut self, sender_id: u16, now_ms: u64)
        ensures
            final(self)@ == host_heard(old(self)@, sender_id, now_ms),
    {
        if let Some(slot) = Self::slot_of_sender(sender_id) {
            match &mut self.slots[slot] {
                None => {},
                Some(s) => {
                    s.last_heard_ms = now_ms;
                    s.state = SlotState::Active;
                },
            }
        }
        assert(self@.slots =~= host_heard(old(self)@, sender_id, now_ms).slots);
    }

    /// BYE received.
    pub fn on_bye(&mut self, addr: SocketAddr) -> (actions: Vec<HostAction>)
        ensures
            final(self)@ == host_bye(old(self)@, addr).0,
            host_actions_view(actions@) == host_bye(old(self)@, addr).1,
    {
        let ghost before = self@;
        let mut actions: Vec<HostAction> = Vec::new();
        let mut i: usize = 0;
        assert(host_actions_view(actions@) =~= Seq::empty());
        while i < MAX_CLIENTS
            invariant
                i <= MAX_CLIENTS,
                before == old(self)@,
                self@ == (HostView { slots: self@.slots, ..before }),
                forall|j: int|
                    0 <= j < MAX_CLIENTS ==> #[trigger] self@.slots[j] == if j < i && taken_by(
                        before.slots[j],
                        addr,
                    ) {
                        None
                    } else {
                        before.slots[j]
                    },
                host_actions_view(actions@) == byes(before.slots, addr, i as int),
            decreases MAX_CLIENTS - i,
        {
            let ghost prev = self@;
            let leaves = match &self.slots[i] {
                None => false,
                Some(s) => s.addr == addr,
            };
            assert(leaves == taken_by(self@.slots[i as int], addr));
            if leaves {
                let a = HostAction::ClientLeft {
                    sender_id: Self::sender_id(i),
                    reason: LeaveReason::Bye,
                };
                proof {
                    lemma_push_action(actions@, a);
                }
                actions.push(a);
                self.slots[i] = None;
            }
            assert(self@.slots =~= prev.slots.update(i as int, if taken_by(prev.slots[i as int], addr) { None } else { prev.slots[i as int] }));
            i = i + 1;
        }
        assert(self@.slots =~= host_bye(before, addr).0.slots);
        if actions.len() > 0 {
            self.broadcast_roster(None, &mut actions);
        }
        actions
    }

    /// Clock tick: WELCOME retransmits and silence timeouts.
    pub fn tick(&mut self, now_ms: u64) -> (actions: Vec<HostAction>)
        ensures
            final(self)@ == host_tick(old(self)@, now_ms).0,
            host_actions_view(actions@) == host_tick(old(self)@, now_ms).1,
    {
        let ghost before = self@;
        let mut actions: Vec<HostAction> = Vec::new();
        let mut resend = [false, false, false, false];
        let mut i: usize = 0;
        assert(host_actions_view(actions@) =~= Seq::empty());
        while i < MAX_CLIENTS
            invariant
                i <= MAX_CLIENTS,
                before == old(self)@,
                self@ == (HostView { slots: self@.slots, ..before }),
                forall|j: int|
                    0 <= j < MAX_CLIENTS ==> #[trigger] self@.slots[j] == if j < i {
                        slot_ticked(before.slots[j], now_ms)
                    } else {
                        before.slots[j]
                    },
                forall|j: int|
                    0 <= j < MAX_CLIENTS ==> #[trigger] resend@[j] == (j < i && due(
                        before.slots[j],
                        now_ms,
                    )),
                host_actions_view(actions@) == tick_drops(before.slots, now_ms, i as int),
            decreases MAX_CLIENTS - i,
        {
            let ghost prev = self@;
            let mut left: Option<LeaveReason> = None;
            match &mut self.slots[i] {
                None => {},
                Some(s) => {
                    if now_ms.saturating_sub(s.last_heard_ms) > PEER_TIMEOUT_MS {
                        left = Some(LeaveReason::Timeout);
                    } else if let SlotState::Pending { welcome_seq, last_tx_ms, tries } = s.state {
                        if now_ms.saturating_sub(last_tx_ms) >= CONTROL_RETRY_MS {
                            if tries >= CONTROL_MAX_TRIES {
                                left = Some(LeaveReason::WelcomeUnacked);
                            } else {
                                s.state =
                                SlotState::Pending {
                                    welcome_seq,
                                    last_tx_ms: now_ms,
                                    tries: tries + 1,
                                };
                                resend[i] = true;
                            }
                        }
                    }
                },
            }
            if let Some(reason) = left {
                let a = HostAction::ClientLeft { sender_id: Self::sender_id(i), reason };
                proof {
                    lemma_push_action(actions@, a);
                }
                actions.push(a);
                self.slots[i] = None;
            }
            assert(self@.slots =~= prev.slots.update(i as int, slot_ticked(prev.slots[i as int], now_ms)));
            i = i + 1;
        }
        let ghost h2 = host_tick(before, now_ms).0;
        assert(self@.slots =~= h2.slots);
        let dropped = actions.len() > 0;
        let ghost drops = tick_drops(before.slots, now_ms, MAX_CLIENTS as int);
        i = 0;
        assert(drops + tick_resends(before.slots, h2, now_ms, 0) =~= drops);
        while i < MAX_CLIENTS
            invariant
                i <= MAX_CLIENTS,
                self@ == h2,
                h2 == host_tick(before, now_ms).0,
                forall|j: int|
                    0 <= j < MAX_CLIENTS ==> #[trigger] self@.slots[j] == slot_ticked(
                        before.slots[j],
                        now_ms,
                    ),
                forall|j: int|
                    0 <= j < MAX_CLIENTS ==> #[trigger] resend@[j] == due(before.slots[j], now_ms),
                host_actions_view(actions@) == drops + tick_resends(
                    before.slots,
                    h2,
                    now_ms,
                    i as int,
                ),
            decreases MAX_CLIENTS - i,
        {
            let ghost front = tick_resends(before.slots, h2, now_ms, i as int);
            assert(self@.slots[i as int] == slot_ticked(before.slots[i as int], now_ms));
            if resend[i] {
                match &self.slots[i] {
                    None => {},
                    Some(s) => {
                        let a = HostAction::Send { to: s.addr, control: self.welcome_for(i) };
                        proof {
                            lemma_push_action(actions@, a);
                            assert((drops + front).push(a@) =~= drops + front.push(a@));
                        }
                        actions.push(a);
                    },
                }
            }
            i = i + 1;
        }
        if dropped {
            self.broadcast_roster(None, &mut actions);
        }
        actions
    }
}

fn deny(addr: SocketAddr, reason: DenyReason) -> (a: HostAction)
    ensures
        a@ == (HostActionView::Send { to: addr, control: ControlView::Deny { reason } }),
{
    HostAction::Send { to: addr, control: Control::Deny { reason } }
}

fn same_code(a: &[u8; ROOM_CODE_LEN], b: &[u8; ROOM_CODE_LEN]) -> (same: bool)
    ensures
        same == (a@ == b@),
{
    let mut i: usize = 0;
    while i < ROOM_CODE_LEN
        invariant
            i <= ROOM_CODE_LEN,
            forall|j: int| 0 <= j < i ==> a@[j] == b@[j],
        decreases ROOM_CODE_LEN - i,
    {
        if a[i] != b[i] {
            return false;
        }
        i = i + 1;
    }
    assert(a@ =~= b@);
    true
}

} // verus!
