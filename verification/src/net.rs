//! What the network receive and transmit threads decide. One UDP socket per
//! process; the RX thread owns the receiving, the TX thread drains a lock-free
//! ring filled by the audio callback, and the control thread sends its own
//! (tiny) traffic.
use crate::addr::SocketAddr;
use crate::bytes;
use crate::jitter;
use crate::jitter::{FrameView, JitterBuffer, JitterView};
use crate::packet;
use crate::packet::{
    parse_datagram, AudioPacket, AudioView, Control, ControlView, Header, PacketType, Payload,
    PayloadView,
};
use crate::pipeline::DEST_PEER;
use crate::ring;
use crate::ring::datagram_pop;
use crate::{HOST_SENDER_ID, MAX_CLIENTS, MAX_DATAGRAM, MAX_FRAME_BYTES};
use vstd::prelude::*;

verus! {

/// One outgoing datagram, produced by the audio callback.
pub struct TxItem {
    pub dest: u8,
    pub len: u16,
    pub buf: [u8; MAX_DATAGRAM],
}

/// An outgoing datagram as a mathematical value.
#[verifier::ext_equal]
pub struct TxView {
    pub dest: u8,
    pub bytes: Seq<u8>,
}

impl View for TxItem {
    type V = TxView;

    open spec fn view(&self) -> TxView {
        TxView { dest: self.dest, bytes: self.buf@.take(self.len as int) }
    }
}

impl TxItem {
    pub fn new(dest: u8, bytes: &[u8]) -> (item: Self)
        requires
            bytes@.len() <= MAX_DATAGRAM,
        ensures
            item.len <= MAX_DATAGRAM,
            item@ == (TxView { dest, bytes: bytes@ }),
    {
        let mut buf = [0u8; MAX_DATAGRAM];
        let mut i: usize = 0;
        while i < bytes.len()
            invariant
                i <= bytes@.len() <= MAX_DATAGRAM,
                forall|j: int| 0 <= j < i ==> buf@[j] == bytes@[j],
            decreases bytes@.len() - i,
        {
            buf[i] = bytes[i];
            i = i + 1;
        }
        let item = TxItem { dest, len: bytes.len() as u16, buf };
        assert(item@.bytes =~= bytes@);
        item
    }
}

/// Address-table updates from the control thread to the RX/TX threads.
#[derive(Debug, Clone, Copy)]
pub enum AddrUpdate {
    Client { slot: u8, addr: Option<SocketAddr> },
    Peer(SocketAddr),
}

/// A control packet routed to the control thread.
#[derive(Debug)]
pub struct CtrlEvent {
    pub from: SocketAddr,
    pub header: Header,
    pub control: Control,
    pub rx_us: u64,
}

// ---------------------------------------------------------------------------
// Addresses
// ---------------------------------------------------------------------------
/// The receiving end of a `crossbeam_channel` channel.
#[verifier::external_type_specification]
#[verifier::external_body]
#[verifier::reject_recursive_types(T)]
pub struct ExReceiver<T>(crossbeam_channel::Receiver<T>);

/// The updates that this receiver has taken from its channel so far.
pub uninterp spec fn received_updates(r: crossbeam_channel::Receiver<AddrUpdate>) -> Seq<AddrUpdate>;

/// `crossbeam_channel::Receiver::try_recv`: the next update, if one is there.
/// Which one that is, and whether there is one, is up to the control thread;
/// nothing is said of it, but that what is handed out has been taken, and nothing
/// else.
#[verifier::external_body]
fn next_update(updates: &mut crossbeam_channel::Receiver<AddrUpdate>) -> (u: Option<AddrUpdate>)
    ensures
        received_updates(*final(updates)) == match u {
            None => received_updates(*old(updates)),
            Some(u) => received_updates(*old(updates)).push(u),
        },
{
    updates.try_recv().ok()
}

/// Where the peers are: the host knows an address for each client slot, a
/// client that of its host.
#[derive(Debug, Clone, Copy)]
pub struct AddrTable {
    pub clients: [Option<SocketAddr>; MAX_CLIENTS],
    pub peer: Option<SocketAddr>,
}

/// An address table as a mathematical value.
#[verifier::ext_equal]
pub struct AddrTableView {
    pub clients: Seq<Option<SocketAddr>>,
    pub peer: Option<SocketAddr>,
}

impl View for AddrTable {
    type V = AddrTableView;

    open spec fn view(&self) -> AddrTableView {
        AddrTableView { clients: self.clients@, peer: self.peer }
    }
}

/// The table after an update; one for a slot that does not exist is ignored.
pub open spec fn updated(t: AddrTableView, u: AddrUpdate) -> AddrTableView {
    match u {
        AddrUpdate::Client { slot, addr } => {
            if slot < MAX_CLIENTS {
                AddrTableView { clients: t.clients.update(slot as int, addr), ..t }
            } else {
                t
            }
        },
        AddrUpdate::Peer(addr) => AddrTableView { peer: Some(addr), ..t },
    }
}

/// The address that a destination tag stands for.
pub open spec fn address_of(t: AddrTableView, dest: u8) -> Option<SocketAddr> {
    if dest == DEST_PEER {
        t.peer
    } else if dest < MAX_CLIENTS {
        t.clients[dest as int]
    } else {
        None
    }
}

impl AddrTable {
    pub fn new() -> (t: Self)
        ensures
            t@ == (AddrTableView {
                clients: Seq::new(MAX_CLIENTS as nat, |i: int| None),
                peer: None,
            }),
    {
        let t = AddrTable { clients: [None, None, None, None], peer: None };
        assert(t@.clients =~= Seq::new(MAX_CLIENTS as nat, |i: int| None));
        t
    }

    pub fn apply(&mut self, update: AddrUpdate)
        ensures
            final(self)@ == updated(old(self)@, update),
    {
        match update {
            AddrUpdate::Client { slot, addr } => {
                if (slot as usize) < MAX_CLIENTS {
                    self.clients[slot as usize] = addr;
                }
            },
            AddrUpdate::Peer(addr) => {
                self.peer = Some(addr);
            },
        }
        assert(self@.clients =~= updated(old(self)@, update).clients);
    }

    /// Applies the next update that the control thread has sent, and returns
    /// it; does nothing if there is none.
    pub fn apply_next(&mut self, updates: &mut crossbeam_channel::Receiver<AddrUpdate>) -> (applied:
        Option<AddrUpdate>)
        ensures
            received_updates(*final(updates)) == match applied {
                None => received_updates(*old(updates)),
                Some(u) => received_updates(*old(updates)).push(u),
            },
            final(self)@ == match applied {
                None => old(self)@,
                Some(u) => updated(old(self)@, u),
            },
    {
        let next = next_update(updates);
        if let Some(u) = next {
            self.apply(u);
        }
        next
    }

    pub fn resolve(&self, dest: u8) -> (addr: Option<SocketAddr>)
        ensures
            addr == address_of(self@, dest),
    {
        if dest == DEST_PEER {
            self.peer
        } else if (dest as usize) < MAX_CLIENTS {
            self.clients[dest as usize]
        } else {
            None
        }
    }
}

// ---------------------------------------------------------------------------
// Transmit
// ---------------------------------------------------------------------------
/// Dev-only outgoing loss simulation: a cheap deterministic LCG.
#[derive(Debug, Clone, Copy)]
pub struct LossSim {
    pub rng: u64,
    /// The chance that a datagram is dropped, in units of 2^-24.
    pub threshold: u32,
}

/// The state of the generator after `rng`.
pub open spec fn lcg(rng: u64) -> int {
    (rng * 6364136223846793005 + 1442695040888963407) % 0x1_0000_0000_0000_0000
}

/// The state of the generator after `n` steps from `seed`.
pub open spec fn lcg_after(seed: u64, n: nat) -> u64
    decreases n,
{
    if n == 0 {
        seed
    } else {
        lcg(lcg_after(seed, (n - 1) as nat)) as u64
    }
}

/// The generator's next state.
pub fn lcg_next(state: u64) -> (next: u64)
    ensures
        next == lcg(state),
{
    let product: u128 = state as u128 * 6364136223846793005 + 1442695040888963407;
    (product % 0x1_0000_0000_0000_0000) as u64
}

/// The state of the generator after one more datagram, and whether that one is
/// dropped: if the upper 24 bits are below the threshold. Without a chance of
/// loss the generator rests.
pub open spec fn rolled(sim: LossSim) -> (LossSim, bool) {
    if sim.threshold == 0 {
        (sim, false)
    } else {
        (
            LossSim { rng: lcg(sim.rng) as u64, ..sim },
            lcg(sim.rng) / 0x100_0000_0000 < sim.threshold,
        )
    }
}

impl LossSim {
    pub fn new(threshold: u32) -> (sim: Self)
        ensures
            sim.rng == 0x9E37_79B9_7F4A_7C15,
            sim.threshold == threshold,
    {
        LossSim { rng: 0x9E37_79B9_7F4A_7C15, threshold }
    }

    /// Whether the next datagram is dropped.
    pub fn roll(&mut self) -> (drop: bool)
        ensures
            *final(self) == rolled(*old(self)).0,
            drop == rolled(*old(self)).1,
    {
        if self.threshold == 0 {
            return false;
        }
        self.rng = lcg_next(self.rng);
        self.rng / 0x100_0000_0000 < self.threshold as u64
    }
}

/// What the TX thread knows between two datagrams.
#[derive(Debug, Clone, Copy)]
pub struct TxState {
    pub table: AddrTable,
    pub loss: LossSim,
}

/// What the TX thread does next.
pub enum TxStep {
    /// Nothing to send: wait a little.
    Idle,
    /// The datagram was lost on purpose, or nobody is at its destination.
    Discard,
    Send { to: SocketAddr, item: TxItem },
}

/// The TX thread's next step for a datagram to `dest`: whether it goes out, and
/// where to.
pub open spec fn destination(tx: TxState, dest: u8) -> Option<SocketAddr> {
    if rolled(tx.loss).1 {
        None
    } else {
        address_of(tx.table@, dest)
    }
}

/// Whether a step is the one for a datagram: it is sent where it goes, or
/// discarded if it goes nowhere.
pub open spec fn step_for(tx: TxState, d: TxView, step: TxStep) -> bool {
    match destination(tx, d.dest) {
        None => step is Discard,
        Some(addr) => step matches TxStep::Send { to, item } && to == addr && item@ == d,
    }
}

impl TxState {
    pub fn new(loss_threshold: u32) -> (tx: Self)
        ensures
            tx.loss == (LossSim { rng: 0x9E37_79B9_7F4A_7C15, threshold: loss_threshold }),
            tx.table@ == (AddrTableView {
                clients: Seq::new(MAX_CLIENTS as nat, |i: int| None),
                peer: None,
            }),
    {
        TxState { table: AddrTable::new(), loss: LossSim::new(loss_threshold) }
    }

    /// Where the next datagram, one for `dest`, goes; nothing if it is dropped.
    pub fn route(&mut self, dest: u8) -> (to: Option<SocketAddr>)
        ensures
            to == destination(*old(self), dest),
            *final(self) == (TxState { loss: rolled(old(self).loss).0, ..*old(self) }),
    {
        if self.loss.roll() {
            None
        } else {
            self.table.resolve(dest)
        }
    }

    /// Takes the next datagram off the ring and decides what becomes of it; idle
    /// just when none was taken. A datagram that was seen to be in the ring is
    /// the one that is taken.
    pub fn next_step(&mut self, queue: &mut rtrb::Consumer<TxItem>) -> (step: TxStep)
        ensures
            match step {
                TxStep::Idle => {
                    &&& ring::taken_datagrams(*final(queue)) == ring::taken_datagrams(*old(queue))
                    &&& ring::seen_datagrams(*final(queue)).len() == 0
                    &&& *final(self) == *old(self)
                },
                _ => {
                    let before = ring::taken_datagrams(*old(queue));
                    let after = ring::taken_datagrams(*final(queue));
                    &&& after.len() == before.len() + 1
                    &&& after.drop_last() == before
                    &&& step_for(*old(self), after.last(), step)
                    &&& *final(self) == (TxState { loss: rolled(old(self).loss).0, ..*old(self) })
                },
            },
            ring::seen_datagrams(*old(queue)).len() > 0 ==> {
                &&& step !is Idle
                &&& ring::taken_datagrams(*final(queue)).last() == ring::seen_datagrams(
                    *old(queue),
                )[0]
                &&& ring::seen_datagrams(*final(queue)) == ring::seen_datagrams(
                    *old(queue),
                ).drop_first()
            },
    {
        let ghost before = ring::taken_datagrams(*queue);
        match datagram_pop(queue) {
            None => TxStep::Idle,
            Some(item) => {
                assert(before.push(item@).drop_last() =~= before);
                match self.route(item.dest) {
                    None => TxStep::Discard,
                    Some(to) => TxStep::Send { to, item },
                }
            },
        }
    }
}

/// Without loss simulation every datagram goes to where its destination is.
pub proof fn law_no_loss_without_simulation(tx: TxState, dest: u8)
    requires
        tx.loss.threshold == 0,
    ensures
        destination(tx, dest) == address_of(tx.table@, dest),
        rolled(tx.loss).0 == tx.loss,
{
}

// ---------------------------------------------------------------------------
// Receive
// ---------------------------------------------------------------------------
/// Which role the RX thread routes for, and what it goes by.
#[derive(Debug, Clone, Copy, PartialEq, Eq, Structural)]
pub enum RxRole {
    Host { session_id: u16 },
    Client { host_addr: SocketAddr, joined: bool, session_id: u16, sender_id: u16 },
}

/// What the RX thread does with a datagram.
#[derive(Debug)]
pub enum Routed<'a> {
    /// Not for us, or not what it claims to be.
    Drop,
    /// Answer a PING at once, so that the times in the answer are accurate.
    Pong { header: Header, t1_us: u64 },
    /// An audio frame for the stream in `slot` (a client has the one stream 0).
    Audio { slot: usize, seq: u16, packet: AudioPacket<'a> },
    /// A control packet for the control thread. `heard` is the stream whose
    /// peer has shown that it is alive.
    Control { heard: Option<usize>, header: Header, control: Control },
}

/// What is done with a datagram, as a mathematical value.
#[verifier::ext_equal]
pub enum RoutedView {
    Drop,
    Pong { header: Header, t1_us: u64 },
    Audio { slot: int, seq: u16, packet: AudioView },
    Control { heard: Option<int>, header: Header, control: ControlView },
}

impl<'a> View for Routed<'a> {
    type V = RoutedView;

    open spec fn view(&self) -> RoutedView {
        match *self {
            Routed::Drop => RoutedView::Drop,
            Routed::Pong { header, t1_us } => RoutedView::Pong { header, t1_us },
            Routed::Audio { slot, seq, packet } => {
                RoutedView::Audio { slot: slot as int, seq, packet: packet@ }
            },
            Routed::Control { heard, header, control } => {
                RoutedView::Control {
                    heard: match heard {
                        None => None,
                        Some(slot) => Some(slot as int),
                    },
                    header,
                    control: control@,
                }
            },
        }
    }
}

/// The slot of a client that sends under the id that belongs to its address.
pub open spec fn genuine_slot(t: AddrTableView, from: SocketAddr, sender_id: u16) -> Option<int> {
    if 1 <= sender_id <= MAX_CLIENTS && t.clients[sender_id - 1] == Some(from) {
        Some(sender_id - 1)
    } else {
        None
    }
}

/// The id under which this side answers.
pub open spec fn own_id(role: RxRole) -> u16 {
    match role {
        RxRole::Host { .. } => HOST_SENDER_ID,
        RxRole::Client { sender_id, .. } => sender_id,
    }
}

/// The stream that an audio packet belongs to, if it may be played.
pub open spec fn audio_slot(role: RxRole, t: AddrTableView, from: SocketAddr, h: Header) -> Option<
    int,
> {
    match role {
        RxRole::Host { session_id } => {
            if h.session_id == session_id {
                genuine_slot(t, from, h.sender_id)
            } else {
                None
            }
        },
        RxRole::Client { host_addr, joined, session_id, .. } => {
            if from == host_addr && h.sender_id == HOST_SENDER_ID && joined && h.session_id
                == session_id {
                Some(0)
            } else {
                None
            }
        },
    }
}

/// What is done with a datagram that came from an address.
pub open spec fn routed(role: RxRole, t: AddrTableView, from: SocketAddr, d: Seq<u8>) -> RoutedView {
    match packet::datagram_of(d) {
        Err(_) => RoutedView::Drop,
        Ok((header, PayloadView::Audio(a))) => match audio_slot(role, t, from, header) {
            None => RoutedView::Drop,
            Some(slot) => RoutedView::Audio { slot, seq: header.seq, packet: a },
        },
        Ok((header, PayloadView::Control(ControlView::Ping { t1_us }))) => RoutedView::Pong {
            header: Header {
                ptype: PacketType::Pong,
                session_id: header.session_id,
                sender_id: own_id(role),
                seq: header.seq,
            },
            t1_us,
        },
        Ok((header, PayloadView::Control(control))) => match role {
            RxRole::Host { .. } => RoutedView::Control {
                heard: genuine_slot(t, from, header.sender_id),
                header,
                control,
            },
            RxRole::Client { host_addr, .. } => {
                if from == host_addr {
                    RoutedView::Control { heard: Some(0), header, control }
                } else {
                    RoutedView::Drop
                }
            },
        },
    }
}

fn client_slot(table: &AddrTable, from: SocketAddr, sender_id: u16) -> (slot: Option<usize>)
    ensures
        match (slot, genuine_slot(table@, from, sender_id)) {
            (None, None) => true,
            (Some(i), Some(j)) => i == j && i < MAX_CLIENTS,
            _ => false,
        },
{
    if sender_id == 0 || sender_id as usize > MAX_CLIENTS {
        return None;
    }
    let slot: usize = (sender_id - 1) as usize;
    match table.clients[slot] {
        Some(addr) => {
            if addr == from {
                Some(slot)
            } else {
                None
            }
        },
        None => None,
    }
}

/// Decides what is done with a datagram: audio goes into jitter buffers,
/// control packets go to the control thread, PINGs are answered. Anything that
/// does not parse, or comes from where it should not, is dropped.
pub fn route<'a>(
    role: &RxRole,
    table: &AddrTable,
    from: SocketAddr,
    datagram: &'a [u8],
) -> (r: Routed<'a>)
    ensures
        r@ == routed(*role, table@, from, datagram@),
        r matches Routed::Audio { slot, .. } ==> slot < MAX_CLIENTS,
        r matches Routed::Control { heard: Some(slot), .. } ==> slot < MAX_CLIENTS,
{
    let (header, payload) = match parse_datagram(datagram) {
        Err(_) => {
            return Routed::Drop;
        },
        Ok(parsed) => parsed,
    };
    match payload {
        Payload::Audio(packet) => {
            let slot = match role {
                RxRole::Host { session_id } => {
                    if header.session_id != *session_id {
                        None
                    } else {
                        // Anti-spoof: source address must match the slot.
                        client_slot(table, from, header.sender_id)
                    }
                },
                RxRole::Client { host_addr, joined, session_id, .. } => {
                    if from != *host_addr || header.sender_id != HOST_SENDER_ID || !*joined
                        || header.session_id != *session_id {
                        None
                    } else {
                        Some(0)
                    }
                },
            };
            match slot {
                None => Routed::Drop,
                Some(slot) => Routed::Audio { slot, seq: header.seq, packet },
            }
        },
        Payload::Control(Control::Ping { t1_us }) => {
            let sender_id: u16 = match role {
                RxRole::Host { .. } => HOST_SENDER_ID,
                RxRole::Client { sender_id, .. } => *sender_id,
            };
            Routed::Pong {
                header: Header {
                    ptype: PacketType::Pong,
                    session_id: header.session_id,
                    sender_id,
                    seq: header.seq,
                },
                t1_us,
            }
        },
        Payload::Control(control) => match role {
            RxRole::Host { .. } => Routed::Control {
                heard: client_slot(table, from, header.sender_id),
                header,
                control,
            },
            RxRole::Client { host_addr, .. } => {
                // Only the host may talk control to us.
                if from != *host_addr {
                    Routed::Drop
                } else {
                    Routed::Control { heard: Some(0), header, control }
                }
            },
        },
    }
}

/// Writes the answer to a PING that arrived at `t2_us` and is answered at
/// `t3_us`; returns its length.
pub fn write_pong(header: &Header, t1_us: u64, t2_us: u64, t3_us: u64, out: &mut [u8]) -> (n: usize)
    requires
        header.ptype == PacketType::Pong,
        old(out)@.len() >= 32,
    ensures
        n == 32,
        final(out)@ == bytes::overwrite(
            old(out)@,
            0,
            packet::header_bytes(*header) + packet::control_bytes(
                ControlView::Pong { t1_us, t2_us, t3_us },
            ),
        ),
{
    proof {
        bytes::lemma_be_bytes_len(t1_us as nat, 8);
        bytes::lemma_be_bytes_len(t2_us as nat, 8);
        bytes::lemma_be_bytes_len(t3_us as nat, 8);
    }
    let pong = Control::Pong { t1_us, t2_us, t3_us };
    pong.write(header, out)
}

/// A jitter buffer after an audio packet: its frame goes in, and then the copy
/// of the frame before, if the packet carries one.
pub open spec fn fed(b: JitterView, seq: u16, a: AudioView, frame_samples: u32) -> JitterView {
    let b1 = jitter::pushed(b, seq, a.timestamp, a.payload).0;
    match a.redundant {
        None => b1,
        Some(red) => jitter::pushed(
            b1,
            crate::seq::ring_add(seq, -1),
            a.timestamp.wrapping_sub(frame_samples),
            red,
        ).0,
    }
}

/// Feeds a jitter buffer with what an audio packet carries.
pub fn feed(jb: &mut JitterBuffer, seq: u16, packet: &AudioPacket<'_>, frame_samples: u32)
    requires
        old(jb).wf(),
    ensures
        final(jb).wf(),
        final(jb)@ == fed(old(jb)@, seq, packet@, frame_samples),
{
    let _ = jb.push(seq, packet.timestamp, packet.payload);
    if let Some(red) = packet.redundant {
        assert(seq.wrapping_sub(1) == crate::seq::ring_add(seq, -1));
        let _ = jb.push(seq.wrapping_sub(1), packet.timestamp.wrapping_sub(frame_samples), red);
    }
}

/// Audio is only ever taken from a peer that is what it claims to be: on the
/// host from the address that is registered for its sender id, on a client
/// from the host, and on both only within the session.
pub proof fn law_audio_is_never_spoofed(
    role: RxRole,
    t: AddrTableView,
    from: SocketAddr,
    d: Seq<u8>,
)
    requires
        routed(role, t, from, d) is Audio,
    ensures
        ({
            let slot = routed(role, t, from, d)->slot;
            let h = packet::datagram_of(d)->Ok_0.0;
            match role {
                RxRole::Host { session_id } => {
                    &&& 0 <= slot < MAX_CLIENTS
                    &&& h.sender_id == slot + 1
                    &&& t.clients[slot] == Some(from)
                    &&& h.session_id == session_id
                },
                RxRole::Client { host_addr, joined, session_id, .. } => {
                    &&& slot == 0
                    &&& h.sender_id == HOST_SENDER_ID
                    &&& from == host_addr
                    &&& joined
                    &&& h.session_id == session_id
                },
            }
        }),
{
}

/// A client takes nothing but PINGs from anyone but its host.
pub proof fn law_client_hears_only_its_host(
    host_addr: SocketAddr,
    joined: bool,
    session_id: u16,
    sender_id: u16,
    t: AddrTableView,
    from: SocketAddr,
    d: Seq<u8>,
)
    requires
        from != host_addr,
    ensures
        ({
            let r = routed(RxRole::Client { host_addr, joined, session_id, sender_id }, t, from, d);
            r is Drop || r is Pong
        }),
{
}

/// A buffer after a packet that carries a copy of the frame before, where neither
/// of the two was there: both are stored in their slots, and the read position
/// stays.
proof fn lemma_both_stored(b: JitterView, s: u16, a: AudioView, frame_samples: u32)
    requires
        b.started,
        b.slots.len() == jitter::SLOTS,
        0 <= crate::seq::ring_diff(crate::seq::ring_add(s, -1), b.next),
        crate::seq::ring_diff(crate::seq::ring_add(s, -1), b.next) + 1 < jitter::SLOTS,
        jitter::stored(b, s) is None,
        jitter::stored(b, crate::seq::ring_add(s, -1)) is None,
        a.payload.len() <= MAX_FRAME_BYTES,
        a.redundant matches Some(red) && red.len() <= MAX_FRAME_BYTES,
    ensures
        ({
            let lost = crate::seq::ring_add(s, -1);
            let b2 = fed(b, s, a, frame_samples);
            &&& b2.started
            &&& b2.next == b.next
            &&& b2.slots.len() == jitter::SLOTS
            &&& b2.slots[jitter::slot_index(lost)] == Some(
                FrameView {
                    seq: lost,
                    timestamp: a.timestamp.wrapping_sub(frame_samples),
                    payload: a.redundant->Some_0,
                },
            )
            &&& b2.slots[jitter::slot_index(s)] == Some(
                FrameView { seq: s, timestamp: a.timestamp, payload: a.payload },
            )
        }),
{
    let lost = crate::seq::ring_add(s, -1);
    lemma_neighbours(s, b.next);
    assert(jitter::slot_index(lost) != jitter::slot_index(s));
    let b1 = jitter::pushed(b, s, a.timestamp, a.payload).0;
    assert(crate::seq::ring_diff(b.next, s) <= 0);
    assert(crate::seq::ring_diff(b.next, lost) <= 0);
    assert(b1.slots == b.slots.update(
        jitter::slot_index(s),
        Some(FrameView { seq: s, timestamp: a.timestamp, payload: a.payload }),
    ));
    assert(b1.slots[jitter::slot_index(lost)] == b.slots[jitter::slot_index(lost)]);
    assert(jitter::stored(b1, lost) is None);
}

/// A frame is one place further ahead than the frame before it.
proof fn lemma_neighbours(s: u16, next: u16)
    requires
        0 <= crate::seq::ring_diff(crate::seq::ring_add(s, -1), next) < jitter::SLOTS,
    ensures
        crate::seq::ring_diff(s, next) == crate::seq::ring_diff(crate::seq::ring_add(s, -1), next)
            + 1,
        jitter::slot_index(crate::seq::ring_add(s, -1)) != jitter::slot_index(s),
{
}

/// A frame that is stored `ahead` places ahead is what the reader gets after
/// `ahead` frames.
proof fn lemma_comes_out(b: JitterView, f: FrameView, ahead: nat)
    requires
        b.started,
        b.slots.len() == jitter::SLOTS,
        b.slots[jitter::slot_index(f.seq)] == Some(f),
        ahead == crate::seq::ring_diff(f.seq, b.next),
        ahead < jitter::SLOTS,
    ensures
        jitter::popped(jitter::popped_times(b, ahead)).1 == Some(f),
{
    jitter::lemma_popped_times(b, f.seq, ahead);
    crate::seq::law_diff_leads_back(f.seq, b.next);
}

/// The copy of the frame before repairs a single loss, wherever in the buffer
/// it is: if frame `s - 1` was lost and lies ahead of the read position, then
/// after a packet `s` that carries a copy of it the reader gets, once it has
/// taken the frames before, both of them in order.
pub proof fn law_redundancy_repairs_a_single_loss(
    b: JitterView,
    s: u16,
    a: AudioView,
    frame_samples: u32,
)
    requires
        b.started,
        b.slots.len() == jitter::SLOTS,
        0 <= crate::seq::ring_diff(crate::seq::ring_add(s, -1), b.next),
        crate::seq::ring_diff(crate::seq::ring_add(s, -1), b.next) + 1 < jitter::SLOTS,
        jitter::stored(b, s) is None,
        jitter::stored(b, crate::seq::ring_add(s, -1)) is None,
        a.payload.len() <= MAX_FRAME_BYTES,
        a.redundant matches Some(red) && red.len() <= MAX_FRAME_BYTES,
    ensures
        ({
            let lost = crate::seq::ring_add(s, -1);
            let ahead = crate::seq::ring_diff(lost, b.next) as nat;
            let b2 = fed(b, s, a, frame_samples);
            let (b3, first) = jitter::popped(jitter::popped_times(b2, ahead));
            let second = jitter::popped(b3).1;
            &&& first == Some(
                FrameView {
                    seq: lost,
                    timestamp: a.timestamp.wrapping_sub(frame_samples),
                    payload: a.redundant->Some_0,
                },
            )
            &&& second == Some(FrameView { seq: s, timestamp: a.timestamp, payload: a.payload })
        }),
{
    let lost = crate::seq::ring_add(s, -1);
    let ahead = crate::seq::ring_diff(lost, b.next) as nat;
    let b2 = fed(b, s, a, frame_samples);
    lemma_both_stored(b, s, a, frame_samples);
    lemma_neighbours(s, b.next);
    lemma_comes_out(b2, b2.slots[jitter::slot_index(lost)]->Some_0, ahead);
    lemma_comes_out(b2, b2.slots[jitter::slot_index(s)]->Some_0, ahead + 1);
    assert(jitter::popped_times(b2, ahead + 1) == jitter::popped(
        jitter::popped_times(b2, ahead),
    ).0);
}

} // verus!
