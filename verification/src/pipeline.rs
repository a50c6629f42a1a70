//! The per-frame pipelines, host and client, apart from the samples
//! themselves: who is pulled, who is in the mix, who is sent what. These run
//! on the audio callback thread; nothing is allocated after construction.
use crate::bytes;
use crate::engine::{EngineParams, MonitorMode};
use crate::packet;
use crate::packet::{AudioPacket, AudioView, Codec, Header, PacketType};
use crate::seq::SeqGen;
use crate::{HOST_SENDER_ID, MAX_CLIENTS, MAX_DATAGRAM, MAX_FRAME_BYTES};
use vstd::prelude::*;

verus! {

/// Destination tag for [`crate::net::TxItem`]: client slots 0..MAX_CLIENTS,
/// or the peer/host for the client role.
pub const DEST_PEER: u8 = 255;

// ---------------------------------------------------------------------------
// Sending frames
// ---------------------------------------------------------------------------
/// The encoded frame before, for redundancy.
#[derive(Debug)]
struct PrevFrame {
    buf: Vec<u8>,
    len: usize,
}

impl PrevFrame {
    spec fn wf(self) -> bool {
        self.buf@.len() == MAX_FRAME_BYTES && self.len <= MAX_FRAME_BYTES
    }

    spec fn frame(self) -> Seq<u8> {
        self.buf@.take(self.len as int)
    }

    fn new() -> (p: Self)
        ensures
            p.wf(),
            p.frame() == Seq::<u8>::empty(),
    {
        let p = PrevFrame { buf: vec![0u8; MAX_FRAME_BYTES], len: 0 };
        assert(p.frame() =~= Seq::<u8>::empty());
        p
    }

    fn store(&mut self, data: &[u8])
        requires
            old(self).wf(),
            data@.len() <= MAX_FRAME_BYTES,
        ensures
            final(self).wf(),
            final(self).frame() == data@,
    {
        let mut i: usize = 0;
        while i < data.len()
            invariant
                i <= data@.len() <= MAX_FRAME_BYTES,
                self.buf@.len() == MAX_FRAME_BYTES,
                forall|j: int| 0 <= j < i ==> self.buf@[j] == data@[j],
            decreases data@.len() - i,
        {
            self.buf[i] = data[i];
            i = i + 1;
        }
        self.len = data.len();
        assert(self.frame() =~= data@);
    }

    fn get(&self) -> (f: Option<&[u8]>)
        requires
            self.wf(),
        ensures
            f is Some <==> self.frame().len() > 0,
            f matches Some(s) ==> s@ == self.frame(),
    {
        if self.len > 0 {
            Some(&self.buf.as_slice()[0..self.len])
        } else {
            None
        }
    }
}

/// Numbers and packs the frames of one outgoing stream.
#[derive(Debug)]
pub struct FrameSender {
    seq: SeqGen,
    prev: PrevFrame,
}

/// The state of an outgoing stream.
#[verifier::ext_equal]
pub struct SenderView {
    /// The number that the next packet gets.
    pub seq: u16,
    /// The encoded frame before; empty if there was none.
    pub prev: Seq<u8>,
}

impl View for FrameSender {
    type V = SenderView;

    closed spec fn view(&self) -> SenderView {
        SenderView { seq: self.seq.0, prev: self.prev.frame() }
    }
}

/// How long a datagram is that carries an encoded frame and nothing else.
pub open spec fn bare_size(payload_len: nat) -> nat {
    packet::HEADER_LEN as nat + packet::AUDIO_HEADER_LEN as nat + payload_len
}

/// Whether the frame before goes along with an encoded frame of `payload_len`
/// bytes: with redundancy, if there is one and the datagram stays within
/// `MAX_DATAGRAM`.
pub open spec fn copy_goes_along(s: SenderView, redundancy: bool, payload_len: nat) -> bool {
    redundancy && s.prev.len() > 0 && bare_size(payload_len) + 2 + s.prev.len() <= MAX_DATAGRAM
}

/// The packet that carries an encoded frame: with redundancy, the frame before
/// goes along where it fits.
pub open spec fn frame_packet(
    s: SenderView,
    timestamp: u32,
    codec: Codec,
    redundancy: bool,
    payload: Seq<u8>,
) -> AudioView {
    AudioView {
        timestamp,
        codec,
        payload,
        redundant: if copy_goes_along(s, redundancy, payload.len()) {
            Some(s.prev)
        } else {
            None
        },
    }
}

/// The datagram that carries an encoded frame.
pub open spec fn frame_datagram(
    s: SenderView,
    session_id: u16,
    sender_id: u16,
    timestamp: u32,
    codec: Codec,
    redundancy: bool,
    payload: Seq<u8>,
) -> Seq<u8> {
    packet::header_bytes(
        Header { ptype: PacketType::Audio, session_id, sender_id, seq: s.seq },
    ) + packet::audio_bytes(frame_packet(s, timestamp, codec, redundancy, payload))
}

/// How long the datagram of an encoded frame of `payload_len` bytes is.
pub open spec fn datagram_size(s: SenderView, redundancy: bool, payload_len: nat) -> nat {
    bare_size(payload_len) + if copy_goes_along(s, redundancy, payload_len) {
        2 + s.prev.len()
    } else {
        0
    }
}

/// A frame's datagram is as long as its parts, and within `MAX_DATAGRAM` for
/// every frame that can be sent.
pub proof fn law_datagram_size(
    s: SenderView,
    session_id: u16,
    sender_id: u16,
    timestamp: u32,
    codec: Codec,
    redundancy: bool,
    payload: Seq<u8>,
)
    ensures
        frame_datagram(s, session_id, sender_id, timestamp, codec, redundancy, payload).len()
            == datagram_size(s, redundancy, payload.len()),
        payload.len() <= MAX_FRAME_BYTES ==> datagram_size(s, redundancy, payload.len())
            <= MAX_DATAGRAM,
{
    packet::lemma_header_len(
        Header { ptype: PacketType::Audio, session_id, sender_id, seq: s.seq },
    );
    packet::lemma_audio_len(frame_packet(s, timestamp, codec, redundancy, payload));
}

/// An outgoing stream after a frame was sent.
pub open spec fn frame_sent(s: SenderView, payload: Seq<u8>) -> SenderView {
    SenderView { seq: crate::seq::ring_add(s.seq, 1), prev: payload }
}

impl FrameSender {
    /// There is room for the frame before.
    pub closed spec fn wf(self) -> bool {
        self.prev.wf()
    }

    pub fn new() -> (s: Self)
        ensures
            s.wf(),
            s@ == (SenderView { seq: 0, prev: Seq::empty() }),
    {
        FrameSender { seq: SeqGen::new(), prev: PrevFrame::new() }
    }

    /// The frame before, if it goes along with one of `payload_len` bytes.
    fn redundant(&self, redundancy: bool, payload_len: usize) -> (f: Option<&[u8]>)
        requires
            self.wf(),
            payload_len <= MAX_FRAME_BYTES,
        ensures
            f is Some <==> copy_goes_along(self@, redundancy, payload_len as nat),
            f matches Some(s) ==> s@ == self@.prev,
    {
        if !redundancy {
            return None;
        }
        let bare: usize = packet::HEADER_LEN + packet::AUDIO_HEADER_LEN + payload_len;
        match self.prev.get() {
            Some(f) if bare + 2 + f.len() <= MAX_DATAGRAM => Some(f),
            _ => None,
        }
    }

    /// How long the datagram of an encoded frame of `payload_len` bytes gets.
    pub fn datagram_len(&self, redundancy: bool, payload_len: usize) -> (n: usize)
        requires
            self.wf(),
            payload_len <= MAX_FRAME_BYTES,
        ensures
            n == datagram_size(self@, redundancy, payload_len as nat),
            n <= MAX_DATAGRAM,
    {
        let prev: usize = match self.redundant(redundancy, payload_len) {
            Some(f) => 2 + f.len(),
            None => 0,
        };
        packet::HEADER_LEN + packet::AUDIO_HEADER_LEN + payload_len + prev
    }

    /// Writes the datagram of an encoded frame into `dgram` and returns its
    /// length.
    pub fn write(
        &mut self,
        dgram: &mut [u8],
        session_id: u16,
        sender_id: u16,
        timestamp: u32,
        codec: Codec,
        redundancy: bool,
        payload: &[u8],
    ) -> (n: usize)
        requires
            old(self).wf(),
            payload@.len() <= MAX_FRAME_BYTES,
            datagram_size(old(self)@, redundancy, payload@.len()) <= old(dgram)@.len(),
        ensures
            final(self).wf(),
            final(self)@ == frame_sent(old(self)@, payload@),
            n <= MAX_DATAGRAM,
            n == frame_datagram(
                old(self)@,
                session_id,
                sender_id,
                timestamp,
                codec,
                redundancy,
                payload@,
            ).len(),
            final(dgram)@ == bytes::overwrite(
                old(dgram)@,
                0,
                frame_datagram(
                    old(self)@,
                    session_id,
                    sender_id,
                    timestamp,
                    codec,
                    redundancy,
                    payload@,
                ),
            ),
    {
        let header = Header {
            ptype: PacketType::Audio,
            session_id,
            sender_id,
            seq: self.seq.next(),
        };
        proof {
            packet::lemma_header_len(header);
            law_datagram_size(
                old(self)@,
                session_id,
                sender_id,
                timestamp,
                codec,
                redundancy,
                payload@,
            );
        }
        let redundant = self.redundant(redundancy, payload.len());
        let pkt = AudioPacket { timestamp, codec, payload, redundant };
        assert(pkt@ =~= frame_packet(old(self)@, timestamp, codec, redundancy, payload@));
        let n: usize = pkt.write(&header, dgram);
        self.prev.store(payload);
        n
    }
}

/// The first packet of a stream carries no frame before it. With redundancy
/// each later one carries the payload of the one before, just when both fit into
/// a datagram; without it none does.
pub proof fn law_redundancy_attaches_the_previous_frame(
    s: SenderView,
    first: Seq<u8>,
    second: Seq<u8>,
    timestamp: u32,
    codec: Codec,
)
    requires
        first.len() > 0,
    ensures
        frame_packet(
            SenderView { seq: 0, prev: Seq::empty() },
            timestamp,
            codec,
            true,
            first,
        ).redundant is None,
        frame_packet(frame_sent(s, first), timestamp, codec, true, second).redundant == if bare_size(
            second.len(),
        ) + 2 + first.len() <= MAX_DATAGRAM {
            Some(first)
        } else {
            None
        },
        frame_packet(frame_sent(s, first), timestamp, codec, false, second).redundant is None,
{
}

/// The receiver of a frame's datagram reads the packet that was sent.
pub proof fn law_sent_frames_are_read_back(
    s: SenderView,
    session_id: u16,
    sender_id: u16,
    timestamp: u32,
    codec: Codec,
    redundancy: bool,
    payload: Seq<u8>,
)
    requires
        payload.len() <= MAX_FRAME_BYTES,
        s.prev.len() <= MAX_FRAME_BYTES,
    ensures
        packet::datagram_of(
            frame_datagram(s, session_id, sender_id, timestamp, codec, redundancy, payload),
        ) == Ok::<_, packet::ParseError>(
            (
                Header { ptype: PacketType::Audio, session_id, sender_id, seq: s.seq },
                packet::PayloadView::Audio(
                    frame_packet(s, timestamp, codec, redundancy, payload),
                ),
            ),
        ),
{
    crate::roundtrip::law_audio_datagram_round_trip(
        Header { ptype: PacketType::Audio, session_id, sender_id, seq: s.seq },
        frame_packet(s, timestamp, codec, redundancy, payload),
    );
}

/// Packets are numbered one after the other, from 65535 on to zero, and the
/// frame that was sent is the one before the next.
pub proof fn law_frames_are_numbered_in_order(s: SenderView, payload: Seq<u8>)
    ensures
        s.seq < 0xFFFF ==> frame_sent(s, payload).seq == s.seq + 1,
        s.seq == 0xFFFF ==> frame_sent(s, payload).seq == 0,
        frame_sent(s, payload).prev == payload,
{
}

/// The frame before goes along exactly if redundancy is on, there is one, and
/// the datagram with both in it is within `MAX_DATAGRAM`. Whether it does or
/// not, the packet carries the frame itself unchanged.
pub proof fn law_copy_goes_along_where_it_fits(
    s: SenderView,
    header: Header,
    timestamp: u32,
    codec: Codec,
    redundancy: bool,
    payload: Seq<u8>,
)
    ensures
        ({
            let with_copy = AudioView { timestamp, codec, payload, redundant: Some(s.prev) };
            let without = AudioView { timestamp, codec, payload, redundant: None };
            let sent = frame_packet(s, timestamp, codec, redundancy, payload);
            sent == if redundancy && s.prev.len() > 0 && packet::header_bytes(header).len()
                + packet::audio_bytes(with_copy).len() <= MAX_DATAGRAM {
                with_copy
            } else {
                without
            }
        }),
{
    packet::lemma_header_len(header);
    packet::lemma_audio_len(AudioView { timestamp, codec, payload, redundant: Some(s.prev) });
}

// ---------------------------------------------------------------------------
// The mix
// ---------------------------------------------------------------------------
/// Who is muted and who is soloed on the host: index 0 = host, 1..=4 = clients.
#[derive(Debug, Clone, Copy)]
pub struct MixFlags {
    pub muted: [bool; 5],
    pub soloed: [bool; 5],
}

/// Whether anyone who can be heard is soloed. A solo on a muted player or an
/// empty slot does not count: it must not silence the room.
pub open spec fn solo_in_force(flags: MixFlags, active: Seq<bool>) -> bool {
    exists|i: int|
        0 <= i <= MAX_CLIENTS && #[trigger] flags.soloed@[i] && !flags.muted@[i] && (i == 0
            || active[i - 1])
}

/// Whether a player's signal goes into the mix.
pub open spec fn mixed_in(flags: MixFlags, player: int, any_solo: bool) -> bool {
    !flags.muted@[player] && (!any_solo || flags.soloed@[player])
}

impl MixFlags {
    pub fn new() -> (f: Self)
        ensures
            forall|i: int| 0 <= i < 5 ==> !f.muted@[i] && !f.soloed@[i],
    {
        MixFlags {
            muted: [false, false, false, false, false],
            soloed: [false, false, false, false, false],
        }
    }

    pub fn any_solo(&self, active: &[bool; MAX_CLIENTS]) -> (any: bool)
        ensures
            any == solo_in_force(*self, active@),
    {
        let mut i: usize = 0;
        while i <= MAX_CLIENTS
            invariant
                i <= MAX_CLIENTS + 1,
                forall|j: int|
                    0 <= j < i ==> !(#[trigger] self.soloed@[j] && !self.muted@[j] && (j == 0
                        || active@[j - 1])),
            decreases MAX_CLIENTS + 1 - i,
        {
            if self.soloed[i] && !self.muted[i] && (i == 0 || active[i - 1]) {
                assert(self.soloed@[i as int]);
                return true;
            }
            i = i + 1;
        }
        false
    }

    pub fn in_mix(&self, player: usize, any_solo: bool) -> (included: bool)
        requires
            player <= MAX_CLIENTS,
        ensures
            included == mixed_in(*self, player as int, any_solo),
    {
        !self.muted[player] && (!any_solo || self.soloed[player])
    }
}

/// Muting and soloing never silence the whole room by accident: whenever anyone
/// who can be heard is not muted, someone who can be heard is in the mix.
pub proof fn law_room_is_never_silenced(flags: MixFlags, active: Seq<bool>, player: int)
    requires
        active.len() == MAX_CLIENTS,
        0 <= player <= MAX_CLIENTS,
        player == 0 || active[player - 1],
        !flags.muted@[player],
    ensures
        exists|i: int|
            0 <= i <= MAX_CLIENTS && (i == 0 || active[i - 1]) && #[trigger] mixed_in(
                flags,
                i,
                solo_in_force(flags, active),
            ),
{
    let solo = solo_in_force(flags, active);
    if solo {
        let i = choose|i: int|
            0 <= i <= MAX_CLIENTS && #[trigger] flags.soloed@[i] && !flags.muted@[i] && (i == 0
                || active[i - 1]);
        assert(mixed_in(flags, i, solo));
    } else {
        assert(mixed_in(flags, player, solo));
    }
}

/// While a solo is in force only soloed players are in the mix; a muted player
/// never is.
pub proof fn law_solo_isolates(flags: MixFlags, active: Seq<bool>, player: int)
    requires
        0 <= player <= MAX_CLIENTS,
    ensures
        flags.muted@[player] ==> !mixed_in(flags, player, solo_in_force(flags, active)),
        solo_in_force(flags, active) && !flags.soloed@[player] ==> !mixed_in(
            flags,
            player,
            solo_in_force(flags, active),
        ),
        !solo_in_force(flags, active) && !flags.muted@[player] ==> mixed_in(
            flags,
            player,
            solo_in_force(flags, active),
        ),
{
}

/// If anyone who can be heard is soloed, then exactly those who are soloed and
/// not muted are in the mix, however many they are.
pub proof fn law_soloed_players_are_heard_alone(
    flags: MixFlags,
    active: Seq<bool>,
    soloed: int,
    player: int,
)
    requires
        active.len() == MAX_CLIENTS,
        0 <= soloed <= MAX_CLIENTS,
        flags.soloed@[soloed],
        !flags.muted@[soloed],
        soloed == 0 || active[soloed - 1],
        0 <= player <= MAX_CLIENTS,
    ensures
        solo_in_force(flags, active),
        mixed_in(flags, player, solo_in_force(flags, active)) == (flags.soloed@[player]
            && !flags.muted@[player]),
{
}

/// If nobody who can be heard is soloed, then everyone who is not muted is in
/// the mix: a solo on a muted player or on an empty slot changes nothing.
pub proof fn law_without_a_solo_all_are_heard(flags: MixFlags, active: Seq<bool>, player: int)
    requires
        active.len() == MAX_CLIENTS,
        !flags.soloed@[0] || flags.muted@[0],
        forall|i: int|
            1 <= i <= MAX_CLIENTS ==> !(#[trigger] flags.soloed@[i]) || flags.muted@[i]
                || !active[i - 1],
        0 <= player <= MAX_CLIENTS,
    ensures
        mixed_in(flags, player, solo_in_force(flags, active)) == !flags.muted@[player],
{
}

/// What a player hears of themselves, besides the mix of the others.
#[derive(Debug, Clone, Copy, PartialEq, Eq, Structural)]
pub enum SelfMonitor {
    /// Their signal as it is in the mix.
    InMix,
    /// Nothing.
    Removed,
    /// Their signal as it was captured.
    Direct,
}

/// How the host hears itself.
pub open spec fn own_monitor(mode: MonitorMode) -> SelfMonitor {
    match mode {
        MonitorMode::ThroughMix => SelfMonitor::InMix,
        MonitorMode::Off => SelfMonitor::Removed,
        MonitorMode::Direct => SelfMonitor::Direct,
    }
}

/// Each way of monitoring is heard as such, and no two of them alike.
pub proof fn law_monitoring_is_as_chosen(mode: MonitorMode)
    ensures
        own_monitor(mode) == SelfMonitor::InMix <==> mode == MonitorMode::ThroughMix,
        own_monitor(mode) == SelfMonitor::Removed <==> mode == MonitorMode::Off,
        own_monitor(mode) == SelfMonitor::Direct <==> mode == MonitorMode::Direct,
{
}

/// How the host hears itself: it makes the mix, so only direct monitoring and
/// no monitoring take its own signal out of that.
pub fn host_monitor(mode: MonitorMode) -> (m: SelfMonitor)
    ensures
        m == own_monitor(mode),
        m == match mode {
            MonitorMode::ThroughMix => SelfMonitor::InMix,
            MonitorMode::Off => SelfMonitor::Removed,
            MonitorMode::Direct => SelfMonitor::Direct,
        },
{
    match mode {
        MonitorMode::ThroughMix => SelfMonitor::InMix,
        MonitorMode::Off => SelfMonitor::Removed,
        MonitorMode::Direct => SelfMonitor::Direct,
    }
}

// ---------------------------------------------------------------------------
// Host
// ---------------------------------------------------------------------------
/// The host's pipeline: a stream to each client.
#[derive(Debug)]
pub struct HostPipeline {
    params: EngineParams,
    senders: [FrameSender; MAX_CLIENTS],
    last_active: [bool; MAX_CLIENTS],
    sample_clock: u32,
}

/// The state of the host's pipeline.
#[verifier::ext_equal]
pub struct HostPipelineView {
    pub params: EngineParams,
    pub senders: Seq<SenderView>,
    /// The slots that were active in the frame that is being processed.
    pub active: Seq<bool>,
    /// The timestamp of that frame.
    pub sample_clock: u32,
}

impl View for HostPipeline {
    type V = HostPipelineView;

    closed spec fn view(&self) -> HostPipelineView {
        HostPipelineView {
            params: self.params,
            senders: Seq::new(MAX_CLIENTS as nat, |i: int| self.senders@[i]@),
            active: self.last_active@,
            sample_clock: self.sample_clock,
        }
    }
}

/// What a client is sent in a frame.
#[derive(Debug, Clone, Copy, PartialEq, Eq, Structural)]
pub enum ClientFeed {
    /// Nobody is there.
    Nothing,
    /// Its own audio (latency measurement).
    Echo,
    /// The mix without its own audio.
    MixMinusSelf,
}

/// What is done with each client's stream in a frame.
#[derive(Debug, Clone, Copy)]
pub struct FramePlan {
    /// The slot came alive (new client): forget stale playout state.
    pub restart: [bool; MAX_CLIENTS],
    /// Who is in the mix: index 0 = host, 1..=4 = clients.
    pub included: [bool; 5],
}

/// The timestamp of the frame after one of `frame_samples` samples.
pub open spec fn clock_after(clock: u32, frame_samples: usize) -> int {
    (clock + frame_samples) % 0x1_0000_0000
}

/// Whether the playout of a slot starts afresh in a frame.
pub open spec fn starts_afresh(active_before: bool, active: bool) -> bool {
    active && !active_before
}

/// What the client in a slot is sent, if somebody is there.
pub open spec fn feed_for(active: bool, echo: bool) -> ClientFeed {
    if !active {
        ClientFeed::Nothing
    } else if echo {
        ClientFeed::Echo
    } else {
        ClientFeed::MixMinusSelf
    }
}

/// A slot starts afresh in the frame in which it comes alive: not while it is
/// empty, and not again as long as it stays alive.
pub proof fn law_a_slot_starts_afresh_once(before: bool, now: bool, after: bool)
    ensures
        starts_afresh(false, true),
        starts_afresh(before, now) ==> now && !before,
        starts_afresh(before, now) ==> !starts_afresh(now, after),
{
}

/// An empty slot is sent nothing, and any other is sent something: its own audio
/// just when the host echoes, and else the mix without it.
pub proof fn law_everyone_there_is_sent_something(active: bool, echo: bool)
    ensures
        feed_for(active, echo) == ClientFeed::Nothing <==> !active,
        feed_for(active, echo) == ClientFeed::Echo <==> active && echo,
        feed_for(active, echo) == ClientFeed::MixMinusSelf <==> active && !echo,
{
}

impl HostPipeline {
    /// Every outgoing stream has room for the frame before.
    pub closed spec fn wf(self) -> bool {
        forall|i: int| 0 <= i < MAX_CLIENTS ==> (#[trigger] self.senders@[i]).wf()
    }

    pub fn new(params: &EngineParams) -> (p: Self)
        ensures
            p.wf(),
            p@ == (HostPipelineView {
                params: *params,
                senders: Seq::new(
                    MAX_CLIENTS as nat,
                    |i: int| SenderView { seq: 0, prev: Seq::empty() },
                ),
                active: Seq::new(MAX_CLIENTS as nat, |i: int| false),
                sample_clock: 0,
            }),
    {
        let p = HostPipeline {
            params: *params,
            senders: [
                FrameSender::new(),
                FrameSender::new(),
                FrameSender::new(),
                FrameSender::new(),
            ],
            last_active: [false, false, false, false],
            sample_clock: 0,
        };
        assert(p@.senders =~= Seq::new(
            MAX_CLIENTS as nat,
            |i: int| SenderView { seq: 0, prev: Seq::empty() },
        ));
        assert(p@.active =~= Seq::new(MAX_CLIENTS as nat, |i: int| false));
        p
    }

    /// Starts a frame: notes which slots are active, and says whose playout
    /// starts afresh and who goes into the mix.
    pub fn begin_frame(&mut self, active: &[bool; MAX_CLIENTS], flags: &MixFlags) -> (plan:
        FramePlan)
        requires
            old(self).wf(),
        ensures
            final(self).wf(),
            final(self)@ == (HostPipelineView { active: active@, ..old(self)@ }),
            forall|i: int|
                0 <= i < MAX_CLIENTS ==> #[trigger] plan.restart@[i] == (active@[i]
                    && !old(self)@.active[i]),
            forall|i: int|
                0 <= i < MAX_CLIENTS ==> #[trigger] plan.restart@[i] == starts_afresh(
                    old(self)@.active[i],
                    active@[i],
                ),
            forall|i: int|
                0 <= i <= MAX_CLIENTS ==> #[trigger] plan.included@[i] == mixed_in(
                    *flags,
                    i,
                    solo_in_force(*flags, active@),
                ),
    {
        let mut restart = [false, false, false, false];
        let mut i: usize = 0;
        while i < MAX_CLIENTS
            invariant
                i <= MAX_CLIENTS,
                self.senders == old(self).senders,
                self.params == old(self).params,
                self.sample_clock == old(self).sample_clock,
                forall|j: int|
                    0 <= j < MAX_CLIENTS ==> #[trigger] self.last_active@[j] == if j < i {
                        active@[j]
                    } else {
                        old(self).last_active@[j]
                    },
                forall|j: int|
                    0 <= j < i ==> #[trigger] restart@[j] == (active@[j]
                        && !old(self).last_active@[j]),
            decreases MAX_CLIENTS - i,
        {
            restart[i] = active[i] && !self.last_active[i];
            self.last_active[i] = active[i];
            i = i + 1;
        }
        let any_solo = flags.any_solo(active);
        let included = [
            flags.in_mix(0, any_solo),
            flags.in_mix(1, any_solo),
            flags.in_mix(2, any_solo),
            flags.in_mix(3, any_solo),
            flags.in_mix(4, any_solo),
        ];
        assert(self@.active =~= active@);
        assert(self@.senders =~= old(self)@.senders);
        FramePlan { restart, included }
    }

    /// What the client in a slot is sent in this frame.
    pub fn client_feed(&self, slot: usize) -> (f: ClientFeed)
        requires
            slot < MAX_CLIENTS,
        ensures
            f == feed_for(self@.active[slot as int], self@.params.echo),
            f == if !self@.active[slot as int] {
                ClientFeed::Nothing
            } else if self@.params.echo {
                ClientFeed::Echo
            } else {
                ClientFeed::MixMinusSelf
            },
    {
        if !self.last_active[slot] {
            ClientFeed::Nothing
        } else if self.params.echo {
            ClientFeed::Echo
        } else {
            ClientFeed::MixMinusSelf
        }
    }

    /// How long the datagram for the client in a slot gets.
    pub fn datagram_len(&self, slot: usize, payload_len: usize) -> (n: usize)
        requires
            self.wf(),
            slot < MAX_CLIENTS,
            payload_len <= MAX_FRAME_BYTES,
        ensures
            n == datagram_size(
                self@.senders[slot as int],
                self@.params.redundancy,
                payload_len as nat,
            ),
            n <= MAX_DATAGRAM,
    {
        self.senders[slot].datagram_len(self.params.redundancy, payload_len)
    }

    /// Writes the datagram for the client in a slot: the encoded frame of what
    /// that client hears. Returns its length.
    pub fn write_frame(
        &mut self,
        slot: usize,
        session_id: u16,
        payload: &[u8],
        dgram: &mut [u8],
    ) -> (n: usize)
        requires
            old(self).wf(),
            slot < MAX_CLIENTS,
            payload@.len() <= MAX_FRAME_BYTES,
            datagram_size(
                old(self)@.senders[slot as int],
                old(self)@.params.redundancy,
                payload@.len(),
            ) <= old(dgram)@.len(),
        ensures
            final(self).wf(),
            final(self)@ == (HostPipelineView {
                senders: old(self)@.senders.update(
                    slot as int,
                    frame_sent(old(self)@.senders[slot as int], payload@),
                ),
                ..old(self)@
            }),
            n <= MAX_DATAGRAM,
            n == host_frame_datagram(old(self)@, slot as int, session_id, payload@).len(),
            final(dgram)@ == bytes::overwrite(
                old(dgram)@,
                0,
                host_frame_datagram(old(self)@, slot as int, session_id, payload@),
            ),
    {
        let clock: u32 = self.sample_clock;
        let codec = self.params.codec;
        let redundancy = self.params.redundancy;
        let n: usize = self.senders[slot].write(
            dgram,
            session_id,
            HOST_SENDER_ID,
            clock,
            codec,
            redundancy,
            payload,
        );
        assert(self@.senders =~= old(self)@.senders.update(
            slot as int,
            frame_sent(old(self)@.senders[slot as int], payload@),
        ));
        n
    }

    /// Ends a frame: the sample clock moves on.
    pub fn end_frame(&mut self)
        requires
            old(self).wf(),
        ensures
            final(self).wf(),
            final(self)@ == (HostPipelineView {
                sample_clock: clock_after(
                    old(self)@.sample_clock,
                    old(self)@.params.frame_samples,
                ) as u32,
                ..old(self)@
            }),
    {
        self.sample_clock = advance(self.sample_clock, self.params.frame_samples);
        assert(self@.senders =~= old(self)@.senders);
    }
}

/// The datagram for the client in a slot.
pub open spec fn host_frame_datagram(
    p: HostPipelineView,
    slot: int,
    session_id: u16,
    payload: Seq<u8>,
) -> Seq<u8> {
    frame_datagram(
        p.senders[slot],
        session_id,
        HOST_SENDER_ID,
        p.sample_clock,
        p.params.codec,
        p.params.redundancy,
        payload,
    )
}

/// A client reads in the datagram of its slot the number that is due in that
/// stream, the clock of the frame, and what was encoded for it; the host is
/// named as the sender.
pub proof fn law_clients_read_their_frame(
    p: HostPipelineView,
    slot: int,
    session_id: u16,
    payload: Seq<u8>,
)
    requires
        0 <= slot < p.senders.len(),
        payload.len() <= MAX_FRAME_BYTES,
        p.senders[slot].prev.len() <= MAX_FRAME_BYTES,
    ensures
        packet::datagram_of(host_frame_datagram(p, slot, session_id, payload)) matches Ok(
            (h, packet::PayloadView::Audio(a)),
        ) && h.ptype == PacketType::Audio && h.session_id == session_id && h.sender_id
            == HOST_SENDER_ID && h.seq == p.senders[slot].seq && a.timestamp == p.sample_clock
            && a.codec == p.params.codec && a.payload == payload && (a.redundant is None
            || p.params.redundancy && a.redundant == Some(p.senders[slot].prev)),
{
    law_sent_frames_are_read_back(
        p.senders[slot],
        session_id,
        HOST_SENDER_ID,
        p.sample_clock,
        p.params.codec,
        p.params.redundancy,
        payload,
    );
}

/// The host reads in a client's datagram the id of that client, the number that
/// is due in its stream, the clock of the frame, and what was encoded.
pub proof fn law_the_host_reads_a_clients_frame(
    p: ClientPipelineView,
    session_id: u16,
    sender_id: u16,
    payload: Seq<u8>,
)
    requires
        payload.len() <= MAX_FRAME_BYTES,
        p.sender.prev.len() <= MAX_FRAME_BYTES,
    ensures
        packet::datagram_of(client_frame_datagram(p, session_id, sender_id, payload)) matches Ok(
            (h, packet::PayloadView::Audio(a)),
        ) && h.ptype == PacketType::Audio && h.session_id == session_id && h.sender_id == sender_id
            && h.seq == p.sender.seq && a.timestamp == p.sample_clock && a.codec == p.params.codec
            && a.payload == payload && (a.redundant is None || p.params.redundancy && a.redundant
            == Some(p.sender.prev)),
{
    law_sent_frames_are_read_back(
        p.sender,
        session_id,
        sender_id,
        p.sample_clock,
        p.params.codec,
        p.params.redundancy,
        payload,
    );
}

/// The clock of the next frame is ahead by the samples of this one, and starts
/// again at zero after the last number of 32 bits.
pub proof fn law_clock_counts_samples(clock: u32, frame_samples: usize)
    requires
        frame_samples <= 0xFFFF_FFFF,
    ensures
        clock + frame_samples <= 0xFFFF_FFFF ==> clock_after(clock, frame_samples) == clock
            + frame_samples,
        clock + frame_samples > 0xFFFF_FFFF ==> clock_after(clock, frame_samples) == clock
            + frame_samples - 0x1_0000_0000,
{
}

fn advance(clock: u32, frame_samples: usize) -> (next: u32)
    ensures
        next == clock_after(clock, frame_samples),
{
    let step: u64 = frame_samples as u64 % 0x1_0000_0000;
    ((clock as u64 + step) % 0x1_0000_0000) as u32
}

// ---------------------------------------------------------------------------
// Client
// ---------------------------------------------------------------------------
/// A client's pipeline: one stream to the host.
#[derive(Debug)]
pub struct ClientPipeline {
    params: EngineParams,
    sender: FrameSender,
    was_joined: bool,
    sample_clock: u32,
}

/// The state of a client's pipeline.
#[verifier::ext_equal]
pub struct ClientPipelineView {
    pub params: EngineParams,
    pub sender: SenderView,
    /// Whether we were joined in the frame that is being processed.
    pub joined: bool,
    /// The timestamp of that frame.
    pub sample_clock: u32,
}

impl View for ClientPipeline {
    type V = ClientPipelineView;

    closed spec fn view(&self) -> ClientPipelineView {
        ClientPipelineView {
            params: self.params,
            sender: self.sender@,
            joined: self.was_joined,
            sample_clock: self.sample_clock,
        }
    }
}

/// The datagram with which a client sends a frame to its host.
pub open spec fn client_frame_datagram(
    p: ClientPipelineView,
    session_id: u16,
    sender_id: u16,
    payload: Seq<u8>,
) -> Seq<u8> {
    frame_datagram(
        p.sender,
        session_id,
        sender_id,
        p.sample_clock,
        p.params.codec,
        p.params.redundancy,
        payload,
    )
}

impl ClientPipeline {
    /// The outgoing stream has room for the frame before.
    pub closed spec fn wf(self) -> bool {
        self.sender.wf()
    }

    pub fn new(params: &EngineParams) -> (p: Self)
        ensures
            p.wf(),
            p@ == (ClientPipelineView {
                params: *params,
                sender: SenderView { seq: 0, prev: Seq::empty() },
                joined: false,
                sample_clock: 0,
            }),
    {
        ClientPipeline {
            params: *params,
            sender: FrameSender::new(),
            was_joined: false,
            sample_clock: 0,
        }
    }

    /// Starts a frame. Returns true if we have just joined: the playout then
    /// starts afresh.
    pub fn begin_frame(&mut self, joined: bool) -> (restart: bool)
        requires
            old(self).wf(),
        ensures
            final(self).wf(),
            restart == (joined && !old(self)@.joined),
            restart == starts_afresh(old(self)@.joined, joined),
            final(self)@ == (ClientPipelineView { joined, ..old(self)@ }),
    {
        let restart = joined && !self.was_joined;
        self.was_joined = joined;
        restart
    }

    /// How long the datagram of our own encoded frame gets.
    pub fn datagram_len(&self, payload_len: usize) -> (n: usize)
        requires
            self.wf(),
            payload_len <= MAX_FRAME_BYTES,
        ensures
            n == datagram_size(self@.sender, self@.params.redundancy, payload_len as nat),
            n <= MAX_DATAGRAM,
    {
        self.sender.datagram_len(self.params.redundancy, payload_len)
    }

    /// Writes the datagram of our own encoded frame and returns its length.
    pub fn write_frame(
        &mut self,
        session_id: u16,
        sender_id: u16,
        payload: &[u8],
        dgram: &mut [u8],
    ) -> (n: usize)
        requires
            old(self).wf(),
            payload@.len() <= MAX_FRAME_BYTES,
            datagram_size(old(self)@.sender, old(self)@.params.redundancy, payload@.len())
                <= old(dgram)@.len(),
        ensures
            final(self).wf(),
            final(self)@ == (ClientPipelineView {
                sender: frame_sent(old(self)@.sender, payload@),
                ..old(self)@
            }),
            n <= MAX_DATAGRAM,
            n == client_frame_datagram(old(self)@, session_id, sender_id, payload@).len(),
            final(dgram)@ == bytes::overwrite(
                old(dgram)@,
                0,
                client_frame_datagram(old(self)@, session_id, sender_id, payload@),
            ),
    {
        let clock: u32 = self.sample_clock;
        let codec = self.params.codec;
        let redundancy = self.params.redundancy;
        self.sender.write(dgram, session_id, sender_id, clock, codec, redundancy, payload)
    }

    /// Whether our own captured signal is played along with the mix.
    pub fn monitors_directly(&self) -> (direct: bool)
        ensures
            direct == (self@.params.monitor == MonitorMode::Direct),
    {
        matches!(self.params.monitor, MonitorMode::Direct)
    }

    /// Ends a frame: the sample clock moves on.
    pub fn end_frame(&mut self)
        requires
            old(self).wf(),
        ensures
            final(self).wf(),
            final(self)@ == (ClientPipelineView {
                sample_clock: clock_after(
                    old(self)@.sample_clock,
                    old(self)@.params.frame_samples,
                ) as u32,
                ..old(self)@
            }),
    {
        self.sample_clock = advance(self.sample_clock, self.params.frame_samples);
    }
}

} // verus!
