//! Jitter buffer: the network receive thread writes frames in as they arrive,
//! the audio callback reads them out in order, no allocation after
//! construction.
//!
//! Layout: a fixed ring of [`SLOTS`] slots, slot index = `seq % SLOTS`. Each
//! slot stores the *full* 16-bit sequence number so packets aliased across
//! the ring window (64 x 2.5 ms = 160 ms) are told apart.
//!
//! Adaptive playout policy ([`PlayoutController`]) is kept separate from the
//! buffer so it can be driven by scripted arrival patterns.
use crate::seq::{diff, newer_than};
use crate::MAX_FRAME_BYTES;
use vstd::prelude::*;

verus! {

pub const SLOTS: usize = 64;

#[derive(Debug)]
struct Slot {
    written: bool,
    seq: u16,
    timestamp: u32,
    len: usize,
    payload: Vec<u8>,
}

/// A stored frame.
#[verifier::ext_equal]
pub struct FrameView {
    pub seq: u16,
    pub timestamp: u32,
    pub payload: Seq<u8>,
}

impl Slot {
    spec fn wf(self) -> bool {
        &&& self.payload@.len() == MAX_FRAME_BYTES
        &&& self.len <= MAX_FRAME_BYTES
    }

    spec fn frame(self) -> Option<FrameView> {
        if self.written {
            Some(
                FrameView {
                    seq: self.seq,
                    timestamp: self.timestamp,
                    payload: self.payload@.take(self.len as int),
                },
            )
        } else {
            None
        }
    }

    fn new() -> (s: Self)
        ensures
            s.wf(),
            s.frame() is None,
    {
        Slot {
            written: false,
            seq: 0,
            timestamp: 0,
            len: 0,
            payload: vec![0u8; MAX_FRAME_BYTES],
        }
    }
}

#[derive(Debug, Clone, Copy, PartialEq, Eq, Structural)]
pub enum PushOutcome {
    Stored,
    /// Arrived after its playout slot had already been concealed.
    Late,
    /// Same seq already present.
    Duplicate,
    /// Payload larger than `MAX_FRAME_BYTES`.
    TooBig,
}

#[derive(Debug, Clone, Copy, PartialEq, Eq, Structural)]
pub enum PopOutcome {
    /// A frame was copied into `out` (`len` bytes, sender timestamp).
    Frame { len: usize, timestamp: u32 },
    /// Nothing usable for this sequence number: conceal (PLC).
    Missing,
}

/// Counters the UI reads; each wraps around.
#[derive(Debug, Clone, Copy, PartialEq, Eq, Structural)]
pub struct JitterStats {
    pub received: u64,
    pub late: u64,
    pub duplicates: u64,
    pub concealed: u64,
    pub played: u64,
    pub resets: u64,
    /// RFC 3550-style inter-arrival jitter estimate, microseconds, as the bits
    /// of a single-precision number.
    pub jitter_us_bits: u32,
}

impl Default for JitterStats {
    fn default() -> (s: Self)
        ensures
            s == no_stats(),
    {
        JitterStats {
            received: 0,
            late: 0,
            duplicates: 0,
            concealed: 0,
            played: 0,
            resets: 0,
            jitter_us_bits: 0,
        }
    }
}

pub open spec fn no_stats() -> JitterStats {
    JitterStats {
        received: 0,
        late: 0,
        duplicates: 0,
        concealed: 0,
        played: 0,
        resets: 0,
        jitter_us_bits: 0,
    }
}

#[derive(Debug)]
pub struct JitterBuffer {
    slots: Vec<Slot>,
    /// Next sequence number the reader will play.
    next_seq: u16,
    /// Newest sequence number stored.
    newest_seq: u16,
    /// Becomes true on the first push; `next_seq`/`newest_seq` are garbage
    /// before that.
    started: bool,
    pub stats: JitterStats,
}

/// The state of a jitter buffer: what each slot holds, and the positions.
#[verifier::ext_equal]
pub struct JitterView {
    pub slots: Seq<Option<FrameView>>,
    pub next: u16,
    pub newest: u16,
    pub started: bool,
    pub stats: JitterStats,
}

/// A buffer that no frame has arrived at yet.
pub open spec fn empty_buffer() -> JitterView {
    JitterView {
        slots: Seq::new(SLOTS as nat, |i: int| None),
        next: 0,
        newest: 0,
        started: false,
        stats: no_stats(),
    }
}

/// The slot in which the frame with a sequence number is stored.
pub open spec fn slot_index(s: u16) -> int {
    s as int % SLOTS as int
}

/// The frame with the sequence number `s`, if it is stored.
pub open spec fn stored(b: JitterView, s: u16) -> Option<FrameView> {
    match b.slots[slot_index(s)] {
        Some(f) if f.seq == s => Some(f),
        _ => None,
    }
}

/// What a frame that arrives does to the buffer. The first frame of a stream
/// sets both positions; one that is older than the read position is late.
pub open spec fn pushed(b: JitterView, s: u16, timestamp: u32, payload: Seq<u8>) -> (
    JitterView,
    PushOutcome,
) {
    if payload.len() > MAX_FRAME_BYTES {
        (b, PushOutcome::TooBig)
    } else if b.started && crate::seq::ring_diff(b.next, s) > 0 {
        (
            JitterView {
                stats: JitterStats { late: b.stats.late.wrapping_add(1), ..b.stats },
                ..b
            },
            PushOutcome::Late,
        )
    } else {
        let placed = JitterView {
            started: true,
            next: if b.started {
                b.next
            } else {
                s
            },
            newest: if b.started && crate::seq::ring_diff(s, b.newest) <= 0 {
                b.newest
            } else {
                s
            },
            ..b
        };
        if stored(b, s) is Some {
            (
                JitterView {
                    stats: JitterStats {
                        duplicates: b.stats.duplicates.wrapping_add(1),
                        ..b.stats
                    },
                    ..placed
                },
                PushOutcome::Duplicate,
            )
        } else {
            (
                JitterView {
                    slots: b.slots.update(
                        slot_index(s),
                        Some(FrameView { seq: s, timestamp, payload }),
                    ),
                    stats: JitterStats { received: b.stats.received.wrapping_add(1), ..b.stats },
                    ..placed
                },
                PushOutcome::Stored,
            )
        }
    }
}

/// What taking the frame at the read position does to the buffer, and that
/// frame if it is there. The position advances either way.
pub open spec fn popped(b: JitterView) -> (JitterView, Option<FrameView>) {
    if !b.started {
        (b, None)
    } else {
        match stored(b, b.next) {
            None => (
                JitterView {
                    next: crate::seq::ring_add(b.next, 1),
                    stats: JitterStats {
                        concealed: b.stats.concealed.wrapping_add(1),
                        ..b.stats
                    },
                    ..b
                },
                None,
            ),
            Some(f) => (
                JitterView {
                    slots: b.slots.update(slot_index(b.next), None),
                    next: crate::seq::ring_add(b.next, 1),
                    stats: JitterStats { played: b.stats.played.wrapping_add(1), ..b.stats },
                    ..b
                },
                Some(f),
            ),
        }
    }
}

/// What dropping the frame at the read position does to the buffer.
pub open spec fn skipped(b: JitterView) -> JitterView {
    if !b.started {
        b
    } else {
        JitterView {
            slots: if stored(b, b.next) is Some {
                b.slots.update(slot_index(b.next), None)
            } else {
                b.slots
            },
            next: crate::seq::ring_add(b.next, 1),
            ..b
        }
    }
}

/// The buffer after it was told to forget the stream.
pub open spec fn forgotten(b: JitterView) -> JitterView {
    JitterView {
        slots: Seq::new(SLOTS as nat, |i: int| None),
        started: false,
        stats: JitterStats { resets: b.stats.resets.wrapping_add(1), ..b.stats },
        ..b
    }
}

/// How many frames are buffered ahead of the read position.
pub open spec fn depth_of(b: JitterView) -> int {
    if b.started {
        crate::seq::ring_diff(b.newest, b.next) + 1
    } else {
        0
    }
}

impl Default for JitterBuffer {
    fn default() -> (b: Self)
        ensures
            b.wf(),
            b@ == empty_buffer(),
    {
        JitterBuffer::new()
    }
}

impl View for JitterBuffer {
    type V = JitterView;

    closed spec fn view(&self) -> JitterView {
        JitterView {
            slots: Seq::new(SLOTS as nat, |i: int| self.slots@[i].frame()),
            next: self.next_seq,
            newest: self.newest_seq,
            started: self.started,
            stats: self.stats,
        }
    }
}

impl JitterBuffer {
    /// The ring is complete, and every slot in it has room for a frame.
    pub closed spec fn wf(self) -> bool {
        &&& self.slots@.len() == SLOTS
        &&& forall|i: int| 0 <= i < SLOTS ==> (#[trigger] self.slots@[i]).wf()
    }

    /// The counters.
    pub fn stats(&self) -> (s: JitterStats)
        ensures
            s == self@.stats,
    {
        self.stats
    }

    pub fn new() -> (b: Self)
        ensures
            b.wf(),
            b@ == empty_buffer(),
    {
        let mut slots: Vec<Slot> = Vec::with_capacity(SLOTS);
        let mut i: usize = 0;
        while i < SLOTS
            invariant
                i <= SLOTS,
                slots@.len() == i,
                forall|j: int|
                    0 <= j < i ==> (#[trigger] slots@[j]).wf() && slots@[j].frame() is None,
            decreases SLOTS - i,
        {
            slots.push(Slot::new());
            i = i + 1;
        }
        JitterBuffer {
            slots,
            next_seq: 0,
            newest_seq: 0,
            started: false,
            stats: JitterStats::default(),
        }
    }

    fn holds(&self, s: u16) -> (held: bool)
        requires
            self.wf(),
        ensures
            held == (stored(self@, s) is Some),
    {
        let slot = &self.slots[s as usize % SLOTS];
        slot.written && slot.seq == s
    }

    /// Writer side (network receive thread).
    pub fn push(&mut self, incoming_seq: u16, timestamp: u32, payload: &[u8]) -> (outcome:
        PushOutcome)
        requires
            old(self).wf(),
        ensures
            final(self).wf(),
            final(self)@ == pushed(old(self)@, incoming_seq, timestamp, payload@).0,
            outcome == pushed(old(self)@, incoming_seq, timestamp, payload@).1,
    {
        if payload.len() > MAX_FRAME_BYTES {
            return PushOutcome::TooBig;
        }
        if !self.started {
            // First packet establishes the stream position for both sides.
            self.next_seq = incoming_seq;
            self.newest_seq = incoming_seq;
            self.started = true;
        } else {
            if newer_than(self.next_seq, incoming_seq) {
                self.stats.late = self.stats.late.wrapping_add(1);
                return PushOutcome::Late;
            }
            if newer_than(incoming_seq, self.newest_seq) {
                self.newest_seq = incoming_seq;
            }
        }
        if self.holds(incoming_seq) {
            self.stats.duplicates = self.stats.duplicates.wrapping_add(1);
            return PushOutcome::Duplicate;
        }
        // Whatever was here is either consumed or at least a full ring away
        // from the incoming packet: overwrite it.
        let i: usize = incoming_seq as usize % SLOTS;
        let ghost before = self@;
        let slot = &mut self.slots[i];
        slot.written = true;
        slot.seq = incoming_seq;
        slot.timestamp = timestamp;
        slot.len = payload.len();
        copy_frame(payload, &mut slot.payload);
        assert(self@.slots =~= before.slots.update(
            i as int,
            Some(FrameView { seq: incoming_seq, timestamp, payload: payload@ }),
        ));
        self.stats.received = self.stats.received.wrapping_add(1);
        PushOutcome::Stored
    }

    /// Writer side: record the arrival-jitter estimate computed by the
    /// receive thread (it owns the arrival clock), as the bits of a
    /// single-precision number of microseconds.
    pub fn publish_jitter_us(&mut self, jitter_us_bits: u32)
        requires
            old(self).wf(),
        ensures
            final(self).wf(),
            final(self)@ == (JitterView {
                stats: JitterStats { jitter_us_bits, ..old(self)@.stats },
                ..old(self)@
            }),
    {
        self.stats.jitter_us_bits = jitter_us_bits;
        assert(self@.slots =~= old(self)@.slots);
    }

    /// Reader side: how many frames are buffered ahead of the read position
    /// (including the frame at the read position, if present). Can be
    /// negative right after a gap.
    pub fn depth(&self) -> (d: i32)
        requires
            self.wf(),
        ensures
            d == depth_of(self@),
    {
        if !self.started {
            return 0;
        }
        diff(self.newest_seq, self.next_seq) as i32 + 1
    }

    pub fn is_started(&self) -> (started: bool)
        ensures
            started == self@.started,
    {
        self.started
    }

    /// Reader side: pop the frame at the current read position, advancing it
    /// by one regardless of hit or miss (a miss means the caller conceals).
    pub fn pop_next(&mut self, out: &mut [u8]) -> (outcome: PopOutcome)
        requires
            old(self).wf(),
            old(out)@.len() >= MAX_FRAME_BYTES,
        ensures
            final(self).wf(),
            final(self)@ == popped(old(self)@).0,
            match popped(old(self)@).1 {
                None => outcome == PopOutcome::Missing && final(out)@ == old(out)@,
                Some(f) => outcome == (PopOutcome::Frame {
                    len: f.payload.len() as usize,
                    timestamp: f.timestamp,
                }) && f.payload.len() <= MAX_FRAME_BYTES && final(out)@ == f.payload
                    + old(out)@.skip(f.payload.len() as int),
            },
    {
        if !self.started {
            return PopOutcome::Missing;
        }
        let expect: u16 = self.next_seq;
        let hit = self.holds(expect);
        let ghost before = self@;
        self.next_seq = expect.wrapping_add(1);
        if !hit {
            self.stats.concealed = self.stats.concealed.wrapping_add(1);
            return PopOutcome::Missing;
        }
        let i: usize = expect as usize % SLOTS;
        let slot = &mut self.slots[i];
        let len: usize = slot.len;
        let timestamp: u32 = slot.timestamp;
        copy_out(&slot.payload, len, out);
        slot.written = false;
        self.stats.played = self.stats.played.wrapping_add(1);
        assert(self@.slots =~= before.slots.update(i as int, None));
        PopOutcome::Frame { len, timestamp }
    }

    /// Reader side: drop the frame at the read position without decoding it
    /// (used to shrink the buffer). Returns true if a stored frame was
    /// discarded.
    pub fn skip_next(&mut self) -> (had: bool)
        requires
            old(self).wf(),
        ensures
            final(self).wf(),
            final(self)@ == skipped(old(self)@),
            had == (old(self)@.started && stored(old(self)@, old(self)@.next) is Some),
    {
        if !self.started {
            return false;
        }
        let expect: u16 = self.next_seq;
        let had = self.holds(expect);
        let ghost before = self@;
        if had {
            let i: usize = expect as usize % SLOTS;
            self.slots[i].written = false;
            assert(self@.slots =~= before.slots.update(i as int, None));
        }
        self.next_seq = expect.wrapping_add(1);
        had
    }

    /// Reader side: forget the stream position entirely; the next push
    /// re-establishes it. Used after a prolonged outage.
    pub fn reset(&mut self)
        requires
            old(self).wf(),
        ensures
            final(self).wf(),
            final(self)@ == forgotten(old(self)@),
    {
        let mut i: usize = 0;
        while i < SLOTS
            invariant
                i <= SLOTS,
                self.wf(),
                self@ == (JitterView { slots: self@.slots, ..old(self)@ }),
                forall|j: int| 0 <= j < i ==> (#[trigger] self@.slots[j]) is None,
            decreases SLOTS - i,
        {
            let ghost before = self@;
            self.slots[i].written = false;
            assert(self@.slots =~= before.slots.update(i as int, None));
            i = i + 1;
        }
        self.started = false;
        self.stats.resets = self.stats.resets.wrapping_add(1);
        assert(self@.slots =~= forgotten(old(self)@).slots);
    }
}

fn copy_frame(src: &[u8], dst: &mut Vec<u8>)
    requires
        src@.len() <= old(dst)@.len(),
    ensures
        final(dst)@.len() == old(dst)@.len(),
        final(dst)@.take(src@.len() as int) == src@,
{
    let mut i: usize = 0;
    while i < src.len()
        invariant
            i <= src@.len() <= dst@.len(),
            dst@.len() == old(dst)@.len(),
            forall|j: int| 0 <= j < i ==> dst@[j] == src@[j],
        decreases src@.len() - i,
    {
        dst[i] = src[i];
        i = i + 1;
    }
    assert(dst@.take(src@.len() as int) =~= src@);
}

fn copy_out(src: &Vec<u8>, len: usize, dst: &mut [u8])
    requires
        len <= src@.len(),
        len <= old(dst)@.len(),
    ensures
        final(dst)@ == src@.take(len as int) + old(dst)@.skip(len as int),
{
    let mut i: usize = 0;
    while i < len
        invariant
            i <= len <= src@.len(),
            len <= dst@.len(),
            dst@.len() == old(dst)@.len(),
            forall|j: int| 0 <= j < i ==> dst@[j] == src@[j],
            forall|j: int| i <= j < dst@.len() ==> dst@[j] == old(dst)@[j],
        decreases len - i,
    {
        dst[i] = src[i];
        i = i + 1;
    }
    assert(dst@ =~= src@.take(len as int) + old(dst)@.skip(len as int));
}

/// The buffer after `k` frames were taken.
pub open spec fn popped_times(b: JitterView, k: nat) -> JitterView
    decreases k,
{
    if k == 0 {
        b
    } else {
        popped(popped_times(b, (k - 1) as nat)).0
    }
}

/// Two places of the ring that are less than `SLOTS` apart have different
/// slots.
pub proof fn lemma_slots_differ(next: u16, s: u16, j: int)
    requires
        0 <= j < crate::seq::ring_diff(s, next) < SLOTS,
    ensures
        slot_index(crate::seq::ring_add(next, j)) != slot_index(s),
{
    let d = crate::seq::ring_diff(s, next);
    crate::seq::law_diff_leads_back(s, next);
    let x = next + j;
    let y = next + d;
    assert(crate::seq::ring_add(next, j) == if x < 0x1_0000 {
        x
    } else {
        x - 0x1_0000
    });
    assert(s == if y < 0x1_0000 {
        y
    } else {
        y - 0x1_0000
    });
    assert(slot_index(crate::seq::ring_add(next, j)) == x % 64);
    assert(slot_index(s) == y % 64);
}

proof fn lemma_popped_once(b: JitterView, s: u16)
    requires
        b.started,
        b.slots.len() == SLOTS,
        slot_index(b.next) != slot_index(s),
    ensures
        popped(b).0.started,
        popped(b).0.slots.len() == SLOTS,
        popped(b).0.next == crate::seq::ring_add(b.next, 1),
        popped(b).0.slots[slot_index(s)] == b.slots[slot_index(s)],
{
}

pub proof fn lemma_popped_times(b: JitterView, s: u16, k: nat)
    requires
        b.started,
        b.slots.len() == SLOTS,
        k <= crate::seq::ring_diff(s, b.next) < SLOTS,
    ensures
        popped_times(b, k).started,
        popped_times(b, k).slots.len() == SLOTS,
        popped_times(b, k).next == crate::seq::ring_add(b.next, k as int),
        popped_times(b, k).slots[slot_index(s)] == b.slots[slot_index(s)],
    decreases k,
{
    if k > 0 {
        lemma_popped_times(b, s, (k - 1) as nat);
        lemma_slots_differ(b.next, s, k - 1);
        lemma_popped_once(popped_times(b, (k - 1) as nat), s);
        crate::seq::lemma_ring_add_step(b.next, k - 1);
    } else {
        crate::seq::lemma_ring_add_zero(b.next);
    }
}

/// What goes in comes out: a frame that is stored up to `SLOTS - 1` places
/// ahead of the read position is what the reader gets, bytes and timestamp,
/// once it has taken the frames before it.
pub proof fn law_stored_frame_is_played(b: JitterView, s: u16, timestamp: u32, payload: Seq<u8>)
    requires
        b.slots.len() == SLOTS,
        pushed(b, s, timestamp, payload).1 == PushOutcome::Stored,
        0 <= crate::seq::ring_diff(s, pushed(b, s, timestamp, payload).0.next) < SLOTS,
    ensures
        ({
            let b2 = pushed(b, s, timestamp, payload).0;
            let ahead = crate::seq::ring_diff(s, b2.next) as nat;
            popped(popped_times(b2, ahead)).1 == Some(FrameView { seq: s, timestamp, payload })
        }),
{
    let b2 = pushed(b, s, timestamp, payload).0;
    let ahead = crate::seq::ring_diff(s, b2.next) as nat;
    lemma_popped_times(b2, s, ahead);
    crate::seq::law_diff_leads_back(s, b2.next);
}

/// A stored frame stays until it is played: neither a frame for another slot
/// that arrives nor taking or dropping another frame touches it.
pub proof fn law_stored_frame_stays(
    b: JitterView,
    s: u16,
    other: u16,
    timestamp: u32,
    payload: Seq<u8>,
)
    requires
        b.slots.len() == SLOTS,
    ensures
        slot_index(other) != slot_index(s) ==> stored(pushed(b, other, timestamp, payload).0, s)
            == stored(b, s),
        b.next != s ==> stored(popped(b).0, s) == stored(b, s),
        b.next != s ==> stored(skipped(b), s) == stored(b, s),
{
}

/// A frame whose turn has passed is refused as late, up to 32767 frames later,
/// and leaves the stored frames and the positions as they are.
pub proof fn law_late_frame_changes_nothing(
    b: JitterView,
    k: int,
    timestamp: u32,
    payload: Seq<u8>,
)
    requires
        b.started,
        0 < k <= 0x7FFF,
        payload.len() <= MAX_FRAME_BYTES,
    ensures
        ({
            let (b2, outcome) = pushed(b, crate::seq::ring_add(b.next, -k), timestamp, payload);
            &&& outcome == PushOutcome::Late
            &&& b2 == (JitterView { stats: b2.stats, ..b })
        }),
{
    crate::seq::law_generated_numbers_ascend(crate::seq::SeqGen(b.next), k);
}

/// A second copy of a frame that is still stored is a duplicate: the first
/// copy and the positions stay.
pub proof fn law_duplicate_changes_nothing(
    b: JitterView,
    s: u16,
    t1: u32,
    p1: Seq<u8>,
    t2: u32,
    p2: Seq<u8>,
)
    requires
        b.slots.len() == SLOTS,
        pushed(b, s, t1, p1).1 == PushOutcome::Stored,
        p2.len() <= MAX_FRAME_BYTES,
    ensures
        ({
            let b1 = pushed(b, s, t1, p1).0;
            let (b2, outcome) = pushed(b1, s, t2, p2);
            &&& outcome == PushOutcome::Duplicate
            &&& b2 == (JitterView { stats: b2.stats, ..b1 })
        }),
{
}

/// The depth counts: the next frame of the stream adds one, and each frame
/// taken, dropped or concealed takes one away.
pub proof fn law_depth_counts_frames(b: JitterView, timestamp: u32, payload: Seq<u8>)
    requires
        b.started,
        b.slots.len() == SLOTS,
        payload.len() <= MAX_FRAME_BYTES,
        -0x7FFF < depth_of(b) < 0x7FFF,
    ensures
        depth_of(b) >= 0 ==> depth_of(
            pushed(b, crate::seq::ring_add(b.newest, 1), timestamp, payload).0,
        ) == depth_of(b) + 1,
        depth_of(popped(b).0) == depth_of(b) - 1,
        depth_of(skipped(b)) == depth_of(b) - 1,
{
}

/// After a reset any position is accepted: the next frame is stored, and is
/// the one that is played next.
pub proof fn law_reset_accepts_any_position(
    b: JitterView,
    s: u16,
    timestamp: u32,
    payload: Seq<u8>,
)
    requires
        payload.len() <= MAX_FRAME_BYTES,
    ensures
        depth_of(forgotten(b)) == 0,
        ({
            let (b2, outcome) = pushed(forgotten(b), s, timestamp, payload);
            &&& outcome == PushOutcome::Stored
            &&& depth_of(b2) == 1
            &&& popped(b2).1 == Some(FrameView { seq: s, timestamp, payload })
        }),
{
}

// ---------------------------------------------------------------------------
// Adaptive playout policy
// ---------------------------------------------------------------------------
/// Decision the audio callback executes for buffer-depth adaptation.
#[derive(Debug, Clone, Copy, PartialEq, Eq, Structural)]
pub enum Adjust {
    /// Leave the depth as it is.
    Keep,
    /// Drop one frame (shrink the buffer by one frame's worth of latency).
    DropOne,
    /// Play one concealed frame without consuming (grow by one frame).
    InsertOne,
}

/// Target-depth controller: `target = min + jitter` frames, clamped,
/// re-evaluated periodically; depth corrections are applied only at low-energy
/// moments so they stay inaudible.
#[derive(Debug)]
pub struct PlayoutController {
    min_frames: i32,
    max_frames: i32,
    target: i32,
    deadband: i32,
    eval_interval_frames: u32,
    frames_since_eval: u32,
    primed: bool,
    consecutive_misses: u32,
    reset_after_misses: u32,
    pending: Adjust,
}

/// The state of a playout controller.
#[verifier::ext_equal]
pub struct ControllerView {
    pub min_frames: i32,
    pub max_frames: i32,
    pub target: i32,
    /// How far the depth may be off the target before it is corrected.
    pub deadband: i32,
    pub eval_interval_frames: u32,
    pub frames_since_eval: u32,
    pub primed: bool,
    pub consecutive_misses: u32,
    /// After this many consecutive concealed frames the stream is considered
    /// interrupted and the buffer re-primes from scratch.
    pub reset_after_misses: u32,
    pub pending: Adjust,
}

impl View for PlayoutController {
    type V = ControllerView;

    closed spec fn view(&self) -> ControllerView {
        ControllerView {
            min_frames: self.min_frames,
            max_frames: self.max_frames,
            target: self.target,
            deadband: self.deadband,
            eval_interval_frames: self.eval_interval_frames,
            frames_since_eval: self.frames_since_eval,
            primed: self.primed,
            consecutive_misses: self.consecutive_misses,
            reset_after_misses: self.reset_after_misses,
            pending: self.pending,
        }
    }
}

/// The target lies between the limits, and neither of the two counters has
/// reached its limit.
pub open spec fn controller_ok(c: ControllerView) -> bool {
    &&& c.min_frames <= c.target <= c.max_frames
    &&& c.consecutive_misses == 0 || c.consecutive_misses < c.reset_after_misses
    &&& c.frames_since_eval == 0 || c.frames_since_eval < c.eval_interval_frames
}

/// Where a depth is compared with the target, because no correction is pending:
/// the depths between which none is due are numbers of 32 bits, as far as they
/// are looked at.
pub open spec fn margins_fit(c: ControllerView, depth: int) -> bool {
    c.primed && c.pending == Adjust::Keep ==> {
        &&& i32::MIN <= c.target + c.deadband <= i32::MAX
        &&& depth <= c.target + c.deadband ==> i32::MIN <= c.target - c.deadband <= i32::MAX
    }
}

/// Whether one more missed frame counts as an outage.
pub open spec fn outage_next(c: ControllerView) -> bool {
    c.consecutive_misses + 1 >= c.reset_after_misses
}

/// Whether the target is re-evaluated after one more frame.
pub open spec fn eval_next(c: ControllerView) -> bool {
    c.frames_since_eval + 1 >= c.eval_interval_frames
}

/// The target for a jitter of so many frames.
pub open spec fn target_for(c: ControllerView, jitter_frames: i32) -> int {
    let t = c.min_frames + jitter_frames;
    if t < c.min_frames {
        c.min_frames as int
    } else if t > c.max_frames {
        c.max_frames as int
    } else {
        t
    }
}

/// The controller after a frame was popped (`hit`) or missed.
pub open spec fn frame_done(c: ControllerView, hit: bool, jitter_frames: i32) -> ControllerView {
    if !hit && outage_next(c) {
        ControllerView { primed: false, consecutive_misses: 0, pending: Adjust::Keep, ..c }
    } else {
        ControllerView {
            consecutive_misses: if hit {
                0
            } else {
                (c.consecutive_misses + 1) as u32
            },
            frames_since_eval: if eval_next(c) {
                0
            } else {
                (c.frames_since_eval + 1) as u32
            },
            target: if eval_next(c) {
                target_for(c, jitter_frames) as i32
            } else {
                c.target
            },
            ..c
        }
    }
}

/// The correction that is pending once a depth was seen.
pub open spec fn correction(c: ControllerView, depth: i32) -> Adjust {
    if c.pending != Adjust::Keep || !c.primed {
        c.pending
    } else if depth > c.target + c.deadband {
        Adjust::DropOne
    } else if depth < c.target - c.deadband {
        Adjust::InsertOne
    } else {
        Adjust::Keep
    }
}

/// The controller before a frame is popped, and whether one may be: a buffer
/// that fills up is ready once it is as deep as the target.
pub open spec fn before_pop(c: ControllerView, depth: int, started: bool) -> (ControllerView, bool) {
    if c.primed {
        (c, true)
    } else if started && depth >= c.target {
        (ControllerView { primed: true, consecutive_misses: 0, ..c }, true)
    } else {
        (c, false)
    }
}

/// A controller that keeps to a depth, whatever the jitter.
pub open spec fn kept_at(c: ControllerView, frames: i32) -> ControllerView {
    ControllerView { min_frames: frames, max_frames: frames, target: frames, ..c }
}

/// A controller that forgot the stream it was playing.
pub open spec fn restarted(c: ControllerView) -> ControllerView {
    ControllerView {
        primed: false,
        consecutive_misses: 0,
        pending: Adjust::Keep,
        frames_since_eval: 0,
        ..c
    }
}

impl PlayoutController {
    /// A controller that re-evaluates its target every `eval_interval_frames`
    /// (about 2 s) and declares an outage after `reset_after_misses` missed
    /// frames (about 0.5 s).
    pub fn new(eval_interval_frames: u32, reset_after_misses: u32) -> (c: Self)
        ensures
            controller_ok(c@),
            c@ == (ControllerView {
                min_frames: 2,
                max_frames: 20,
                target: 2,
                deadband: 1,
                eval_interval_frames,
                frames_since_eval: 0,
                primed: false,
                consecutive_misses: 0,
                reset_after_misses,
                pending: Adjust::Keep,
            }),
    {
        PlayoutController {
            min_frames: 2,
            max_frames: 20,
            target: 2,
            deadband: 1,
            eval_interval_frames,
            frames_since_eval: 0,
            primed: false,
            consecutive_misses: 0,
            reset_after_misses,
            pending: Adjust::Keep,
        }
    }

    pub fn target(&self) -> (t: i32)
        ensures
            t == self@.target,
    {
        self.target
    }

    pub fn is_primed(&self) -> (p: bool)
        ensures
            p == self@.primed,
    {
        self.primed
    }

    /// Fixed-depth mode for A/B latency testing (`--jitter fixed:<n>`).
    pub fn set_fixed(&mut self, frames: i32)
        requires
            controller_ok(old(self)@),
        ensures
            controller_ok(final(self)@),
            final(self)@ == (ControllerView {
                min_frames: frames,
                max_frames: frames,
                target: frames,
                ..old(self)@
            }),
            final(self)@ == kept_at(old(self)@, frames),
    {
        self.min_frames = frames;
        self.max_frames = frames;
        self.target = frames;
    }

    /// How far the depth may be off the target before a correction is due.
    pub fn set_deadband(&mut self, frames: i32)
        requires
            controller_ok(old(self)@),
        ensures
            controller_ok(final(self)@),
            final(self)@ == (ControllerView { deadband: frames, ..old(self)@ }),
    {
        self.deadband = frames;
    }

    /// Called once per frame tick *before* popping. Returns false while the
    /// buffer is priming (caller outputs silence and must not pop).
    pub fn pre_pop(&mut self, depth: i32, started: bool) -> (ready: bool)
        requires
            controller_ok(old(self)@),
        ensures
            controller_ok(final(self)@),
            ready == (old(self)@.primed || (started && depth >= old(self)@.target)),
            final(self)@ == before_pop(old(self)@, depth as int, started).0,
            ready == before_pop(old(self)@, depth as int, started).1,
            final(self)@ == if ready && !old(self)@.primed {
                ControllerView { primed: true, consecutive_misses: 0, ..old(self)@ }
            } else {
                old(self)@
            },
    {
        if !self.primed {
            if started && depth >= self.target {
                self.primed = true;
                self.consecutive_misses = 0;
            }
            return self.primed;
        }
        true
    }

    /// Called once per frame tick after popping, with whether the pop hit and
    /// the fresh jitter estimate in frames. Drives target re-evaluation and
    /// reset. Returns true if the stream should be reset (prolonged outage).
    pub fn post_pop(&mut self, hit: bool, jitter_frames: i32) -> (outage: bool)
        requires
            controller_ok(old(self)@),
            (hit || !outage_next(old(self)@)) && eval_next(old(self)@) ==> i32::MIN
                <= old(self)@.min_frames + jitter_frames <= i32::MAX,
        ensures
            controller_ok(final(self)@),
            outage == (!hit && outage_next(old(self)@)),
            final(self)@ == frame_done(old(self)@, hit, jitter_frames),
    {
        if hit {
            self.consecutive_misses = 0;
        } else {
            self.consecutive_misses = self.consecutive_misses + 1;
            if self.consecutive_misses >= self.reset_after_misses {
                self.primed = false;
                self.consecutive_misses = 0;
                self.pending = Adjust::Keep;
                return true;
            }
        }
        self.frames_since_eval = self.frames_since_eval + 1;
        if self.frames_since_eval >= self.eval_interval_frames {
            self.frames_since_eval = 0;
            let wanted: i32 = self.min_frames + jitter_frames;
            self.target =
            if wanted < self.min_frames {
                self.min_frames
            } else if wanted > self.max_frames {
                self.max_frames
            } else {
                wanted
            };
        }
        false
    }

    /// Called once per frame tick with the current depth; latches a pending
    /// one-frame correction when depth drifts out of the deadband.
    pub fn observe_depth(&mut self, depth: i32)
        requires
            controller_ok(old(self)@),
            margins_fit(old(self)@, depth as int),
        ensures
            controller_ok(final(self)@),
            final(self)@ == (ControllerView {
                pending: correction(old(self)@, depth),
                ..old(self)@
            }),
    {
        if self.pending != Adjust::Keep || !self.primed {
            return;
        }
        if depth > self.target + self.deadband {
            self.pending = Adjust::DropOne;
        } else if depth < self.target - self.deadband {
            self.pending = Adjust::InsertOne;
        }
    }

    /// The callback asks this at low-energy moments; returns and clears the
    /// pending correction.
    pub fn take_adjustment(&mut self) -> (a: Adjust)
        requires
            controller_ok(old(self)@),
        ensures
            controller_ok(final(self)@),
            a == old(self)@.pending,
            final(self)@ == (ControllerView { pending: Adjust::Keep, ..old(self)@ }),
    {
        let a = self.pending;
        self.pending = Adjust::Keep;
        a
    }

    /// Forget priming and pending state (stream restarted or slot reused).
    pub fn reset(&mut self)
        requires
            controller_ok(old(self)@),
        ensures
            controller_ok(final(self)@),
            final(self)@ == (ControllerView {
                primed: false,
                consecutive_misses: 0,
                pending: Adjust::Keep,
                frames_since_eval: 0,
                ..old(self)@
            }),
            final(self)@ == restarted(old(self)@),
    {
        self.primed = false;
        self.consecutive_misses = 0;
        self.pending = Adjust::Keep;
        self.frames_since_eval = 0;
    }
}

/// The controller after `k` missed frames in a row.
pub open spec fn missed_times(c: ControllerView, k: nat, jitter_frames: i32) -> ControllerView
    decreases k,
{
    if k == 0 {
        c
    } else {
        frame_done(missed_times(c, (k - 1) as nat, jitter_frames), false, jitter_frames)
    }
}

/// An outage is declared at the `reset_after_misses`-th missed frame in a row,
/// and not before.
pub proof fn law_outage_after_misses_in_a_row(c: ControllerView, k: nat, jitter_frames: i32)
    requires
        controller_ok(c),
        c.primed,
        c.consecutive_misses == 0,
        0 < k < c.reset_after_misses,
    ensures
        missed_times(c, k, jitter_frames).primed,
        missed_times(c, k, jitter_frames).consecutive_misses == k,
        outage_next(missed_times(c, k, jitter_frames)) <==> k + 1 == c.reset_after_misses,
    decreases k,
{
    if k > 1 {
        law_outage_after_misses_in_a_row(c, (k - 1) as nat, jitter_frames);
    } else {
        assert(missed_times(c, 0, jitter_frames) == c);
    }
    lemma_missed_keeps_limit(c, (k - 1) as nat, jitter_frames);
}

proof fn lemma_missed_keeps_limit(c: ControllerView, k: nat, jitter_frames: i32)
    ensures
        missed_times(c, k, jitter_frames).reset_after_misses == c.reset_after_misses,
    decreases k,
{
    if k > 0 {
        lemma_missed_keeps_limit(c, (k - 1) as nat, jitter_frames);
    }
}

/// At a re-evaluation more jitter never asks for less depth, and the target
/// stays between the limits; without jitter it is the lower limit.
pub proof fn law_target_tracks_jitter(c: ControllerView, less: i32, more: i32)
    requires
        controller_ok(c),
        less <= more,
    ensures
        c.min_frames <= target_for(c, less) <= target_for(c, more) <= c.max_frames,
        target_for(c, 0) == c.min_frames,
{
}

// ---------------------------------------------------------------------------
// Arrival jitter
// ---------------------------------------------------------------------------
/// A time as the signed number that holds the same 64 bits.
pub open spec fn signed_us(t: u64) -> int {
    if t < 0x8000_0000_0000_0000 {
        t as int
    } else {
        t - 0x1_0000_0000_0000_0000
    }
}

/// How long a packet was under way, up to the offset between the two clocks.
pub open spec fn transit_us(arrival_us: u64, media_us: u64) -> int {
    signed_us(arrival_us) - signed_us(media_us)
}

/// How far a packet's transit time differs from that of the packet before, the
/// times of which are `prev`.
pub open spec fn deviation_from(prev: Option<(u64, u64)>, arrival_us: u64, media_us: u64) -> Option<
    int,
> {
    match prev {
        None => None,
        Some((pa, pm)) => {
            let d = transit_us(arrival_us, media_us) - transit_us(pa, pm);
            Some(
                if d < 0 {
                    -d
                } else {
                    d
                },
            )
        },
    }
}

/// Packet spacing for RFC 3550 inter-arrival jitter, kept by the receive
/// thread: the times of the packet before.
#[derive(Debug)]
pub struct ArrivalJitter {
    /// (arrival_us, media_us)
    pub prev: Option<(u64, u64)>,
}

impl Default for ArrivalJitter {
    fn default() -> (a: Self)
        ensures
            a.prev is None,
    {
        ArrivalJitter { prev: None }
    }
}

fn to_signed(t: u64) -> (s: i64)
    ensures
        s == signed_us(t),
{
    assert(t < 0x8000_0000_0000_0000 ==> (t as i64) == t) by (bit_vector);
    assert(t >= 0x8000_0000_0000_0000 ==> (t as i64) == t - 0x1_0000_0000_0000_0000) by (bit_vector);
    #[verifier::truncate]
    (t as i64)
}

impl ArrivalJitter {
    /// How far this packet's transit time differs from that of the packet
    /// before, in microseconds; nothing for the first packet.
    ///
    /// `arrival_us`: local receive time. `media_us`: sender media clock from
    /// the packet, converted by the caller into microseconds.
    pub fn on_arrival(&mut self, arrival_us: u64, media_us: u64) -> (deviation: Option<i64>)
        requires
            old(self).prev matches Some((pa, pm)) ==> {
                &&& i64::MIN <= transit_us(pa, pm) <= i64::MAX
                &&& i64::MIN <= transit_us(arrival_us, media_us) <= i64::MAX
                &&& -i64::MAX <= transit_us(arrival_us, media_us) - transit_us(pa, pm) <= i64::MAX
            },
        ensures
            final(self).prev == Some((arrival_us, media_us)),
            deviation is Some <==> deviation_from(old(self).prev, arrival_us, media_us) is Some,
            deviation matches Some(v) ==> v == deviation_from(
                old(self).prev,
                arrival_us,
                media_us,
            )->Some_0,
            match old(self).prev {
                None => deviation is None,
                Some((pa, pm)) => {
                    let d = transit_us(arrival_us, media_us) - transit_us(pa, pm);
                    deviation matches Some(v) && v == (if d < 0 {
                        -d
                    } else {
                        d
                    })
                },
            },
    {
        let deviation = match self.prev {
            None => None,
            Some((pa, pm)) => {
                let transit: i64 = to_signed(arrival_us) - to_signed(media_us);
                let prev_transit: i64 = to_signed(pa) - to_signed(pm);
                let d: i64 = transit - prev_transit;
                Some(
                    if d < 0 {
                        -d
                    } else {
                        d
                    },
                )
            },
        };
        self.prev = Some((arrival_us, media_us));
        deviation
    }
}

/// Packets that arrive as far apart as they were recorded do not deviate.
pub proof fn law_paced_arrivals_do_not_deviate(pa: u64, pm: u64, a: u64, m: u64)
    requires
        pa <= a < 0x8000_0000_0000_0000,
        pm <= m < 0x8000_0000_0000_0000,
        a - pa == m - pm,
    ensures
        transit_us(a, m) == transit_us(pa, pm),
{
}

} // verus!
