//! What becomes of frames that arrive in any order, some of them never, and how
//! the playout depth follows.
use crate::jitter;
use crate::jitter::{
    Adjust, ControllerView, FrameView, JitterStats, JitterView, PushOutcome, SLOTS,
};
use crate::MAX_FRAME_BYTES;
use vstd::prelude::*;

verus! {

/// A buffer after the frames of a run arrived, in the order in which the run
/// lists them.
pub open spec fn pushed_run(b: JitterView, run: Seq<FrameView>) -> JitterView
    decreases run.len(),
{
    if run.len() == 0 {
        b
    } else {
        let f = run.last();
        jitter::pushed(pushed_run(b, run.drop_last()), f.seq, f.timestamp, f.payload).0
    }
}

/// Whether a run is one that the ring can hold: it starts with the frame `s`,
/// and the others are different frames less than `SLOTS` places behind it, in
/// any order.
pub open spec fn run_fits(run: Seq<FrameView>, s: u16) -> bool {
    &&& run.len() > 0
    &&& run[0].seq == s
    &&& forall|i: int|
        0 <= i < run.len() ==> 0 <= crate::seq::ring_diff((#[trigger] run[i]).seq, s) < SLOTS
            && run[i].payload.len() <= MAX_FRAME_BYTES
    &&& forall|i: int, j: int|
        0 <= i < j < run.len() ==> (#[trigger] run[i]).seq != (#[trigger] run[j]).seq
}

/// The frame of a run with a sequence number, if it is there.
pub open spec fn frame_in(run: Seq<FrameView>, s: u16) -> Option<FrameView>
    decreases run.len(),
{
    if run.len() == 0 {
        None
    } else if run.last().seq == s {
        Some(run.last())
    } else {
        frame_in(run.drop_last(), s)
    }
}

/// How many of the `n` frames from `s` on are in a run.
pub open spec fn hits(run: Seq<FrameView>, s: u16, n: nat) -> nat
    decreases n,
{
    if n == 0 {
        0
    } else {
        hits(run, s, (n - 1) as nat) + if frame_in(run, crate::seq::ring_add(s, n - 1)) is Some {
            1nat
        } else {
            0nat
        }
    }
}

proof fn lemma_frame_in(run: Seq<FrameView>, s: u16)
    ensures
        match frame_in(run, s) {
            Some(f) => f.seq == s && exists|i: int| 0 <= i < run.len() && #[trigger] run[i] == f,
            None => forall|i: int| 0 <= i < run.len() ==> (#[trigger] run[i]).seq != s,
        },
    decreases run.len(),
{
    if run.len() > 0 {
        let front = run.drop_last();
        lemma_frame_in(front, s);
        if run.last().seq == s {
            assert(run[run.len() - 1] == run.last());
        } else {
            match frame_in(front, s) {
                Some(f) => {
                    let i = choose|i: int| 0 <= i < front.len() && #[trigger] front[i] == f;
                    assert(run[i] == f);
                },
                None => {
                    assert forall|i: int| 0 <= i < run.len() implies (#[trigger] run[i]).seq
                        != s by {
                        if i < front.len() {
                            assert(front[i] == run[i]);
                        }
                    }
                },
            }
        }
    }
}

/// Different numbers within one round of the ring have different slots.
proof fn lemma_window_slots(s: u16, t: u16, u: u16)
    requires
        0 <= crate::seq::ring_diff(t, s) < SLOTS,
        0 <= crate::seq::ring_diff(u, s) < SLOTS,
        t != u,
    ensures
        jitter::slot_index(t) != jitter::slot_index(u),
{
    let i = crate::seq::ring_diff(t, s);
    let j = crate::seq::ring_diff(u, s);
    crate::seq::law_diff_leads_back(t, s);
    crate::seq::law_diff_leads_back(u, s);
    if i < j {
        jitter::lemma_slots_differ(s, u, i);
    } else {
        jitter::lemma_slots_differ(s, t, j);
    }
}

/// An empty buffer after a run: it is at the first frame, and each slot holds
/// the frame of the run that belongs there.
proof fn lemma_run_stored(b: JitterView, run: Seq<FrameView>, s: u16)
    requires
        !b.started,
        b.slots == Seq::new(SLOTS as nat, |i: int| None::<FrameView>),
        run_fits(run, s),
    ensures
        ({
            let b1 = pushed_run(b, run);
            &&& b1.started
            &&& b1.next == s
            &&& b1.slots.len() == SLOTS
            &&& b1.stats == (jitter::JitterStats { received: b1.stats.received, ..b.stats })
            &&& forall|t: u16|
                0 <= crate::seq::ring_diff(t, s) < SLOTS ==> #[trigger] b1.slots[jitter::slot_index(
                    t,
                )] == frame_in(run, t)
        }),
    decreases run.len(),
{
    let f = run.last();
    let front = run.drop_last();
    let before = pushed_run(b, front);
    let b1 = pushed_run(b, run);
    assert(f == run[run.len() - 1]);
    if front.len() == 0 {
        assert(before == b);
        assert(f.seq == s);
        assert(jitter::stored(b, s) is None);
    } else {
        lemma_run_front(run, s);
        lemma_run_stored(b, front, s);
        lemma_frame_in(front, f.seq);
        if frame_in(front, f.seq) is Some {
            let i = choose|i: int|
                0 <= i < front.len() && #[trigger] front[i] == frame_in(front, f.seq)->Some_0;
            assert(run[i].seq == run[run.len() - 1].seq);
        }
        assert(crate::seq::ring_diff(before.next, f.seq) <= 0);
        assert(jitter::stored(before, f.seq) is None);
    }
    assert(jitter::pushed(before, f.seq, f.timestamp, f.payload).1 == PushOutcome::Stored);
    assert forall|t: u16| 0 <= crate::seq::ring_diff(t, s) < SLOTS implies #[trigger] b1.slots[
    jitter::slot_index(t)] == frame_in(run, t) by {
        assert(FrameView { seq: f.seq, timestamp: f.timestamp, payload: f.payload } == f);
        if t != f.seq {
            lemma_window_slots(s, t, f.seq);
            assert(b1.slots[jitter::slot_index(t)] == before.slots[jitter::slot_index(t)]);
            assert(before.slots[jitter::slot_index(t)] == frame_in(front, t));
        }
    }
}

proof fn lemma_pop_of_run(b1: JitterView, run: Seq<FrameView>, s: u16, j: nat)
    requires
        b1.started,
        b1.next == s,
        b1.slots.len() == SLOTS,
        forall|t: u16|
            0 <= crate::seq::ring_diff(t, s) < SLOTS ==> #[trigger] b1.slots[jitter::slot_index(t)]
                == frame_in(run, t),
        j < SLOTS,
    ensures
        jitter::popped_times(b1, j).started,
        jitter::popped_times(b1, j).next == crate::seq::ring_add(s, j as int),
        jitter::popped(jitter::popped_times(b1, j)).1 == frame_in(
            run,
            crate::seq::ring_add(s, j as int),
        ),
{
    let t = crate::seq::ring_add(s, j as int);
    assert(crate::seq::ring_diff(t, s) == j);
    jitter::lemma_popped_times(b1, t, j);
    lemma_frame_in(run, t);
}

/// What a counter of 64 bits shows of a count.
pub open spec fn counted(c: int) -> int {
    c % 0x1_0000_0000_0000_0000
}

proof fn lemma_counted_on(c: int)
    ensures
        counted(counted(c) + 1) == counted(c + 1),
{
}

/// What taking a frame does to the position and the counters.
proof fn lemma_popped_stats(b: JitterView)
    requires
        b.started,
    ensures
        ({
            let (b2, got) = jitter::popped(b);
            &&& b2.next == crate::seq::ring_add(b.next, 1)
            &&& b2.stats.played == if got is Some {
                counted(b.stats.played + 1)
            } else {
                b.stats.played as int
            }
            &&& b2.stats.concealed == if got is None {
                counted(b.stats.concealed + 1)
            } else {
                b.stats.concealed as int
            }
        }),
{
}

proof fn lemma_counts(b1: JitterView, run: Seq<FrameView>, s: u16, n: nat)
    requires
        b1.started,
        b1.next == s,
        b1.slots.len() == SLOTS,
        forall|t: u16|
            0 <= crate::seq::ring_diff(t, s) < SLOTS ==> #[trigger] b1.slots[jitter::slot_index(t)]
                == frame_in(run, t),
        n <= SLOTS,
    ensures
        hits(run, s, n) <= n,
        jitter::popped_times(b1, n).next == crate::seq::ring_add(s, n as int),
        jitter::popped_times(b1, n).stats.played == counted(b1.stats.played + hits(run, s, n)),
        jitter::popped_times(b1, n).stats.concealed == counted(
            b1.stats.concealed + n - hits(run, s, n),
        ),
    decreases n,
{
    if n > 0 {
        let m = (n - 1) as nat;
        lemma_counts(b1, run, s, m);
        lemma_pop_of_run(b1, run, s, m);
        lemma_popped_stats(jitter::popped_times(b1, m));
        lemma_counted_on(b1.stats.played + hits(run, s, m));
        lemma_counted_on(b1.stats.concealed + m - hits(run, s, m));
        crate::seq::lemma_ring_add_step(s, n - 1);
    } else {
        crate::seq::lemma_ring_add_zero(s);
    }
}

/// A run of frames plays in order, in whatever order it arrived: a buffer at
/// which nothing has arrived yet takes the frame `s` and then others of the next
/// `SLOTS - 1` in any order. The reader then gets, one after the other, each
/// frame that arrived, bytes and timestamp, and a miss for each that did not;
/// hit or miss, the read position moves on by one. `played` and `concealed`
/// count the hits and the misses.
pub proof fn law_run_plays_in_order(b: JitterView, run: Seq<FrameView>, s: u16, j: nat)
    requires
        !b.started,
        b.slots == Seq::new(SLOTS as nat, |i: int| None::<FrameView>),
        run_fits(run, s),
        j < SLOTS,
    ensures
        ({
            let at = jitter::popped_times(pushed_run(b, run), j);
            let k = crate::seq::ring_add(s, j as int);
            let (after, got) = jitter::popped(at);
            &&& at.next == k
            &&& after.next == crate::seq::ring_add(s, (j + 1) as int)
            &&& got == frame_in(run, k)
            &&& forall|i: int|
                0 <= i < run.len() && (#[trigger] run[i]).seq == k ==> got == Some(run[i])
            &&& (forall|i: int| 0 <= i < run.len() ==> (#[trigger] run[i]).seq != k) ==> got is None
            &&& after.stats.played == counted(b.stats.played + hits(run, s, j + 1))
            &&& after.stats.concealed == counted(
                b.stats.concealed + (j + 1) - hits(run, s, j + 1),
            )
        }),
{
    let b1 = pushed_run(b, run);
    let k = crate::seq::ring_add(s, j as int);
    lemma_run_stored(b, run, s);
    lemma_pop_of_run(b1, run, s, j);
    lemma_counts(b1, run, s, j + 1);
    lemma_frame_in(run, k);
}

/// Within a window that starts at `s` the distances from `s` tell which of two
/// numbers is newer.
proof fn lemma_window_order(s: u16, t: u16, u: u16)
    requires
        0 <= crate::seq::ring_diff(t, s) < SLOTS,
        0 <= crate::seq::ring_diff(u, s) < SLOTS,
    ensures
        crate::seq::ring_diff(t, u) == crate::seq::ring_diff(t, s) - crate::seq::ring_diff(u, s),
{
}

/// The newest number after a frame that is not late arrived.
proof fn lemma_newest_after(b: JitterView, f: FrameView)
    requires
        b.started,
        0 <= crate::seq::ring_diff(f.seq, b.next) < SLOTS,
        f.payload.len() <= MAX_FRAME_BYTES,
    ensures
        ({
            let b2 = jitter::pushed(b, f.seq, f.timestamp, f.payload).0;
            &&& b2.started
            &&& b2.next == b.next
            &&& b2.newest == if crate::seq::ring_diff(f.seq, b.newest) > 0 {
                f.seq
            } else {
                b.newest
            }
        }),
{
}

proof fn lemma_run_front(run: Seq<FrameView>, s: u16)
    requires
        run_fits(run, s),
        run.len() > 1,
    ensures
        run_fits(run.drop_last(), s),
{
    let front = run.drop_last();
    assert(front[0] == run[0]);
    assert forall|i: int, j: int| 0 <= i < j < front.len() implies (#[trigger] front[i]).seq != (
    #[trigger] front[j]).seq by {
        assert(front[i] == run[i] && front[j] == run[j]);
    }
    assert forall|i: int| 0 <= i < front.len() implies 0 <= crate::seq::ring_diff(
        (#[trigger] front[i]).seq,
        s,
    ) < SLOTS && front[i].payload.len() <= MAX_FRAME_BYTES by {
        assert(front[i] == run[i]);
    }
}

/// The newest frame of an empty buffer after a run is one of the run, and none
/// of the run is further ahead.
proof fn lemma_run_newest(b: JitterView, run: Seq<FrameView>, s: u16)
    requires
        !b.started,
        b.slots == Seq::new(SLOTS as nat, |i: int| None::<FrameView>),
        run_fits(run, s),
    ensures
        ({
            let b1 = pushed_run(b, run);
            &&& b1.started
            &&& b1.next == s
            &&& exists|i: int| 0 <= i < run.len() && (#[trigger] run[i]).seq == b1.newest
            &&& forall|i: int|
                0 <= i < run.len() ==> crate::seq::ring_diff((#[trigger] run[i]).seq, s)
                    <= crate::seq::ring_diff(b1.newest, s)
        }),
    decreases run.len(),
{
    let f = run.last();
    let front = run.drop_last();
    let before = pushed_run(b, front);
    let b1 = pushed_run(b, run);
    assert(f == run[run.len() - 1]);
    if front.len() == 0 {
        assert(before == b);
        assert(b1.newest == s);
    } else {
        lemma_run_front(run, s);
        lemma_run_newest(b, front, s);
        let k = choose|i: int| 0 <= i < front.len() && (#[trigger] front[i]).seq == before.newest;
        assert(run[k].seq == before.newest);
        lemma_newest_after(before, f);
        lemma_window_order(s, f.seq, before.newest);
        assert forall|i: int| 0 <= i < run.len() implies crate::seq::ring_diff(
            (#[trigger] run[i]).seq,
            s,
        ) <= crate::seq::ring_diff(b1.newest, s) by {
            if i < front.len() {
                assert(run[i] == front[i]);
            }
        }
    }
}

/// A run of frames makes the buffer as deep as its newest frame is far from
/// its first, and one more, in whatever order it arrived. Each of its frames is
/// counted as received, and none as late or as a duplicate.
pub proof fn law_depth_reaches_the_newest_of_a_run(
    b: JitterView,
    run: Seq<FrameView>,
    s: u16,
    top: int,
)
    requires
        !b.started,
        b.slots == Seq::new(SLOTS as nat, |i: int| None::<FrameView>),
        run_fits(run, s),
        0 <= top < run.len(),
        forall|i: int|
            0 <= i < run.len() ==> crate::seq::ring_diff((#[trigger] run[i]).seq, s)
                <= crate::seq::ring_diff(run[top].seq, s),
    ensures
        jitter::depth_of(pushed_run(b, run)) == crate::seq::ring_diff(run[top].seq, s) + 1,
        pushed_run(b, run).next == s,
        pushed_run(b, run).stats.received == counted(b.stats.received + run.len()),
        pushed_run(b, run).stats.late == b.stats.late,
        pushed_run(b, run).stats.duplicates == b.stats.duplicates,
{
    lemma_run_newest(b, run, s);
    lemma_run_stored(b, run, s);
    lemma_run_received(b, run, s);
}

proof fn lemma_run_received(b: JitterView, run: Seq<FrameView>, s: u16)
    requires
        !b.started,
        b.slots == Seq::new(SLOTS as nat, |i: int| None::<FrameView>),
        run_fits(run, s),
    ensures
        pushed_run(b, run).stats.received == counted(b.stats.received + run.len()),
    decreases run.len(),
{
    let f = run.last();
    let front = run.drop_last();
    let before = pushed_run(b, front);
    assert(f == run[run.len() - 1]);
    if front.len() == 0 {
        assert(before == b);
        assert(jitter::stored(b, s) is None);
    } else {
        lemma_run_front(run, s);
        lemma_run_received(b, front, s);
        lemma_run_stored(b, front, s);
        lemma_frame_in(front, f.seq);
        if frame_in(front, f.seq) is Some {
            let i = choose|i: int|
                0 <= i < front.len() && #[trigger] front[i] == frame_in(front, f.seq)->Some_0;
            assert(run[i].seq == run[run.len() - 1].seq);
        }
        assert(crate::seq::ring_diff(before.next, f.seq) <= 0);
        assert(jitter::stored(before, f.seq) is None);
    }
    assert(jitter::pushed(before, f.seq, f.timestamp, f.payload).1 == PushOutcome::Stored);
    lemma_counted_on(b.stats.received + front.len());
}

/// A frame makes a buffer deeper only if it is newer than all that came before:
/// the depth is then one more than its distance from the read position. A frame
/// that is not newer, or is late or too big, leaves the depth as it is. The
/// first frame of a stream makes it one. Whatever arrives, the read position of
/// a stream stays.
pub proof fn law_only_a_newer_frame_deepens(
    b: JitterView,
    s: u16,
    timestamp: u32,
    payload: Seq<u8>,
)
    ensures
        ({
            let b2 = jitter::pushed(b, s, timestamp, payload).0;
            let fits = payload.len() <= MAX_FRAME_BYTES;
            &&& !fits ==> jitter::depth_of(b2) == jitter::depth_of(b)
            &&& fits && !b.started ==> jitter::depth_of(b2) == 1 && b2.next == s
            &&& b.started ==> b2.next == b.next
            &&& b.started && crate::seq::ring_diff(s, b.newest) <= 0 ==> jitter::depth_of(b2)
                == jitter::depth_of(b)
            &&& b.started && -0x8000 < crate::seq::ring_diff(s, b.next) < 0 ==> jitter::depth_of(b2)
                == jitter::depth_of(b)
            &&& fits && b.started && (crate::seq::ring_diff(s, b.next) >= 0
                || crate::seq::ring_diff(s, b.next) == -0x8000) && crate::seq::ring_diff(
                s,
                b.newest,
            ) > 0 ==> jitter::depth_of(b2) == crate::seq::ring_diff(s, b.next) + 1
        }),
{
}

/// Every frame that arrives is counted under what became of it, and under that
/// alone.
pub proof fn law_arrivals_are_counted_once(
    b: JitterView,
    s: u16,
    timestamp: u32,
    payload: Seq<u8>,
)
    ensures
        ({
            let (b2, outcome) = jitter::pushed(b, s, timestamp, payload);
            let more = |o: PushOutcome|
                if outcome == o {
                    1int
                } else {
                    0int
                };
            &&& outcome == PushOutcome::TooBig <==> payload.len() > MAX_FRAME_BYTES
            &&& b2.stats.received == counted(b.stats.received + more(PushOutcome::Stored))
            &&& b2.stats.late == counted(b.stats.late + more(PushOutcome::Late))
            &&& b2.stats.duplicates == counted(b.stats.duplicates + more(PushOutcome::Duplicate))
            &&& b2.stats.concealed == b.stats.concealed
            &&& b2.stats.played == b.stats.played
            &&& b2.stats.resets == b.stats.resets
            &&& b2.stats.jitter_us_bits == b.stats.jitter_us_bits
            &&& outcome != PushOutcome::Stored ==> b2.slots == b.slots
        }),
{
}

/// A frame of a stream whose turn is still to come is never late. It is a
/// duplicate exactly if one with its number is there; if not, it is stored.
pub proof fn law_frame_in_time_is_taken(
    b: JitterView,
    k: int,
    timestamp: u32,
    payload: Seq<u8>,
)
    requires
        b.started,
        b.slots.len() == SLOTS,
        0 <= k <= 0x8000,
        payload.len() <= MAX_FRAME_BYTES,
    ensures
        ({
            let s = crate::seq::ring_add(b.next, k);
            let (b2, outcome) = jitter::pushed(b, s, timestamp, payload);
            let place = s as int % 64;
            match b.slots[place] {
                Some(f) if f.seq == s => outcome == PushOutcome::Duplicate && b2.slots == b.slots,
                _ => outcome == PushOutcome::Stored && b2.slots == b.slots.update(
                    place,
                    Some(FrameView { seq: s, timestamp, payload }),
                ),
            }
        }),
{
}

/// To drop a frame is to take it and throw it away uncounted.
pub proof fn law_dropping_is_taking_uncounted(b: JitterView)
    ensures
        jitter::skipped(b) == (JitterView { stats: b.stats, ..jitter::popped(b).0 }),
        b.started ==> jitter::popped(b).1 == jitter::stored(b, b.next),
        !b.started ==> jitter::popped(b).1 is None && jitter::popped(b).0 == b,
{
}

/// What is taken is no longer there, and nothing else leaves with it. Hit or
/// miss, exactly one of `played` and `concealed` counts it.
pub proof fn law_taken_frame_is_gone(b: JitterView, s: u16)
    requires
        b.started,
        b.slots.len() == SLOTS,
    ensures
        ({
            let (b2, got) = jitter::popped(b);
            &&& jitter::stored(b2, b.next) is None
            &&& s != b.next ==> jitter::stored(b2, s) == jitter::stored(b, s)
            &&& got matches Some(f) ==> f.seq == b.next
            &&& b2.newest == b.newest && b2.started
            &&& b2.stats == if got is Some {
                JitterStats { played: counted(b.stats.played + 1) as u64, ..b.stats }
            } else {
                JitterStats { concealed: counted(b.stats.concealed + 1) as u64, ..b.stats }
            }
        }),
{
}

/// A reset forgets every frame and counts itself; the other counters go on.
pub proof fn law_reset_forgets_every_frame(b: JitterView, s: u16)
    ensures
        !jitter::forgotten(b).started,
        jitter::stored(jitter::forgotten(b), s) is None,
        jitter::depth_of(jitter::forgotten(b)) == 0,
        jitter::forgotten(b).stats == (JitterStats {
            resets: counted(b.stats.resets + 1) as u64,
            ..b.stats
        }),
{
}

/// At a re-evaluation the new target is the lower limit and as many frames more
/// as there is jitter, up to the upper limit. Everything but the two counters
/// stays.
pub proof fn law_target_is_the_minimum_and_the_jitter(
    c: ControllerView,
    hit: bool,
    jitter_frames: i32,
)
    requires
        jitter::controller_ok(c),
        hit || c.consecutive_misses + 1 < c.reset_after_misses,
        c.frames_since_eval + 1 >= c.eval_interval_frames,
    ensures
        ({
            let c2 = jitter::frame_done(c, hit, jitter_frames);
            &&& 0 <= jitter_frames <= c.max_frames - c.min_frames ==> c2.target == c.min_frames
                + jitter_frames
            &&& jitter_frames < 0 ==> c2.target == c.min_frames
            &&& jitter_frames > c.max_frames - c.min_frames ==> c2.target == c.max_frames
            &&& c2.frames_since_eval == 0
            &&& c2 == (ControllerView {
                target: c2.target,
                frames_since_eval: c2.frames_since_eval,
                consecutive_misses: c2.consecutive_misses,
                ..c
            })
        }),
{
}

/// Between re-evaluations the target stays, whatever the jitter; the frames
/// until the next one are counted.
pub proof fn law_target_stays_between_evaluations(
    c: ControllerView,
    hit: bool,
    jitter_frames: i32,
)
    requires
        jitter::controller_ok(c),
        hit || c.consecutive_misses + 1 < c.reset_after_misses,
        c.frames_since_eval + 1 < c.eval_interval_frames,
    ensures
        ({
            let c2 = jitter::frame_done(c, hit, jitter_frames);
            &&& c2.target == c.target
            &&& c2.frames_since_eval == c.frames_since_eval + 1
            &&& c2 == (ControllerView {
                frames_since_eval: c2.frames_since_eval,
                consecutive_misses: c2.consecutive_misses,
                ..c
            })
        }),
{
}

/// A hit ends a row of misses, and a miss adds one to it. The miss that fills
/// the row makes the buffer fill up again from the start, with no correction
/// pending and the target as it was.
pub proof fn law_misses_in_a_row_are_counted(c: ControllerView, hit: bool, jitter_frames: i32)
    requires
        jitter::controller_ok(c),
    ensures
        ({
            let c2 = jitter::frame_done(c, hit, jitter_frames);
            &&& jitter::outage_next(c) <==> c.consecutive_misses + 1 >= c.reset_after_misses
            &&& hit ==> c2.consecutive_misses == 0
            &&& !hit && c.consecutive_misses + 1 < c.reset_after_misses ==> c2.consecutive_misses
                == c.consecutive_misses + 1
            &&& hit || c.consecutive_misses + 1 < c.reset_after_misses ==> c2.primed == c.primed
                && c2.pending == c.pending
            &&& !hit && c.consecutive_misses + 1 >= c.reset_after_misses ==> c2 == (ControllerView {
                primed: false,
                consecutive_misses: 0,
                pending: Adjust::Keep,
                ..c
            })
        }),
{
}

/// A depth that is off the target by more than the margin is corrected by one
/// frame towards it, and one within the margin is left alone. While a correction
/// is pending no other takes its place, and before the buffer has filled up
/// there is none.
pub proof fn law_depth_is_corrected_towards_the_target(c: ControllerView, depth: i32)
    ensures
        c.primed && c.pending == Adjust::Keep ==> {
            &&& jitter::correction(c, depth) == Adjust::DropOne <==> depth - c.target > c.deadband
            &&& jitter::correction(c, depth) == Adjust::InsertOne <==> c.target - depth > c.deadband
                && depth - c.target <= c.deadband
            &&& jitter::correction(c, depth) == Adjust::Keep <==> -c.deadband <= depth - c.target
                <= c.deadband
        },
        !c.primed || c.pending != Adjust::Keep ==> jitter::correction(c, depth) == c.pending,
{
}

/// How long a packet was under way is the difference of its two times, and a
/// packet that took longer than the one before by some time deviates by that
/// time.
pub proof fn law_transit_is_arrival_less_recording(arrival_us: u64, media_us: u64, more: u64)
    requires
        arrival_us + more < 0x8000_0000_0000_0000,
        media_us < 0x8000_0000_0000_0000,
    ensures
        jitter::transit_us(arrival_us, media_us) == arrival_us - media_us,
        jitter::transit_us((arrival_us + more) as u64, media_us) == jitter::transit_us(
            arrival_us,
            media_us,
        ) + more,
{
}

/// A buffer that fills up is ready just when the stream has started and is as
/// deep as the target, and from then on stays ready, however shallow it gets.
/// Nothing else of the controller changes, but that the row of misses starts
/// anew.
pub proof fn law_ready_at_the_target_depth(
    c: ControllerView,
    depth: int,
    started: bool,
    later: int,
    still: bool,
)
    ensures
        ({
            let (c2, ready) = jitter::before_pop(c, depth, started);
            &&& ready == c2.primed
            &&& !c.primed ==> (ready <==> started && depth >= c.target)
            &&& c.primed ==> ready
            &&& ready ==> jitter::before_pop(c2, later, still) == (c2, true)
            &&& ready && !c.primed ==> c2.consecutive_misses == 0
            &&& !ready || c.primed ==> c2 == c
            &&& c2 == (ControllerView {
                primed: c2.primed,
                consecutive_misses: c2.consecutive_misses,
                ..c
            })
        }),
{
}

/// A controller that is kept at a depth has that as its target before and after
/// every frame, whatever the jitter.
pub proof fn law_fixed_depth_stays(
    c: ControllerView,
    frames: i32,
    hit: bool,
    jitter_frames: i32,
)
    ensures
        jitter::kept_at(c, frames).target == frames,
        jitter::frame_done(jitter::kept_at(c, frames), hit, jitter_frames).target == frames,
        jitter::kept_at(c, frames) == (ControllerView {
            target: frames,
            min_frames: frames,
            max_frames: frames,
            ..c
        }),
{
}

/// After a restart the buffer has to fill up again, nothing is pending, and
/// both counts start anew; the target and its limits stay.
pub proof fn law_restart_keeps_the_target(c: ControllerView)
    ensures
        ({
            let c2 = jitter::restarted(c);
            &&& !c2.primed
            &&& c2.pending == Adjust::Keep
            &&& c2.consecutive_misses == 0
            &&& c2.frames_since_eval == 0
            &&& c2 == (ControllerView {
                primed: c2.primed,
                pending: c2.pending,
                consecutive_misses: c2.consecutive_misses,
                frames_since_eval: c2.frames_since_eval,
                ..c
            })
        }),
{
}

/// The first packet does not deviate from anything. A later one deviates by as
/// much as it was faster or slower than the one before, never by less than
/// nothing.
pub proof fn law_deviation_is_the_change_of_transit(pa: u64, pm: u64, gap: u64, off: int)
    requires
        pa + gap < 0x8000_0000_0000_0000,
        pm + gap < 0x8000_0000_0000_0000,
        0 <= pa + gap + off < 0x8000_0000_0000_0000,
    ensures
        jitter::deviation_from(None, pa, pm) is None,
        jitter::deviation_from(
            Some((pa, pm)),
            (pa + gap + off) as u64,
            (pm + gap) as u64,
        ) == Some(
            if off < 0 {
                -off
            } else {
                off
            },
        ),
{
}

/// A new buffer holds nothing, has counted nothing, and takes any frame as its
/// first.
pub proof fn law_new_buffer_is_empty(s: u16, timestamp: u32, payload: Seq<u8>)
    requires
        payload.len() <= MAX_FRAME_BYTES,
    ensures
        ({
            let b = jitter::empty_buffer();
            let (b2, outcome) = jitter::pushed(b, s, timestamp, payload);
            &&& b.slots.len() == 64
            &&& jitter::depth_of(b) == 0
            &&& jitter::stored(b, s) is None
            &&& b.stats.received == 0 && b.stats.late == 0 && b.stats.duplicates == 0
                && b.stats.concealed == 0 && b.stats.played == 0 && b.stats.resets == 0
                && b.stats.jitter_us_bits == 0
            &&& outcome == PushOutcome::Stored
            &&& jitter::popped(b2).1 == Some(FrameView { seq: s, timestamp, payload })
        }),
{
}

/// Times are taken as signed numbers of 64 bits: one from the upper half of the
/// unsigned ones counts as that much before zero.
pub proof fn law_times_are_signed(arrival_us: u64, media_us: u64)
    ensures
        ({
            let back = |t: u64|
                if t >= 0x8000_0000_0000_0000 {
                    0x1_0000_0000_0000_0000int
                } else {
                    0int
                };
            jitter::transit_us(arrival_us, media_us) == (arrival_us - back(arrival_us)) - (media_us
                - back(media_us))
        }),
{
}

} // verus!
