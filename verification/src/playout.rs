//! Per-stream receive chain, apart from the samples themselves: jitter buffer
//! -> decoder/concealment -> drift-corrected playout. Owned by the audio
//! callback; nothing is allocated after construction.
//!
//! By default a fractional resampler continuously rate-matches the sender's
//! clock. The coarse drop/insert corrections remain as a fallback for step
//! changes (network path change), gated behind a widened deadband so they
//! never fight the resampler.
//!
//! A tick asks [`StreamPlayout::ready`]; then it pulls frames, one for each
//! tick or as many as the resampler needs: [`StreamPlayout::pull`] tells what
//! to decode, [`StreamPlayout::settle`] takes the outcome. At the end
//! [`StreamPlayout::adjust`] applies a correction at a quiet moment.
use crate::engine::EngineParams;
use crate::jitter;
use crate::jitter::{
    Adjust, ControllerView, JitterBuffer, JitterView, PlayoutController, PopOutcome,
};
use crate::MAX_FRAME_BYTES;
use vstd::prelude::*;

verus! {

/// The deadband while the resampler absorbs fine drift: step corrections only
/// for genuine jumps.
pub const DRIFT_DEADBAND: i32 = 3;

#[derive(Debug)]
pub struct StreamPlayout {
    controller: PlayoutController,
    pkt_buf: Vec<u8>,
    insert_pending: bool,
}

/// The state of a stream's playout.
#[verifier::ext_equal]
pub struct PlayoutView {
    pub controller: ControllerView,
    /// When set, the next pull plays a concealed frame *without* consuming
    /// from the buffer, growing effective depth by one frame.
    pub insert_pending: bool,
}

/// A playout at which nothing has arrived yet.
pub open spec fn fresh_playout(
    params: EngineParams,
    eval_interval_frames: u32,
    reset_after_misses: u32,
) -> PlayoutView {
    let depths: (i32, i32) = match params.jitter_fixed {
        Some(n) => (n, n),
        None => (2, 20),
    };
    PlayoutView {
        controller: ControllerView {
            min_frames: depths.0,
            max_frames: depths.1,
            target: depths.0,
            deadband: if params.drift_correction {
                DRIFT_DEADBAND
            } else {
                1
            },
            eval_interval_frames,
            frames_since_eval: 0,
            primed: false,
            consecutive_misses: 0,
            reset_after_misses,
            pending: Adjust::Keep,
        },
        insert_pending: false,
    }
}

/// What the decoder is to do.
#[derive(Debug, Clone, Copy, PartialEq, Eq, Structural)]
pub enum Pulled {
    /// Decode the frame of `len` bytes (see [`StreamPlayout::packet`]).
    Frame { len: usize },
    /// Conceal a frame.
    Conceal,
}

/// What a pull does to the playout and to the jitter buffer, and the frame that
/// is to be decoded, if any.
pub open spec fn pulled(p: PlayoutView, b: JitterView) -> (PlayoutView, JitterView, Option<Seq<u8>>) {
    if p.insert_pending {
        (PlayoutView { insert_pending: false, ..p }, b, None)
    } else {
        let (b2, frame) = jitter::popped(b);
        (
            p,
            b2,
            match frame {
                None => None,
                Some(f) => Some(f.payload),
            },
        )
    }
}

/// What the outcome of a pull does to the playout and to the jitter buffer. A
/// prolonged outage resets the buffer; otherwise the depth is observed.
pub open spec fn settled(p: PlayoutView, b: JitterView, hit: bool, jitter_frames: i32) -> (
    PlayoutView,
    JitterView,
) {
    let c = jitter::frame_done(p.controller, hit, jitter_frames);
    if !hit && jitter::outage_next(p.controller) {
        (PlayoutView { controller: c, ..p }, jitter::forgotten(b))
    } else {
        (
            PlayoutView {
                controller: ControllerView {
                    pending: jitter::correction(c, jitter::depth_of(b) as i32),
                    ..c
                },
                ..p
            },
            b,
        )
    }
}

/// What a quiet moment does to the playout and to the jitter buffer: the
/// pending correction is applied.
pub open spec fn adjusted(p: PlayoutView, b: JitterView) -> (PlayoutView, JitterView) {
    let controller = ControllerView { pending: Adjust::Keep, ..p.controller };
    match p.controller.pending {
        Adjust::Keep => (PlayoutView { controller, ..p }, b),
        Adjust::DropOne => (PlayoutView { controller, ..p }, jitter::skipped(b)),
        Adjust::InsertOne => (PlayoutView { controller, insert_pending: true }, b),
    }
}

impl View for StreamPlayout {
    type V = PlayoutView;

    closed spec fn view(&self) -> PlayoutView {
        PlayoutView { controller: self.controller@, insert_pending: self.insert_pending }
    }
}

impl StreamPlayout {
    /// The controller is in order, and there is room for a packet.
    pub closed spec fn wf(self) -> bool {
        &&& jitter::controller_ok(self.controller@)
        &&& self.pkt_buf@.len() == MAX_FRAME_BYTES
    }

    /// The packet that the last pull handed out, for its length in bytes.
    pub closed spec fn packet_bytes(self) -> Seq<u8> {
        self.pkt_buf@
    }

    /// A playout that re-evaluates its target depth every
    /// `eval_interval_frames` and declares an outage after
    /// `reset_after_misses` missed frames.
    pub fn new(
        params: &EngineParams,
        eval_interval_frames: u32,
        reset_after_misses: u32,
    ) -> (p: Self)
        ensures
            p.wf(),
            p@ == fresh_playout(*params, eval_interval_frames, reset_after_misses),
            p@ == (PlayoutView {
                controller: ControllerView {
                    min_frames: match params.jitter_fixed {
                        Some(n) => n,
                        None => 2,
                    },
                    max_frames: match params.jitter_fixed {
                        Some(n) => n,
                        None => 20,
                    },
                    target: match params.jitter_fixed {
                        Some(n) => n,
                        None => 2,
                    },
                    deadband: if params.drift_correction {
                        DRIFT_DEADBAND
                    } else {
                        1
                    },
                    eval_interval_frames,
                    frames_since_eval: 0,
                    primed: false,
                    consecutive_misses: 0,
                    reset_after_misses,
                    pending: Adjust::Keep,
                },
                insert_pending: false,
            }),
    {
        let mut controller = PlayoutController::new(eval_interval_frames, reset_after_misses);
        if let Some(n) = params.jitter_fixed {
            controller.set_fixed(n);
        }
        if params.drift_correction {
            controller.set_deadband(DRIFT_DEADBAND);
        }
        StreamPlayout {
            controller,
            pkt_buf: vec![0u8; MAX_FRAME_BYTES],
            insert_pending: false,
        }
    }

    /// Whether the stream is live. While the buffer is priming, play silence
    /// and pull nothing.
    pub fn ready(&mut self, jb: &JitterBuffer) -> (ready: bool)
        requires
            old(self).wf(),
            jb.wf(),
        ensures
            final(self).wf(),
            ready == (old(self)@.controller.primed || (jb@.started && jitter::depth_of(jb@)
                >= old(self)@.controller.target)),
            ready == jitter::before_pop(
                old(self)@.controller,
                jitter::depth_of(jb@),
                jb@.started,
            ).1,
            final(self)@.controller == jitter::before_pop(
                old(self)@.controller,
                jitter::depth_of(jb@),
                jb@.started,
            ).0,
            final(self)@ == if ready && !old(self)@.controller.primed {
                PlayoutView {
                    controller: ControllerView {
                        primed: true,
                        consecutive_misses: 0,
                        ..old(self)@.controller
                    },
                    ..old(self)@
                }
            } else {
                old(self)@
            },
    {
        let depth: i32 = jb.depth();
        let started = jb.is_started();
        self.controller.pre_pop(depth, started)
    }

    /// Takes one packet from the buffer, or none where a frame is to be
    /// inserted or is missing.
    pub fn pull(&mut self, jb: &mut JitterBuffer) -> (r: Pulled)
        requires
            old(self).wf(),
            old(jb).wf(),
        ensures
            final(self).wf(),
            final(jb).wf(),
            final(self)@ == pulled(old(self)@, old(jb)@).0,
            final(jb)@ == pulled(old(self)@, old(jb)@).1,
            match pulled(old(self)@, old(jb)@).2 {
                None => r == Pulled::Conceal,
                Some(payload) => r == (Pulled::Frame { len: payload.len() as usize })
                    && payload.len() <= MAX_FRAME_BYTES && final(self).packet_bytes().take(
                    payload.len() as int,
                ) == payload,
            },
    {
        if self.insert_pending {
            self.insert_pending = false;
            return Pulled::Conceal;
        }
        match jb.pop_next(self.pkt_buf.as_mut_slice()) {
            PopOutcome::Frame { len, .. } => {
                proof {
                    let payload = jitter::popped(old(jb)@).1->Some_0.payload;
                    assert(self.pkt_buf@.take(len as int) =~= payload);
                }
                Pulled::Frame { len }
            },
            PopOutcome::Missing => Pulled::Conceal,
        }
    }

    /// The first `len` bytes of the packet that the last pull handed out.
    pub fn packet(&self, len: usize) -> (b: &[u8])
        requires
            self.wf(),
            len <= MAX_FRAME_BYTES,
        ensures
            b@ == self.packet_bytes().take(len as int),
    {
        &self.pkt_buf.as_slice()[0..len]
    }

    /// Takes the outcome of a pull: `hit` if a frame was decoded, and the
    /// stream's jitter in frames. Returns false on a prolonged outage: the
    /// jitter buffer has been reset, and the caller must go silent and
    /// re-prime.
    pub fn settle(&mut self, jb: &mut JitterBuffer, hit: bool, jitter_frames: i32) -> (live: bool)
        requires
            old(self).wf(),
            old(jb).wf(),
            (hit || !jitter::outage_next(old(self)@.controller)) && jitter::eval_next(
                old(self)@.controller,
            ) ==> i32::MIN <= old(self)@.controller.min_frames + jitter_frames <= i32::MAX,
            hit || !jitter::outage_next(old(self)@.controller) ==> jitter::margins_fit(
                jitter::frame_done(old(self)@.controller, hit, jitter_frames),
                jitter::depth_of(old(jb)@),
            ),
        ensures
            final(self).wf(),
            final(jb).wf(),
            live == (hit || !jitter::outage_next(old(self)@.controller)),
            final(self)@ == settled(old(self)@, old(jb)@, hit, jitter_frames).0,
            final(jb)@ == settled(old(self)@, old(jb)@, hit, jitter_frames).1,
    {
        if self.controller.post_pop(hit, jitter_frames) {
            jb.reset();
            return false;
        }
        let depth: i32 = jb.depth();
        self.controller.observe_depth(depth);
        true
    }

    /// Applies at most one coarse depth correction, only at quiet moments.
    pub fn adjust(&mut self, jb: &mut JitterBuffer, quiet: bool)
        requires
            old(self).wf(),
            old(jb).wf(),
        ensures
            final(self).wf(),
            final(jb).wf(),
            final(self)@ == if quiet {
                adjusted(old(self)@, old(jb)@).0
            } else {
                old(self)@
            },
            final(jb)@ == if quiet {
                adjusted(old(self)@, old(jb)@).1
            } else {
                old(jb)@
            },
    {
        if quiet {
            match self.controller.take_adjustment() {
                Adjust::Keep => {},
                Adjust::DropOne => {
                    let _ = jb.skip_next();
                },
                Adjust::InsertOne => {
                    self.insert_pending = true;
                },
            }
        }
    }

    pub fn target_depth(&self) -> (t: i32)
        ensures
            t == self@.controller.target,
    {
        self.controller.target()
    }

    /// Forget priming/pending state; used when a slot is reused by a new
    /// client or the client rejoins.
    pub fn reset_stream(&mut self)
        requires
            old(self).wf(),
        ensures
            final(self).wf(),
            final(self)@ == (PlayoutView {
                controller: ControllerView {
                    primed: false,
                    consecutive_misses: 0,
                    pending: Adjust::Keep,
                    frames_since_eval: 0,
                    ..old(self)@.controller
                },
                insert_pending: false,
            }),
            final(self)@.controller == jitter::restarted(old(self)@.controller),
    {
        self.controller.reset();
        self.insert_pending = false;
    }
}

/// A correction moves the depth towards the target by one frame: dropping one
/// lowers it at once, inserting one keeps the next pull from lowering it.
pub proof fn law_corrections_move_the_depth(p: PlayoutView, b: JitterView)
    requires
        b.started,
        b.slots.len() == jitter::SLOTS,
        -0x7FFF < jitter::depth_of(b) < 0x7FFF,
        !p.insert_pending,
    ensures
        ({
            let (p2, b2) = adjusted(p, b);
            let after = pulled(p2, b2).1;
            match p.controller.pending {
                Adjust::Keep => b2 == b && jitter::depth_of(after) == jitter::depth_of(b) - 1,
                Adjust::DropOne => jitter::depth_of(b2) == jitter::depth_of(b) - 1,
                Adjust::InsertOne => b2 == b && after == b,
            }
        }),
{
    jitter::law_depth_counts_frames(b, 0, Seq::empty());
}

/// After an outage the stream starts over: nothing is buffered, the playout is
/// not primed, and it becomes ready again only at its target depth.
pub proof fn law_outage_starts_over(p: PlayoutView, b: JitterView, jitter_frames: i32)
    requires
        jitter::outage_next(p.controller),
    ensures
        ({
            let (p2, b2) = settled(p, b, false, jitter_frames);
            &&& !p2.controller.primed
            &&& !b2.started
            &&& jitter::depth_of(b2) == 0
            &&& p2.controller.pending == Adjust::Keep
        }),
{
}

/// A pull hands out what the jitter buffer hands out, unless a frame is to be
/// inserted: then it conceals one and leaves the buffer alone, once.
pub proof fn law_a_pull_takes_one_frame(p: PlayoutView, b: JitterView)
    ensures
        ({
            let (p2, b2, frame) = pulled(p, b);
            &&& p2.controller == p.controller
            &&& !p2.insert_pending
            &&& p.insert_pending ==> b2 == b && frame is None
            &&& !p.insert_pending ==> b2 == jitter::popped(b).0 && (frame is Some <==> jitter::popped(
                b,
            ).1 is Some) && (frame matches Some(payload) ==> payload == jitter::popped(
                b,
            ).1->Some_0.payload)
        }),
{
}

/// The outcome of a pull resets the buffer just when it is the miss that fills
/// the row; otherwise the buffer stays, and a depth that is off the new target
/// by more than the margin calls for a correction towards it, if none was
/// pending.
pub proof fn law_depth_is_watched(p: PlayoutView, b: JitterView, hit: bool, jitter_frames: i32)
    requires
        jitter::controller_ok(p.controller),
        -0x8000 <= jitter::depth_of(b) <= 0x8000,
    ensures
        ({
            let (p2, b2) = settled(p, b, hit, jitter_frames);
            let outage = !hit && p.controller.consecutive_misses + 1
                >= p.controller.reset_after_misses;
            let off = jitter::depth_of(b) - p2.controller.target;
            &&& p2.insert_pending == p.insert_pending
            &&& outage ==> !b2.started && !p2.controller.primed && p2.controller.pending
                == Adjust::Keep && p2.controller.target == p.controller.target
            &&& !outage ==> b2 == b && p2.controller.primed == p.controller.primed
            &&& !outage && p.controller.primed && p.controller.pending == Adjust::Keep ==> {
                &&& p2.controller.pending == Adjust::DropOne <==> off > p.controller.deadband
                &&& p2.controller.pending == Adjust::InsertOne <==> off < -p.controller.deadband
                    && off <= p.controller.deadband
            }
            &&& !outage && (!p.controller.primed || p.controller.pending != Adjust::Keep)
                ==> p2.controller.pending == p.controller.pending
            &&& !outage && p.controller.frames_since_eval + 1 >= p.controller.eval_interval_frames
                && 0 <= jitter_frames <= p.controller.max_frames - p.controller.min_frames
                ==> p2.controller.target == p.controller.min_frames + jitter_frames
            &&& !outage && p.controller.frames_since_eval + 1 < p.controller.eval_interval_frames
                ==> p2.controller.target == p.controller.target
        }),
{
}

/// A quiet moment uses up the pending correction: it drops the frame at the
/// read position, or has the next pull insert one, or does nothing.
pub proof fn law_a_correction_is_used_once(p: PlayoutView, b: JitterView)
    ensures
        ({
            let (p2, b2) = adjusted(p, b);
            &&& p2.controller == (ControllerView { pending: Adjust::Keep, ..p.controller })
            &&& p.controller.pending == Adjust::DropOne ==> b2 == (JitterView {
                stats: b.stats,
                ..jitter::popped(b).0
            })
            &&& p.controller.pending != Adjust::DropOne ==> b2 == b
            &&& p2.insert_pending == (p.insert_pending || p.controller.pending
                == Adjust::InsertOne)
        }),
{
}

/// A new playout has to fill up first. It starts at the least depth there is and
/// may go up to 20 frames, or keeps to the depth that was asked for; while the
/// resampler absorbs drift it tolerates three frames off the target, else one.
pub proof fn law_new_playout_fills_up(
    params: EngineParams,
    eval_interval_frames: u32,
    reset_after_misses: u32,
)
    ensures
        ({
            let p = fresh_playout(params, eval_interval_frames, reset_after_misses);
            let c = p.controller;
            &&& !c.primed && !p.insert_pending && c.pending == Adjust::Keep
            &&& c.consecutive_misses == 0 && c.frames_since_eval == 0
            &&& c.eval_interval_frames == eval_interval_frames
            &&& c.reset_after_misses == reset_after_misses
            &&& params.jitter_fixed matches Some(n) ==> c.min_frames == n && c.target == n
                && c.max_frames == n
            &&& params.jitter_fixed is None ==> c.min_frames == 2 && c.target == 2 && c.max_frames
                == 20
            &&& params.drift_correction ==> c.deadband == 3
            &&& !params.drift_correction ==> c.deadband == 1
        }),
{
}

} // verus!
