//! What a session is started with.
use crate::packet::Codec;
use crate::{DEFAULT_FRAME_SAMPLES, SAMPLE_RATE};
use vstd::prelude::*;

verus! {

/// How the player hears themselves.
#[derive(Debug, Clone, Copy, PartialEq, Eq, Structural)]
pub enum MonitorMode {
    /// Local zero-latency monitor + mix-minus-self from the host.
    Direct,
    /// Hear yourself through the host mix (full round trip).
    ThroughMix,
    /// No self-monitor (hardware direct monitoring on the interface).
    Off,
}

impl Default for MonitorMode {
    fn default() -> (m: Self)
        ensures
            m == MonitorMode::Direct,
    {
        MonitorMode::Direct
    }
}

/// Runtime configuration shared by host and client roles.
#[derive(Debug, Clone, Copy, PartialEq, Eq, Structural)]
pub struct EngineParams {
    pub sample_rate: u32,
    pub frame_samples: usize,
    pub codec: Codec,
    pub bitrate_bps: i32,
    /// Attach the previous frame to every packet (RFC 2198-style repair).
    pub redundancy: bool,
    pub monitor: MonitorMode,
    /// Fix the jitter buffer at N frames instead of adapting.
    pub jitter_fixed: Option<i32>,
    /// Continuous clock-drift correction via fractional resampling. When
    /// false, falls back to coarse drop/insert-at-quiet-moments only.
    pub drift_correction: bool,
    /// Drop this share of outgoing packets, in units of 2^-24 (dev/testing).
    pub simulate_loss: u32,
    /// Host only: loop each client's own audio back instead of the mix
    /// (latency measurement against `jam measure`).
    pub echo: bool,
}

impl Default for EngineParams {
    fn default() -> (p: Self)
        ensures
            p == (EngineParams {
                sample_rate: SAMPLE_RATE,
                frame_samples: DEFAULT_FRAME_SAMPLES,
                codec: Codec::Opus,
                bitrate_bps: 96_000,
                redundancy: false,
                monitor: MonitorMode::Direct,
                jitter_fixed: None,
                drift_correction: true,
                simulate_loss: 0,
                echo: false,
            }),
    {
        EngineParams {
            sample_rate: SAMPLE_RATE,
            frame_samples: DEFAULT_FRAME_SAMPLES,
            codec: Codec::Opus,
            bitrate_bps: 96_000,
            redundancy: false,
            monitor: MonitorMode::Direct,
            jitter_fixed: None,
            drift_correction: true,
            simulate_loss: 0,
            echo: false,
        }
    }
}

/// Which devices to use, and the hardware buffer to ask them for.
#[derive(Debug, Clone, Default)]
pub struct AudioConfig {
    pub input_name: Option<String>,
    pub output_name: Option<String>,
    pub hw_buffer: u32,
}

/// The upper and the lower half of `v` exchanged.
pub open spec fn halves_swapped(v: u32) -> u32 {
    ((v % 0x1_0000) * 0x1_0000 + v / 0x1_0000) as u32
}

/// The session id that a time and a process id make: their low 16 bits, mixed,
/// but never 0, which stands for "unknown" on clients before WELCOME.
pub open spec fn session_id_of(nanos: u32, pid: u32) -> int {
    let low = (nanos ^ halves_swapped(pid) ^ 0x5AA5u32) % 0x1_0000;
    if low == 0 {
        1
    } else {
        low as int
    }
}

/// A session id from the nanoseconds of the clock and the process id.
pub fn session_id_from(nanos: u32, pid: u32) -> (id: u16)
    ensures
        id == session_id_of(nanos, pid),
        id != 0,
{
    let swapped: u32 = (pid % 0x1_0000) * 0x1_0000 + pid / 0x1_0000;
    let mixed: u32 = nanos ^ swapped ^ 0x5AA5;
    let low: u16 = (mixed % 0x1_0000) as u16;
    if low == 0 {
        1
    } else {
        low
    }
}

/// Puts each mono sample on all channels of an interleaved block, from frame
/// `at` on.
pub fn fan_out<T: Copy>(mono: &[T], channels: usize, at: usize, data: &mut [T])
    requires
        (at + mono@.len()) * channels <= old(data)@.len(),
    ensures
        final(data)@ == fanned_out(old(data)@, mono@, channels as int, at as int),
{
    let total: usize = data.len();
    let n: usize = mono.len();
    let ghost before = data@;
    let ghost wanted = fanned_out(before, mono@, channels as int, at as int);
    let mut k: usize = 0;
    while k < n
        invariant
            k <= n,
            n == mono@.len(),
            total == data@.len(),
            data@.len() == before.len(),
            wanted == fanned_out(before, mono@, channels as int, at as int),
            (at + n) * channels <= total,
            forall|i: int|
                0 <= i < total ==> #[trigger] data@[i] == if i < (at + k) * channels {
                    wanted[i]
                } else {
                    before[i]
                },
        decreases n - k,
    {
        proof {
            assert((at + k) * channels + channels <= (at + n) * channels) by (nonlinear_arith)
                requires
                    k < n,
            ;
            assert((at + k) * channels + channels == (at + k + 1) * channels) by (nonlinear_arith);
            if channels > 0 {
                assert(at + n <= (at + n) * channels) by (nonlinear_arith)
                    requires
                        channels > 0,
                ;
            }
        }
        let mut ch: usize = 0;
        while ch < channels
            invariant
                ch <= channels,
                k < n,
                n == mono@.len(),
                total == data@.len(),
                data@.len() == before.len(),
                wanted == fanned_out(before, mono@, channels as int, at as int),
                (at + k) * channels + channels <= total,
                channels > 0 ==> at + n <= total,
                (at + k) * channels + channels <= (at + n) * channels,
                forall|i: int|
                    0 <= i < total ==> #[trigger] data@[i] == if i < (at + k) * channels + ch {
                        wanted[i]
                    } else {
                        before[i]
                    },
            decreases channels - ch,
        {
            let base: usize = (at + k) * channels;
            data[base + ch] = mono[k];
            proof {
                let i = (at + k) * channels + ch;
                assert(i / channels as int == at + k) by (nonlinear_arith)
                    requires
                        i == (at + k) * channels + ch,
                        0 <= ch < channels,
                ;
                assert(at * channels <= (at + k) * channels) by (nonlinear_arith);
                assert(wanted[i] == mono@[k as int]);
            }
            ch = ch + 1;
        }
        k = k + 1;
    }
    proof {
        assert forall|i: int| 0 <= i < total implies data@[i] == wanted[i] by {
            if i >= (at + n) * channels {
                assert(wanted[i] == before[i]);
            }
        }
        assert(data@ =~= wanted);
    }
}

/// An interleaved block after mono samples were put on all of its channels, from
/// frame `at` on.
pub open spec fn fanned_out<T>(data: Seq<T>, mono: Seq<T>, channels: int, at: int) -> Seq<T> {
    Seq::new(
        data.len(),
        |i: int|
            if at * channels <= i < (at + mono.len()) * channels {
                mono[i / channels - at]
            } else {
                data[i]
            },
    )
}

/// The session id is made of the low half of the time and the upper half of the
/// process id; only where those cancel out is it one.
pub proof fn law_session_id_mixes_time_and_process(nanos: u32, pid: u32, other: u32)
    ensures
        1 <= session_id_of(nanos, pid) <= 0xFFFF,
        ({
            let low = (nanos % 0x1_0000) as u32 ^ (pid / 0x1_0000) as u32 ^ 0x5AA5u32;
            session_id_of(nanos, pid) == if low == 0 {
                1
            } else {
                low as int
            }
        }),
        nanos % 0x1_0000 != other % 0x1_0000 && session_id_of(nanos, pid) > 1 && session_id_of(
            other,
            pid,
        ) > 1 ==> session_id_of(nanos, pid) != session_id_of(other, pid),
{
    let s = halves_swapped(pid);
    let upper = (pid / 0x1_0000) as u32;
    assert(s % 0x1_0000 == upper);
    let low = (nanos % 0x1_0000) as u32;
    assert((nanos ^ s ^ 0x5AA5u32) % 0x1_0000 == low ^ upper ^ 0x5AA5u32) by (bit_vector)
        requires
            low == nanos % 0x1_0000,
            s % 0x1_0000 == upper,
            upper < 0x1_0000,
    ;
    assert(nanos % 0x1_0000 != other % 0x1_0000 ==> (nanos ^ s ^ 0x5AA5u32) % 0x1_0000 != (other ^ s
        ^ 0x5AA5u32) % 0x1_0000) by (bit_vector);
}

/// Each mono sample is on every channel of its frame; nothing else in the block
/// changes.
pub proof fn law_every_channel_gets_the_sample<T>(
    data: Seq<T>,
    mono: Seq<T>,
    channels: int,
    at: int,
    frame: int,
    channel: int,
)
    requires
        0 <= at,
        0 <= frame,
        0 <= channel < channels,
        (at + mono.len()) * channels <= data.len(),
        frame * channels + channel < data.len(),
    ensures
        fanned_out(data, mono, channels, at).len() == data.len(),
        at <= frame < at + mono.len() ==> fanned_out(data, mono, channels, at)[frame * channels
            + channel] == mono[frame - at],
        !(at <= frame < at + mono.len()) ==> fanned_out(data, mono, channels, at)[frame * channels
            + channel] == data[frame * channels + channel],
{
    let i = frame * channels + channel;
    let n = at + mono.len();
    assert(0 <= i && i / channels == frame) by (nonlinear_arith)
        requires
            i == frame * channels + channel,
            0 <= channel < channels,
            0 <= frame,
    ;
    if frame >= at {
        assert(at * channels <= i) by (nonlinear_arith)
            requires
                i == frame * channels + channel,
                at <= frame,
                0 <= channel < channels,
        ;
    } else {
        assert(i < at * channels) by (nonlinear_arith)
            requires
                i == frame * channels + channel,
                frame + 1 <= at,
                0 <= channel < channels,
        ;
    }
    if frame < n {
        assert(i < n * channels) by (nonlinear_arith)
            requires
                i == frame * channels + channel,
                frame + 1 <= n,
                0 <= channel < channels,
        ;
    } else {
        assert(n * channels <= i) by (nonlinear_arith)
            requires
                i == frame * channels + channel,
                n <= frame,
                0 <= channel < channels,
        ;
    }
}

} // verus!
