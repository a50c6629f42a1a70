//! Low-latency jam sessions over UDP: wire format, session state machines,
//! jitter buffering and the decisions of the network and control threads.
//!
//! Nothing in this library performs I/O or reads a clock. Packets are parsed
//! from and written into byte slices of the caller, and every state machine is
//! driven by events and times that the caller hands in.
use vstd::prelude::*;

pub mod accum;
pub mod addr;
pub mod bytes;
pub mod cli;
pub mod codec;
pub mod control;
pub mod control_laws;
pub mod device;
pub mod effect_laws;
pub mod engine;
pub mod framing;
pub mod handshake;
pub mod handshake_laws;
pub mod jitter;
pub mod jitter_laws;
pub mod layout_laws;
pub mod measure;
pub mod net;
pub mod net_laws;
pub mod packet;
pub mod pipeline;
pub mod playout;
pub mod probe;
pub mod ring;
pub mod room_laws;
pub mod roundtrip;
pub mod seq;
pub mod session_laws;
pub mod stats;
pub mod status_ui;
pub mod stun;

verus! {

/// First byte of every datagram; anything else is dropped on sight.
pub const MAGIC: u8 = 0xA5;

pub const PROTOCOL_VERSION: u8 = 1;

pub const DEFAULT_PORT: u16 = 47820;

/// Maximum number of connected clients. The host itself is player 0, so a
/// full room is `MAX_CLIENTS + 1` musicians.
pub const MAX_CLIENTS: usize = 4;

pub const HOST_SENDER_ID: u16 = 0;

/// Sender id used by clients before the host has assigned them a slot.
pub const UNJOINED_SENDER_ID: u16 = 0xFFFF;

pub const ROOM_CODE_LEN: usize = 6;

pub const MAX_NAME_LEN: usize = 32;

/// Upper bound on any datagram we send; fits well inside a 1500-byte MTU.
pub const MAX_DATAGRAM: usize = 1400;

/// Reliable-control retransmit interval and attempt cap (100 ms x 10).
pub const CONTROL_RETRY_MS: u64 = 100;

pub const CONTROL_MAX_TRIES: u32 = 10;

/// Keepalive cadence while no audio is flowing, and the silence threshold
/// after which a peer is declared dead.
pub const KEEPALIVE_MS: u64 = 500;

pub const PEER_TIMEOUT_MS: u64 = 5_000;

/// How long a disconnected client keeps trying to rejoin.
pub const REJOIN_WINDOW_MS: u64 = 30_000;

/// Fixed session sample rate. Devices that cannot open a 48 kHz stream are
/// rejected with a clear error.
pub const SAMPLE_RATE: u32 = 48_000;

/// Default network/codec frame: 120 samples = 2.5 ms at 48 kHz.
pub const DEFAULT_FRAME_SAMPLES: usize = 120;

/// The largest frame we support on the wire: 5 ms at 48 kHz.
pub const MAX_FRAME_SAMPLES: usize = 240;

/// Upper bound for one encoded frame's payload on the wire (PCM f32 at 5 ms
/// is 960 bytes; Opus frames are far smaller).
pub const MAX_FRAME_BYTES: usize = 1024;

/// Default hardware buffer request, in samples.
pub const DEFAULT_HW_BUFFER: u32 = 128;

/// How the times and sizes of the protocol go together: an unanswered packet is
/// given up after a second, a silent peer after ten missed keepalives, and a lost
/// host after half a minute; a frame lasts 2.5 ms by default and 5 ms at most,
/// and fits into a datagram with everything around it even uncompressed.
pub proof fn law_times_and_sizes_agree()
    ensures
        CONTROL_RETRY_MS == 100 && CONTROL_MAX_TRIES * CONTROL_RETRY_MS == 1_000,
        KEEPALIVE_MS == 500 && PEER_TIMEOUT_MS == 10 * KEEPALIVE_MS,
        REJOIN_WINDOW_MS == 30_000,
        control::PING_INTERVAL_MS == 1_000,
        control::SNAPSHOT_INTERVAL_MS == 500,
        DEFAULT_FRAME_SAMPLES * 2_000 == 5 * SAMPLE_RATE,
        MAX_FRAME_SAMPLES * 1_000 == 5 * SAMPLE_RATE,
        4 * MAX_FRAME_SAMPLES <= MAX_FRAME_BYTES,
        packet::HEADER_LEN + packet::AUDIO_HEADER_LEN + MAX_FRAME_BYTES <= MAX_DATAGRAM,
        MAX_CLIENTS == 4 && ROOM_CODE_LEN == 6 && MAX_NAME_LEN == 32 && MAX_DATAGRAM == 1_400,
        HOST_SENDER_ID == 0 && UNJOINED_SENDER_ID == 0xFFFF && DEFAULT_PORT == 47820,
        jitter::SLOTS == 64 && SAMPLE_RATE == 48_000,
{
}

} // verus!
