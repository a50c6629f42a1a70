use jam::codec::{pcm_decode, pcm_encode};
use jam::engine::EngineParams;
use jam::jitter::JitterBuffer;
use jam::packet::Codec;
use jam::playout::{Pulled, StreamPlayout};

fn params() -> EngineParams {
    EngineParams {
        codec: Codec::PcmF32,
        drift_correction: false,
        ..Default::default()
    }
}

fn frame_bytes(value: f32, n: usize) -> Vec<u8> {
    let words = vec![value.to_bits(); n];
    let mut out = vec![0u8; n * 4];
    let len = pcm_encode(Codec::PcmF32, &words, &mut out).unwrap();
    out.truncate(len);
    out
}

struct Stream {
    playout: StreamPlayout,
    frame_us: f32,
}

impl Stream {
    fn new(p: &EngineParams) -> Stream {
        let frame_us = p.frame_samples as f32 * 1e6 / p.sample_rate as f32;
        Stream {
            playout: StreamPlayout::new(
                p,
                (2_000_000.0 / frame_us) as u32,
                (500_000.0 / frame_us) as u32,
            ),
            frame_us,
        }
    }

    /// One packet per tick, drop/insert for drift.
    fn tick(&mut self, jb: &mut JitterBuffer, out: &mut [f32]) -> bool {
        if !self.playout.ready(jb) {
            out.fill(0.0);
            return false;
        }
        let mut words = vec![0u32; out.len()];
        let hit = match self.playout.pull(jb) {
            Pulled::Frame { len } => {
                let ok =
                    pcm_decode(Codec::PcmF32, Some(self.playout.packet(len)), &mut words).is_ok();
                if !ok {
                    pcm_decode(Codec::PcmF32, None, &mut words).unwrap();
                }
                ok
            }
            Pulled::Conceal => {
                pcm_decode(Codec::PcmF32, None, &mut words).unwrap();
                false
            }
        };
        let jitter_us = f32::from_bits(jb.stats.jitter_us_bits);
        let frames = (3.0 * jitter_us / self.frame_us).ceil() as i32;
        if !self.playout.settle(jb, hit, frames) {
            out.fill(0.0);
            return false;
        }
        for (x, w) in out.iter_mut().zip(words) {
            *x = f32::from_bits(w);
        }
        let rms = (out.iter().map(|x| x * x).sum::<f32>() / out.len() as f32).sqrt();
        self.playout.adjust(jb, rms < 0.003);
        true
    }
}

#[test]
fn silent_until_primed_then_plays() {
    let p = params();
    let mut jb = JitterBuffer::new();
    let mut sp = Stream::new(&p);
    let mut out = vec![0.0f32; p.frame_samples];

    assert!(!sp.tick(&mut jb, &mut out)); // nothing arrived yet

    jb.push(0, 0, &frame_bytes(0.25, p.frame_samples));
    assert!(!sp.tick(&mut jb, &mut out)); // depth 1 < target 2, still priming
    jb.push(1, 120, &frame_bytes(0.25, p.frame_samples));
    assert!(sp.tick(&mut jb, &mut out));
    assert!(out.iter().all(|&x| (x - 0.25).abs() < 1e-6));
}

#[test]
fn loss_is_concealed_and_stream_continues() {
    let p = params();
    let mut jb = JitterBuffer::new();
    let mut sp = Stream::new(&p);
    let mut out = vec![0.0f32; p.frame_samples];
    jb.push(0, 0, &frame_bytes(0.5, p.frame_samples));
    jb.push(1, 120, &frame_bytes(0.5, p.frame_samples));
    jb.push(3, 360, &frame_bytes(0.5, p.frame_samples)); // 2 lost
    assert!(sp.tick(&mut jb, &mut out)); // 0
    assert!(sp.tick(&mut jb, &mut out)); // 1
    sp.tick(&mut jb, &mut out); // 2 concealed (PCM PLC = silence)
    assert!(out.iter().all(|&x| x == 0.0));
    assert!(sp.tick(&mut jb, &mut out)); // 3 plays
    assert!(out.iter().all(|&x| (x - 0.5).abs() < 1e-6));
}

#[test]
fn prolonged_outage_resets_and_reprimes() {
    let p = params();
    let mut jb = JitterBuffer::new();
    let mut sp = Stream::new(&p);
    let mut out = vec![0.0f32; p.frame_samples];
    jb.push(0, 0, &frame_bytes(0.5, p.frame_samples));
    jb.push(1, 120, &frame_bytes(0.5, p.frame_samples));
    assert!(sp.tick(&mut jb, &mut out));
    // Feed nothing for > 0.5 s worth of frames: stream resets.
    let mut reset_seen = false;
    for _ in 0..400 {
        if !sp.tick(&mut jb, &mut out) && !jb.is_started() {
            reset_seen = true;
            break;
        }
    }
    assert!(reset_seen);
    // New stream far away in seq space is accepted after reset.
    jb.push(30_000, 0, &frame_bytes(0.7, p.frame_samples));
    jb.push(30_001, 120, &frame_bytes(0.7, p.frame_samples));
    assert!(sp.tick(&mut jb, &mut out));
    assert!(out.iter().all(|&x| (x - 0.7).abs() < 1e-6));
}

#[test]
fn deep_buffer_drops_a_frame_at_a_quiet_moment() {
    let mut jb = JitterBuffer::new();
    let mut sp = StreamPlayout::new(&params(), 800, 200);
    for s in 0..8u16 {
        jb.push(s, 0, &[s as u8]);
    }
    assert!(sp.ready(&jb));
    assert_eq!(sp.pull(&mut jb), Pulled::Frame { len: 1 });
    assert_eq!(sp.packet(1), &[0]);
    assert!(sp.settle(&mut jb, true, 0));
    assert_eq!(jb.depth(), 7);
    sp.adjust(&mut jb, false);
    assert_eq!(jb.depth(), 7);
    sp.adjust(&mut jb, true);
    assert_eq!(jb.depth(), 6);
    assert_eq!(sp.pull(&mut jb), Pulled::Frame { len: 1 });
    assert_eq!(sp.packet(1), &[2]);
}

#[test]
fn shallow_buffer_inserts_a_frame_at_a_quiet_moment() {
    let fixed = EngineParams {
        jitter_fixed: Some(4),
        ..params()
    };
    let mut jb = JitterBuffer::new();
    let mut sp = StreamPlayout::new(&fixed, 800, 200);
    assert_eq!(sp.target_depth(), 4);
    for s in 0..4u16 {
        jb.push(s, 0, &[s as u8]);
    }
    assert!(sp.ready(&jb));
    sp.pull(&mut jb);
    assert!(sp.settle(&mut jb, true, 0));
    sp.pull(&mut jb);
    assert!(sp.settle(&mut jb, true, 0));
    assert_eq!(jb.depth(), 2);
    sp.adjust(&mut jb, true);
    // The inserted frame is concealed and leaves the buffer as it is.
    assert_eq!(sp.pull(&mut jb), Pulled::Conceal);
    assert_eq!(jb.depth(), 2);
    assert_eq!(sp.pull(&mut jb), Pulled::Frame { len: 1 });
    assert_eq!(sp.packet(1), &[2]);
}

#[test]
fn drift_correction_widens_the_deadband() {
    let drift = EngineParams {
        drift_correction: true,
        ..params()
    };
    let mut jb = JitterBuffer::new();
    let mut sp = StreamPlayout::new(&drift, 800, 200);
    for s in 0..6u16 {
        jb.push(s, 0, &[s as u8]);
    }
    sp.ready(&jb);
    sp.pull(&mut jb);
    sp.settle(&mut jb, true, 0);
    sp.adjust(&mut jb, true);
    assert_eq!(jb.depth(), 5);
}

#[test]
fn reset_stream_primes_again() {
    let mut jb = JitterBuffer::new();
    let mut sp = StreamPlayout::new(&params(), 800, 200);
    jb.push(0, 0, &[1]);
    jb.push(1, 0, &[2]);
    assert!(sp.ready(&jb));
    sp.pull(&mut jb);
    assert!(sp.ready(&jb));
    sp.reset_stream();
    assert!(!sp.ready(&jb));
}
