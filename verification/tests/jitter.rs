use jam::jitter::{
    Adjust, ArrivalJitter, JitterBuffer, JitterStats, PlayoutController, PopOutcome, PushOutcome,
    SLOTS,
};
use jam::MAX_FRAME_BYTES;

fn payload(tag: u8) -> Vec<u8> {
    vec![tag; 40]
}

fn controller(frame_samples: usize, sample_rate: u32) -> PlayoutController {
    let frame_us = frame_samples as f32 * 1e6 / sample_rate as f32;
    PlayoutController::new((2_000_000.0 / frame_us) as u32, (500_000.0 / frame_us) as u32)
}

/// Three times the jitter, in frames of 2.5 ms.
fn jitter_frames(jitter_us: f32) -> i32 {
    (3.0 * jitter_us / 2_500.0).ceil() as i32
}

#[test]
fn in_order_stream_plays_back() {
    let mut jb = JitterBuffer::new();
    let mut out = [0u8; MAX_FRAME_BYTES];
    for s in 0..10u16 {
        assert_eq!(
            jb.push(s, s as u32 * 120, &payload(s as u8)),
            PushOutcome::Stored
        );
    }
    assert_eq!(jb.depth(), 10);
    for s in 0..10u16 {
        match jb.pop_next(&mut out) {
            PopOutcome::Frame { len, timestamp } => {
                assert_eq!(len, 40);
                assert_eq!(timestamp, s as u32 * 120);
                assert!(out[..len].iter().all(|b| *b == s as u8));
            }
            PopOutcome::Missing => panic!("frame {s} missing"),
        }
    }
    assert_eq!(jb.depth(), 0);
}

#[test]
fn reordered_packets_play_in_order() {
    let mut jb = JitterBuffer::new();
    let mut out = [0u8; MAX_FRAME_BYTES];
    jb.push(0, 0, &payload(0));
    jb.push(2, 240, &payload(2));
    jb.push(1, 120, &payload(1)); // out of order
    for s in 0..3u16 {
        match jb.pop_next(&mut out) {
            PopOutcome::Frame { .. } => assert_eq!(out[0], s as u8),
            PopOutcome::Missing => panic!("frame {s} missing"),
        }
    }
}

#[test]
fn lost_packet_reports_missing_then_recovers() {
    let mut jb = JitterBuffer::new();
    let mut out = [0u8; MAX_FRAME_BYTES];
    jb.push(0, 0, &payload(0));
    jb.push(2, 240, &payload(2)); // 1 lost
    assert!(matches!(jb.pop_next(&mut out), PopOutcome::Frame { .. }));
    assert_eq!(jb.pop_next(&mut out), PopOutcome::Missing);
    assert!(matches!(jb.pop_next(&mut out), PopOutcome::Frame { .. }));
    assert_eq!(jb.stats.concealed, 1);
}

#[test]
fn late_packet_counted_and_rejected() {
    let mut jb = JitterBuffer::new();
    let mut out = [0u8; MAX_FRAME_BYTES];
    jb.push(0, 0, &payload(0));
    jb.push(1, 120, &payload(1));
    jb.pop_next(&mut out);
    jb.pop_next(&mut out);
    assert_eq!(jb.push(0, 0, &payload(0)), PushOutcome::Late);
    assert_eq!(jb.stats.late, 1);
}

#[test]
fn duplicate_detected() {
    let mut jb = JitterBuffer::new();
    jb.push(5, 600, &payload(5));
    assert_eq!(jb.push(5, 600, &payload(5)), PushOutcome::Duplicate);
}

#[test]
fn seq_wraparound_is_seamless() {
    let mut jb = JitterBuffer::new();
    let mut out = [0u8; MAX_FRAME_BYTES];
    let start = u16::MAX - 3;
    for i in 0..8u16 {
        jb.push(start.wrapping_add(i), i as u32 * 120, &payload(i as u8));
    }
    for i in 0..8u16 {
        match jb.pop_next(&mut out) {
            PopOutcome::Frame { .. } => assert_eq!(out[0], i as u8),
            PopOutcome::Missing => panic!("frame {i} missing across wrap"),
        }
    }
}

#[test]
fn skip_next_drops_stored_frame() {
    let mut jb = JitterBuffer::new();
    let mut out = [0u8; MAX_FRAME_BYTES];
    jb.push(0, 0, &payload(0));
    jb.push(1, 120, &payload(1));
    assert!(jb.skip_next());
    match jb.pop_next(&mut out) {
        PopOutcome::Frame { .. } => assert_eq!(out[0], 1),
        PopOutcome::Missing => panic!(),
    }
}

#[test]
fn reset_reprimes() {
    let mut jb = JitterBuffer::new();
    let mut out = [0u8; MAX_FRAME_BYTES];
    jb.push(100, 0, &payload(1));
    jb.pop_next(&mut out);
    jb.reset();
    assert!(!jb.is_started());
    // A new stream position far away is accepted cleanly.
    assert_eq!(jb.push(40_000, 0, &payload(9)), PushOutcome::Stored);
    assert!(matches!(jb.pop_next(&mut out), PopOutcome::Frame { .. }));
}

#[test]
fn controller_primes_at_target_depth() {
    let mut pc = controller(120, 48_000);
    assert!(!pc.pre_pop(0, false));
    assert!(!pc.pre_pop(1, true));
    assert!(pc.pre_pop(2, true)); // default target 2
    assert!(pc.is_primed());
}

#[test]
fn controller_requests_shrink_when_deep() {
    let mut pc = controller(120, 48_000);
    pc.pre_pop(2, true);
    pc.observe_depth(pc.target() + 2);
    assert_eq!(pc.take_adjustment(), Adjust::DropOne);
    assert_eq!(pc.take_adjustment(), Adjust::Keep);
}

#[test]
fn controller_requests_growth_when_shallow() {
    let mut pc = controller(120, 48_000);
    pc.pre_pop(2, true);
    // Push target up so a shallow depth triggers growth.
    for _ in 0..1000 {
        pc.post_pop(true, jitter_frames(20_000.0)); // 20 ms jitter -> large target
    }
    assert!(pc.target() > 3);
    pc.observe_depth(1);
    assert_eq!(pc.take_adjustment(), Adjust::InsertOne);
}

#[test]
fn controller_resets_after_prolonged_outage() {
    let mut pc = controller(120, 48_000);
    pc.pre_pop(2, true);
    let mut reset = false;
    for _ in 0..300 {
        if pc.post_pop(false, jitter_frames(0.0)) {
            reset = true;
            break;
        }
    }
    assert!(reset);
    assert!(!pc.is_primed());
}

#[test]
fn controller_target_tracks_jitter() {
    let mut pc = controller(120, 48_000);
    pc.pre_pop(2, true);
    for _ in 0..1000 {
        pc.post_pop(true, jitter_frames(0.0));
    }
    assert_eq!(pc.target(), 2);
    for _ in 0..1000 {
        pc.post_pop(true, jitter_frames(5_000.0)); // 5 ms jitter
    }
    // 3 * 5ms / 2.5ms = 6 frames above min.
    assert_eq!(pc.target(), 8);
}

/// The RFC 3550 filter over the deviations.
struct Filter {
    arrivals: ArrivalJitter,
    j_us: f32,
}

impl Filter {
    fn on_arrival(&mut self, arrival_us: u64, media_us: u64) {
        if let Some(d) = self.arrivals.on_arrival(arrival_us, media_us) {
            self.j_us += (d as f32 - self.j_us) / 16.0;
        }
    }
}

#[test]
fn arrival_jitter_converges() {
    let mut aj = Filter {
        arrivals: ArrivalJitter::default(),
        j_us: 0.0,
    };
    // Perfectly paced arrivals -> zero jitter.
    for i in 0..100u64 {
        aj.on_arrival(i * 2_500, i * 2_500);
    }
    assert!(aj.j_us < 1.0);
    // Alternating +1 ms/on-time arrivals -> |d| is 1 ms every step, so
    // the EWMA approaches 1 ms from below.
    for i in 100..300u64 {
        let wobble = if i % 2 == 0 { 1_000 } else { 0 };
        aj.on_arrival(i * 2_500 + wobble, i * 2_500);
    }
    assert!(aj.j_us > 900.0 && aj.j_us <= 1_000.0);
}

#[test]
fn arrival_deviation_is_the_change_in_transit() {
    let mut aj = ArrivalJitter::default();
    assert_eq!(aj.on_arrival(10_000, 2_500), None);
    assert_eq!(aj.on_arrival(12_700, 5_000), Some(200));
    assert_eq!(aj.on_arrival(14_000, 7_500), Some(1_200));
    assert_eq!(aj.on_arrival(16_500, 10_000), Some(0));
}

#[test]
fn too_big_frames_change_nothing() {
    let mut jb = JitterBuffer::new();
    assert_eq!(
        jb.push(0, 0, &vec![0u8; MAX_FRAME_BYTES + 1]),
        PushOutcome::TooBig
    );
    assert!(!jb.is_started());
    assert_eq!(jb.depth(), 0);
    assert_eq!(
        jb.push(0, 0, &vec![0u8; MAX_FRAME_BYTES]),
        PushOutcome::Stored
    );
    assert_eq!(jb.stats.received, 1);
}

#[test]
fn aliased_frame_replaces_the_older_one() {
    let mut jb = JitterBuffer::new();
    let mut out = [0u8; MAX_FRAME_BYTES];
    jb.push(0, 0, &payload(1));
    assert_eq!(jb.push(SLOTS as u16, 7, &payload(2)), PushOutcome::Stored);
    // The slot now holds a frame that is a whole ring ahead.
    assert_eq!(jb.pop_next(&mut out), PopOutcome::Missing);
    for _ in 1..SLOTS {
        assert_eq!(jb.pop_next(&mut out), PopOutcome::Missing);
    }
    assert_eq!(
        jb.pop_next(&mut out),
        PopOutcome::Frame {
            len: 40,
            timestamp: 7
        }
    );
    assert_eq!(out[0], 2);
}

#[test]
fn nothing_is_popped_before_the_first_frame() {
    let mut jb = JitterBuffer::default();
    let mut out = [9u8; MAX_FRAME_BYTES];
    assert_eq!(jb.pop_next(&mut out), PopOutcome::Missing);
    assert!(!jb.skip_next());
    assert_eq!(jb.stats, JitterStats::default());
    assert_eq!(out, [9u8; MAX_FRAME_BYTES]);
}

#[test]
fn only_the_frame_is_overwritten() {
    let mut jb = JitterBuffer::new();
    let mut out = [9u8; MAX_FRAME_BYTES];
    jb.push(3, 1, &[1, 2]);
    jb.pop_next(&mut out);
    assert_eq!(&out[..4], &[1, 2, 9, 9]);
    assert_eq!(jb.stats.played, 1);
}

#[test]
fn depth_goes_negative_after_a_gap() {
    let mut jb = JitterBuffer::new();
    let mut out = [0u8; MAX_FRAME_BYTES];
    jb.push(10, 0, &payload(0));
    jb.pop_next(&mut out);
    jb.pop_next(&mut out);
    jb.pop_next(&mut out);
    assert_eq!(jb.depth(), -2);
    jb.publish_jitter_us(1.5f32.to_bits());
    assert_eq!(f32::from_bits(jb.stats.jitter_us_bits), 1.5);
}

#[test]
fn fixed_depth_and_deadband() {
    let mut pc = controller(120, 48_000);
    pc.set_fixed(5);
    pc.set_deadband(3);
    assert!(!pc.pre_pop(4, true));
    assert!(pc.pre_pop(5, true));
    for _ in 0..1000 {
        pc.post_pop(true, 100);
    }
    assert_eq!(pc.target(), 5);
    pc.observe_depth(8);
    assert_eq!(pc.take_adjustment(), Adjust::Keep);
    pc.observe_depth(9);
    assert_eq!(pc.take_adjustment(), Adjust::DropOne);
    pc.observe_depth(1);
    pc.reset();
    assert_eq!(pc.take_adjustment(), Adjust::Keep);
    assert!(!pc.is_primed());
}

#[test]
fn outage_comes_at_the_limit_and_not_before() {
    let mut pc = PlayoutController::new(800, 3);
    pc.pre_pop(2, true);
    assert!(!pc.post_pop(false, 0));
    assert!(!pc.post_pop(false, 0));
    assert!(!pc.post_pop(true, 0));
    assert!(!pc.post_pop(false, 0));
    assert!(!pc.post_pop(false, 0));
    assert!(pc.post_pop(false, 0));
}

#[test]
fn a_run_in_any_order_plays_in_order() {
    for start in [0u16, 1000, 65_500] {
        let mut jb = JitterBuffer::new();
        let mut out = [0u8; MAX_FRAME_BYTES];
        let arrives = |j: u16| j == 0 || j % 5 != 3;
        jb.push(start, 0, &[0]);
        // Every step of 37 places visits each of the 64 once.
        for i in 1..64u16 {
            let j = i.wrapping_mul(37) % 64;
            if arrives(j) {
                assert_eq!(
                    jb.push(start.wrapping_add(j), 120 * j as u32, &[j as u8, 7]),
                    PushOutcome::Stored
                );
            }
        }
        let mut hits = 0;
        for j in 0..64u16 {
            let got = jb.pop_next(&mut out);
            if arrives(j) {
                let len = if j == 0 { 1 } else { 2 };
                assert_eq!(
                    got,
                    PopOutcome::Frame {
                        len,
                        timestamp: 120 * j as u32
                    }
                );
                assert_eq!(out[0], j as u8);
                hits += 1;
            } else {
                assert_eq!(got, PopOutcome::Missing);
            }
            let stats = jb.stats();
            assert_eq!(stats, jb.stats);
            assert_eq!((stats.played, stats.concealed), (hits, j as u64 + 1 - hits));
        }
    }
}

#[test]
fn depths_are_not_compared_while_priming() {
    // A target at the edge of its range is no matter before it is reached.
    let mut c = PlayoutController::new(800, 200);
    c.set_fixed(i32::MAX);
    c.observe_depth(5);
    assert_eq!(c.take_adjustment(), Adjust::Keep);
}
