use jam::engine::{fan_out, session_id_from, AudioConfig, EngineParams, MonitorMode};
use jam::packet::Codec;

#[test]
fn engine_defaults() {
    let p = EngineParams::default();
    assert_eq!(p.sample_rate, 48_000);
    assert_eq!(p.frame_samples, 120);
    assert_eq!(p.codec, Codec::Opus);
    assert_eq!(p.bitrate_bps, 96_000);
    assert_eq!(p.monitor, MonitorMode::Direct);
    assert_eq!(p.jitter_fixed, None);
    assert_eq!(p.simulate_loss, 0);
    assert!(!p.redundancy && p.drift_correction && !p.echo);
    let a = AudioConfig::default();
    assert!(a.input_name.is_none() && a.output_name.is_none());
}

#[test]
fn session_ids_are_never_zero() {
    for (nanos, pid) in [(123_456_789u32, 4242u32), (0, 0), (u32::MAX, 1), (77, 0x0001_8000)] {
        let mixed = (nanos ^ pid.rotate_left(16) ^ 0x5AA5) as u16;
        assert_eq!(session_id_from(nanos, pid), mixed.max(1));
    }
    assert_eq!(session_id_from(0x5AA5, 0), 1);
}

#[test]
fn mono_is_put_on_all_channels() {
    let mut data = [0; 8];
    fan_out(&[1, 2], 2, 1, &mut data);
    assert_eq!(data, [0, 0, 1, 1, 2, 2, 0, 0]);
    fan_out(&[9], 1, 7, &mut data);
    assert_eq!(data, [0, 0, 1, 1, 2, 2, 0, 9]);
    fan_out(&[5], 0, 3, &mut data);
    assert_eq!(data, [0, 0, 1, 1, 2, 2, 0, 9]);
}
