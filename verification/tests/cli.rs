use jam::cli::{
    generate_code, parse_code, room_code, seed_from, with_default_port, AudioArgs, CliError,
    ALPHABET,
};
use jam::engine::MonitorMode;
use jam::packet::Codec;

fn args() -> AudioArgs {
    AudioArgs {
        input: None,
        output: None,
        buffer: 128,
        frame: "2.5".to_string(),
        bitrate: 96,
        redundancy: false,
        monitor: "direct".to_string(),
        jitter: None,
        no_drift: false,
        pcm: false,
        simulate_loss: 0,
    }
}

#[test]
fn default_options_make_the_default_engine() {
    let p = args().params(false).unwrap();
    assert_eq!(p, jam::engine::EngineParams::default());
    assert_eq!(p.bitrate_bps, 96_000);
    assert_eq!(p.frame_samples, 120);
    assert_eq!(p.codec, Codec::Opus);
}

#[test]
fn options_are_taken_over() {
    let p = AudioArgs {
        frame: "5".to_string(),
        monitor: "mix".to_string(),
        bitrate: 64,
        redundancy: true,
        jitter: Some(3),
        no_drift: true,
        pcm: true,
        simulate_loss: 7,
        ..args()
    }
    .params(true)
    .unwrap();
    assert_eq!(p.frame_samples, 240);
    assert_eq!(p.monitor, MonitorMode::ThroughMix);
    assert_eq!(p.bitrate_bps, 64_000);
    assert!(p.redundancy && p.echo && !p.drift_correction);
    assert_eq!(p.jitter_fixed, Some(3));
    assert_eq!(p.codec, Codec::PcmF32);
    assert_eq!(p.simulate_loss, 7);
    let off = AudioArgs {
        monitor: "off".to_string(),
        ..args()
    };
    assert_eq!(off.params(false).unwrap().monitor, MonitorMode::Off);
}

#[test]
fn wrong_options_are_refused_in_order() {
    let mut a = args();
    a.buffer = 100;
    assert_eq!(a.params(false), Err(CliError::BadBuffer));
    a.monitor = "loud".to_string();
    assert_eq!(a.params(false), Err(CliError::BadMonitor));
    a.frame = "10".to_string();
    assert_eq!(a.params(false), Err(CliError::BadFrame));
    // A bitrate beyond all bounds does not hide what is wrong before it.
    a.bitrate = u32::MAX;
    assert_eq!(a.params(false), Err(CliError::BadFrame));
    for buffer in [32, 64, 128, 256, 512] {
        assert!(AudioArgs { buffer, ..args() }.params(false).is_ok());
    }
}

#[test]
fn room_codes_are_uppercased() {
    assert_eq!(room_code(Some("band42"), 0), Ok(*b"BAND42"));
    assert_eq!(room_code(Some("ABCDEF"), 0), Ok(*b"ABCDEF"));
    assert_eq!(room_code(Some("abcde"), 0), Err(CliError::BadRoomCode));
    assert_eq!(room_code(Some("abcdefg"), 0), Err(CliError::BadRoomCode));
    assert_eq!(room_code(Some("ab-def"), 0), Err(CliError::BadRoomCode));
    assert_eq!(room_code(Some("äbcde"), 0), Err(CliError::BadRoomCode));
    assert_eq!(room_code(Some("blues1"), 0), Ok(*b"BLUES1"));
    // Five characters, though the uppercase form of the sharp s is two letters.
    assert_eq!(room_code(Some("straß"), 0), Err(CliError::BadRoomCode));
    // Six characters, but no ASCII letters.
    assert_eq!(room_code(Some("ſſſſſſ"), 0), Err(CliError::BadRoomCode));
    assert_eq!(room_code(Some(""), 0), Err(CliError::BadRoomCode));
    assert_eq!(parse_code("BAND42"), Ok(*b"BAND42"));
    assert_eq!(parse_code("band42"), Ok(*b"band42"));
    assert_eq!(parse_code("BAND 2"), Err(CliError::BadRoomCode));
}

#[test]
fn generated_codes_can_be_typed_in() {
    for seed in [0, 1, 12345, u64::MAX] {
        let code = generate_code(seed);
        assert_eq!(room_code(None, seed), Ok(code));
        assert!(code.iter().all(|c| ALPHABET.contains(c)));
        let text = String::from_utf8(code.to_vec()).unwrap();
        assert_eq!(room_code(Some(&text), 0), Ok(code));
        let mut state = seed;
        let expected: Vec<u8> = (0..6)
            .map(|_| {
                state = state
                    .wrapping_mul(6364136223846793005)
                    .wrapping_add(1442695040888963407);
                b"ABCDEFGHJKLMNPQRSTUVWXYZ23456789"[(state >> 56) as usize % 32]
            })
            .collect();
        assert_eq!(code.to_vec(), expected);
    }
    assert_ne!(generate_code(1), generate_code(2));
    assert_eq!(seed_from(5, 3), 5 ^ (3 << 32));
}

#[test]
fn hosts_get_the_default_port() {
    assert_eq!(with_default_port("example.org"), "example.org:47820");
    assert_eq!(with_default_port("example.org:5"), "example.org:5");
    assert_eq!(with_default_port("::1"), "::1");
    assert_eq!(with_default_port(""), ":47820");
}
