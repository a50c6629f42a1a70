use jam::device::{
    best_config, buffer_size, contains_text, format_rank, mark, name_matches, negotiate,
    offered_formats, BufferChoice, BufferRange, Choice, DeviceInfo, SampleFormat, SupportedConfig,
};

fn config(channels: u16, format: SampleFormat) -> SupportedConfig {
    SupportedConfig {
        min_sample_rate: 44_100,
        max_sample_rate: 96_000,
        channels,
        format,
        buffer: BufferRange::Range { min: 16, max: 4096 },
    }
}

#[test]
fn devices_are_marked_as_default() {
    let d = DeviceInfo::new(
        "Mic".to_string(),
        true,
        false,
        &Some("Mic".to_string()),
        &None,
    );
    assert_eq!(d.name, "Mic");
    assert!(d.is_input && !d.is_output);
    assert!(d.default_input && !d.default_output);
    let d = DeviceInfo::new(
        "Out".to_string(),
        false,
        true,
        &Some("Mic".to_string()),
        &Some("Out".to_string()),
    );
    assert!(!d.default_input && d.default_output);
    assert_eq!(mark(true, true), "yes*");
    assert_eq!(mark(true, false), "yes");
    assert_eq!(mark(false, true), "-");
    assert_eq!(mark(false, false), "-");
}

#[test]
fn names_match_in_any_case() {
    assert!(name_matches("Focusrite Scarlett 2i2", "SCARLETT"));
    assert!(name_matches("focusrite", ""));
    assert!(!name_matches("Focusrite", "Behringer"));
    assert!(!name_matches("Fo", "Focus"));
    assert!(name_matches("ÜBERMIX Pro", "übermix"));
    assert!(name_matches("MICRO", "cro"));
}

#[test]
fn text_is_found_anywhere() {
    for (hay, needle) in [
        ("abc", "abc"),
        ("abc", "c"),
        ("aab", "ab"),
        ("", ""),
        ("ab", "abc"),
        ("abc", "ac"),
        ("naïve", "ï"),
    ] {
        assert_eq!(contains_text(hay, needle), hay.contains(needle));
    }
}

#[test]
fn friendliest_format_wins() {
    let configs = vec![
        config(2, SampleFormat::I16),
        config(2, SampleFormat::F32),
        config(1, SampleFormat::F32),
        config(1, SampleFormat::F32),
        config(1, SampleFormat::Other),
    ];
    assert_eq!(best_config(&configs), Some(2));
    assert_eq!(
        negotiate(&configs),
        Ok(Choice {
            channels: 1,
            format: SampleFormat::F32,
            buffer: BufferRange::Range { min: 16, max: 4096 },
        })
    );
}

#[test]
fn rates_must_cover_the_session() {
    let low = SupportedConfig {
        max_sample_rate: 47_999,
        ..config(1, SampleFormat::F32)
    };
    let high = SupportedConfig {
        min_sample_rate: 48_001,
        ..config(1, SampleFormat::F32)
    };
    let exact = SupportedConfig {
        min_sample_rate: 48_000,
        max_sample_rate: 48_000,
        ..config(8, SampleFormat::U64)
    };
    assert_eq!(best_config(&vec![low, high, exact]), Some(2));
    assert_eq!(negotiate(&vec![low, high]), Err(vec![]));
}

#[test]
fn refusal_lists_what_is_offered() {
    let odd = config(1, SampleFormat::Other);
    let slow = SupportedConfig {
        max_sample_rate: 44_100,
        ..config(1, SampleFormat::F32)
    };
    assert_eq!(
        negotiate(&vec![odd, slow, odd]),
        Err(vec![SampleFormat::Other])
    );
    assert_eq!(
        offered_formats(&vec![
            config(1, SampleFormat::I32),
            slow,
            odd,
            config(2, SampleFormat::I32)
        ]),
        vec![SampleFormat::I32, SampleFormat::Other]
    );
}

#[test]
fn formats_are_ranked() {
    let order = [
        SampleFormat::F32,
        SampleFormat::I32,
        SampleFormat::I16,
        SampleFormat::U16,
        SampleFormat::F64,
        SampleFormat::U32,
        SampleFormat::I8,
        SampleFormat::U8,
        SampleFormat::I64,
        SampleFormat::U64,
    ];
    for (i, f) in order.into_iter().enumerate() {
        assert_eq!(format_rank(f), Some(i as u8));
    }
    assert_eq!(format_rank(SampleFormat::Other), None);
}

#[test]
fn buffer_requests_are_clamped() {
    let range = BufferRange::Range { min: 64, max: 256 };
    assert_eq!(buffer_size(range, 128), BufferChoice::Fixed(128));
    assert_eq!(buffer_size(range, 32), BufferChoice::Fixed(64));
    assert_eq!(buffer_size(range, 512), BufferChoice::Fixed(256));
    assert_eq!(
        buffer_size(BufferRange::Unknown, 128),
        BufferChoice::DeviceDefault
    );
}
