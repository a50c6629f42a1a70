use jam::packet::{
    accept_control_seq, is_reliable, parse_datagram, AckKey, AudioPacket, Codec, Control,
    DenyReason, Header, PacketType, ParseError, Payload, PlayerInfo,
};
use jam::{MAX_DATAGRAM, MAX_NAME_LEN, PROTOCOL_VERSION};

fn player(id: u16, name: &str) -> PlayerInfo {
    PlayerInfo {
        id,
        name: name.to_string(),
    }
}

fn hello(name: &str) -> Control {
    Control::Hello {
        proto_version: 7,
        room_code: *b"QX3JD7",
        name: name.to_string(),
        codec_mask: 5,
        frame_mask: 3,
    }
}

fn samples() -> Vec<Control> {
    vec![
        hello("maria"),
        hello(""),
        hello("é✓ é✓"),
        hello("é✓é✓é✓é✓é✓é✓é✓é✓"),
        Control::Welcome {
            assigned_id: 3,
            session_id: 0xBEEF,
            sample_rate: 48_000,
            frame_samples: 120,
            codec: Codec::PcmS16,
            roster: vec![player(0, "host"), player(3, "bo"), player(65535, "é✓")],
        },
        Control::Welcome {
            assigned_id: 65535,
            session_id: 0,
            sample_rate: u32::MAX,
            frame_samples: 65535,
            codec: Codec::Opus,
            roster: vec![],
        },
        Control::Deny {
            reason: DenyReason::BadRoomCode,
        },
        Control::Deny {
            reason: DenyReason::RoomFull,
        },
        Control::Deny {
            reason: DenyReason::VersionMismatch,
        },
        Control::Ping { t1_us: u64::MAX },
        Control::Pong {
            t1_us: 1,
            t2_us: 0x0102_0304_0506_0708,
            t3_us: u64::MAX,
        },
        Control::Keepalive,
        Control::Roster { players: vec![] },
        Control::Roster {
            players: vec![
                player(0, "a"),
                player(1, "bb"),
                player(2, "ccc"),
                player(3, "dddd"),
                player(4, "eeeee"),
            ],
        },
        Control::Bye,
        Control::Ack {
            acked_seq: 0x1234,
            acked_type: 2,
        },
    ]
}

fn names_within_limit(c: &Control) -> bool {
    match c {
        Control::Hello { name, .. } => name.len() <= MAX_NAME_LEN,
        Control::Welcome { roster, .. } => roster.iter().all(|p| p.name.len() <= MAX_NAME_LEN),
        Control::Roster { players } => players.iter().all(|p| p.name.len() <= MAX_NAME_LEN),
        _ => true,
    }
}

#[test]
fn control_roundtrip() {
    for (i, control) in samples().into_iter().enumerate() {
        let header = Header {
            ptype: control.packet_type(),
            session_id: 0x1200 + i as u16,
            sender_id: 0xFFFF,
            seq: 0xFF00 + i as u16,
        };
        let mut buf = [0u8; MAX_DATAGRAM];
        let n = control.write(&header, &mut buf);
        let (parsed_header, payload) = parse_datagram(&buf[..n]).expect("roundtrip parse");
        assert_eq!(parsed_header, header);
        match payload {
            Payload::Control(parsed) => {
                let mut buf2 = [0u8; MAX_DATAGRAM];
                let n2 = parsed.write(&header, &mut buf2);
                assert_eq!(&buf[..n], &buf2[..n2]);
                if names_within_limit(&control) {
                    assert_eq!(parsed, control);
                }
            }
            Payload::Audio(_) => panic!("control parsed as audio"),
        }
    }
}

#[test]
fn audio_roundtrip() {
    let long = vec![0xABu8; 600];
    for codec in [Codec::Opus, Codec::PcmS16, Codec::PcmF32] {
        for (payload, redundant) in [
            (&long[..], None),
            (&long[..0], None),
            (&long[..37], Some(&long[..500])),
            (&long[..1], Some(&long[..0])),
        ] {
            let header = Header {
                ptype: PacketType::Audio,
                session_id: 9,
                sender_id: 4,
                seq: 65535,
            };
            let pkt = AudioPacket {
                timestamp: 0xDEAD_BEEF,
                codec,
                payload,
                redundant,
            };
            let mut buf = [0u8; MAX_DATAGRAM * 2];
            let n = pkt.write(&header, &mut buf);
            let (parsed_header, parsed) = parse_datagram(&buf[..n]).expect("roundtrip parse");
            assert_eq!(parsed_header, header);
            match parsed {
                Payload::Audio(a) => {
                    assert_eq!(a.timestamp, 0xDEAD_BEEF);
                    assert_eq!(a.codec, codec);
                    assert_eq!(a.payload, payload);
                    assert_eq!(a.redundant, redundant);
                }
                Payload::Control(_) => panic!("audio parsed as control"),
            }
        }
    }
}

/// The parser must reject or accept, never panic, on arbitrary bytes.
#[test]
fn parser_never_panics() {
    let mut state: u64 = 0x9E37_79B9_7F4A_7C15;
    let mut accepted = 0;
    for round in 0..4000usize {
        let len = round % 90;
        let mut data = vec![0u8; len];
        for b in data.iter_mut() {
            state = state.wrapping_mul(6364136223846793005).wrapping_add(1);
            *b = (state >> 56) as u8;
        }
        if len >= 2 {
            data[0] = 0xA5;
            data[1] = 0x10 | (data[1] & 0x0F);
        }
        if parse_datagram(&data).is_ok() {
            accepted += 1;
        }
    }
    assert!(accepted > 0);
}

/// Any truncation of a valid packet must not panic either, and is refused.
#[test]
fn truncated_packets_never_panic() {
    for control in samples() {
        let header = Header {
            ptype: control.packet_type(),
            session_id: 1,
            sender_id: 2,
            seq: 3,
        };
        let mut buf = [0u8; MAX_DATAGRAM];
        let n = control.write(&header, &mut buf);
        for cut in 1..=n {
            assert!(parse_datagram(&buf[..n - cut]).is_err());
        }
    }
}

#[test]
fn header_layout() {
    let header = Header {
        ptype: PacketType::Ack,
        session_id: 0x0102,
        sender_id: 0x0304,
        seq: 0x0506,
    };
    let mut buf = [0xEEu8; 10];
    assert_eq!(header.write(&mut buf), 8);
    assert_eq!(buf, [0xA5, 0x19, 1, 2, 3, 4, 5, 6, 0xEE, 0xEE]);
    let (parsed, body) = Header::parse(&buf).unwrap();
    assert_eq!(parsed, header);
    assert_eq!(body, &[0xEE, 0xEE]);
}

#[test]
fn control_layout() {
    let header = Header {
        ptype: PacketType::Hello,
        session_id: 0,
        sender_id: 0xFFFF,
        seq: 1,
    };
    let mut buf = [0u8; 64];
    let n = hello("al").write(&header, &mut buf);
    assert_eq!(&buf[8..n], b"\x07QX3JD7\x02al\x05\x03");
}

#[test]
fn names_are_cut_at_a_char_boundary() {
    // 31 bytes of ASCII, then a two-byte character that does not fit whole.
    let name = format!("{}é", "x".repeat(31));
    let control = Control::Roster {
        players: vec![player(1, &name)],
    };
    let header = Header {
        ptype: PacketType::Roster,
        session_id: 0,
        sender_id: 0,
        seq: 0,
    };
    let mut buf = [0u8; MAX_DATAGRAM];
    let n = control.write(&header, &mut buf);
    let (_, payload) = parse_datagram(&buf[..n]).unwrap();
    assert_eq!(
        payload,
        Payload::Control(Control::Roster {
            players: vec![player(1, &"x".repeat(31))],
        })
    );
}

#[test]
fn every_parse_error() {
    let parse = |bytes: &[u8]| parse_datagram(bytes).map(|_| ()).unwrap_err();
    let head = |ptype: u8| vec![0xA5, 0x10 | ptype, 0, 0, 0, 0, 0, 0];
    let with = |ptype: u8, body: &[u8]| {
        let mut d = head(ptype);
        d.extend_from_slice(body);
        d
    };
    assert_eq!(parse(&[]), ParseError::Truncated);
    assert_eq!(parse(&[0xA5; 7]), ParseError::Truncated);
    assert_eq!(parse(&[0xA4, 0x16, 0, 0, 0, 0, 0, 0]), ParseError::BadMagic);
    assert_eq!(
        parse(&[0xA5, 0x26, 0, 0, 0, 0, 0, 0]),
        ParseError::BadVersion(2)
    );
    assert_eq!(parse(&head(10)), ParseError::BadType(10));
    // Audio.
    assert_eq!(parse(&with(0, &[0; 7])), ParseError::Truncated);
    assert_eq!(
        parse(&with(0, &[0, 0, 0, 0, 3, 0, 0, 0])),
        ParseError::BadCodec(3)
    );
    assert_eq!(
        parse(&with(0, &[0, 0, 0, 0, 0, 0, 0, 2, 9])),
        ParseError::BadLength
    );
    assert_eq!(
        parse(&with(0, &[0, 0, 0, 0, 0, 1, 0, 0, 0])),
        ParseError::Truncated
    );
    assert_eq!(
        parse(&with(0, &[0, 0, 0, 0, 0, 1, 0, 0, 0, 2, 7])),
        ParseError::BadLength
    );
    assert_eq!(
        parse(&with(0, &[0, 0, 0, 0, 0, 0, 0, 1, 9, 9])),
        ParseError::TrailingBytes
    );
    assert_eq!(
        parse(&with(0, &[0, 0, 0, 0, 0, 1, 0, 0, 0, 1, 7, 8])),
        ParseError::TrailingBytes
    );
    // Control.
    assert_eq!(parse(&with(3, &[9])), ParseError::BadDenyReason(9));
    assert_eq!(parse(&with(4, &[0; 7])), ParseError::Truncated);
    assert_eq!(parse(&with(6, &[0])), ParseError::TrailingBytes);
    assert_eq!(parse(&with(7, &[6])), ParseError::OutOfRange);
    assert_eq!(parse(&with(7, &[1, 0, 1, 33])), ParseError::OutOfRange);
    assert_eq!(parse(&with(7, &[1, 0, 1, 1, 0xFF])), ParseError::BadString);
    assert_eq!(
        Control::parse(PacketType::Audio, &[]).unwrap_err(),
        ParseError::BadType(0)
    );
}

#[test]
fn codes_of_types_codecs_and_reasons() {
    for code in 0..=9u8 {
        assert_eq!(PacketType::try_from(code).unwrap().code(), code);
    }
    for code in 0..=2u8 {
        assert_eq!(Codec::try_from(code).unwrap().code(), code);
        assert_eq!(DenyReason::try_from(code).unwrap().code(), code);
    }
    assert_eq!(PacketType::try_from(200), Err(ParseError::BadType(200)));
    assert_eq!(Codec::default(), Codec::Opus);
}

#[test]
fn other_audio_flags_are_ignored() {
    let d = [0xA5, 0x10, 0, 0, 0, 0, 0, 0, 0, 0, 0, 1, 2, 0xFE, 0, 1, 77];
    let (_, payload) = parse_datagram(&d).unwrap();
    assert_eq!(
        payload,
        Payload::Audio(AudioPacket {
            timestamp: 1,
            codec: Codec::PcmF32,
            payload: &[77],
            redundant: None,
        })
    );
}

#[test]
fn hello_and_welcome_are_reliable() {
    for code in 0..=9u8 {
        let t = PacketType::try_from(code).unwrap();
        assert_eq!(is_reliable(t), code == 1 || code == 2);
    }
    assert_eq!(AckKey { seq: 1, ptype: 2 }, AckKey { seq: 1, ptype: 2 });
    assert_eq!(PROTOCOL_VERSION, 1);
}

#[test]
fn stale_control_packets_are_filtered() {
    let mut last = None;
    assert!(accept_control_seq(&mut last, 65535));
    assert!(!accept_control_seq(&mut last, 65535));
    assert!(!accept_control_seq(&mut last, 65530));
    assert_eq!(last, Some(65535));
    assert!(accept_control_seq(&mut last, 2));
    assert_eq!(last, Some(2));
}
