use jam::packet::{parse_datagram, Codec, Control, Header, Payload, PlayerInfo};
use jam::MAX_DATAGRAM;

fn write(control: &Control) -> Vec<u8> {
    let header = Header {
        ptype: control.packet_type(),
        session_id: 3,
        sender_id: 4,
        seq: 5,
    };
    let mut buf = [0u8; MAX_DATAGRAM];
    let n = control.write(&header, &mut buf);
    buf[..n].to_vec()
}

fn read(datagram: &[u8]) -> Control {
    match parse_datagram(datagram).unwrap().1 {
        Payload::Control(c) => c,
        Payload::Audio(_) => panic!("not a control packet"),
    }
}

fn full_roster(name: &str) -> Vec<PlayerInfo> {
    (0..5)
        .map(|id| PlayerInfo {
            id,
            name: name.to_string(),
        })
        .collect()
}

#[test]
fn a_full_roster_fits() {
    let long = "n".repeat(200);
    for control in [
        Control::Roster {
            players: full_roster(&long),
        },
        Control::Welcome {
            assigned_id: 1,
            session_id: 3,
            sample_rate: 48_000,
            frame_samples: 120,
            codec: Codec::Opus,
            roster: full_roster(&long),
        },
    ] {
        let d = write(&control);
        assert!(d.len() <= MAX_DATAGRAM);
        assert_eq!(write(&read(&d)), d);
    }
}

#[test]
fn what_is_read_writes_the_same_bytes() {
    for control in [
        Control::Bye,
        Control::Keepalive,
        Control::Ack {
            acked_seq: 9,
            acked_type: 2,
        },
        Control::Roster {
            players: full_roster("né"),
        },
    ] {
        let d = write(&control);
        assert_eq!(read(&d), control);
        assert_eq!(write(&read(&d)), d);
    }
}

#[test]
fn cut_names_are_cut_once() {
    let hello = Control::Hello {
        proto_version: 1,
        room_code: *b"BAND42",
        name: "é".repeat(40),
        codec_mask: 7,
        frame_mask: 3,
    };
    let first = read(&write(&hello));
    let Control::Hello { name, .. } = &first else {
        panic!("not a hello")
    };
    assert_eq!(name, &"é".repeat(16));
    assert_eq!(read(&write(&first)), first);
}
