use jam::packet::{
    parse_datagram, AudioPacket, Codec, Control, Header, PacketType, ParseError, PlayerInfo,
};
use jam::MAX_DATAGRAM;

fn header(ptype: PacketType) -> Header {
    Header {
        ptype,
        session_id: 3,
        sender_id: 4,
        seq: 5,
    }
}

fn datagrams() -> Vec<Vec<u8>> {
    let player = PlayerInfo {
        id: 1,
        name: "né".to_string(),
    };
    let mut all = vec![];
    for control in [
        Control::Hello {
            proto_version: 1,
            room_code: *b"BAND42",
            name: "alice".to_string(),
            codec_mask: 7,
            frame_mask: 3,
        },
        Control::Roster {
            players: vec![player],
        },
        Control::Ping { t1_us: 1 },
        Control::Pong {
            t1_us: 1,
            t2_us: 2,
            t3_us: 3,
        },
        Control::Keepalive,
        Control::Bye,
        Control::Ack {
            acked_seq: 1,
            acked_type: 2,
        },
    ] {
        let mut buf = [0u8; MAX_DATAGRAM];
        let n = control.write(&header(control.packet_type()), &mut buf);
        all.push(buf[..n].to_vec());
    }
    for redundant in [None, Some(&[7u8, 8][..])] {
        let audio = AudioPacket {
            timestamp: 9,
            codec: Codec::Opus,
            payload: &[1, 2, 3],
            redundant,
        };
        let mut buf = [0u8; MAX_DATAGRAM];
        let n = audio.write(&header(PacketType::Audio), &mut buf);
        all.push(buf[..n].to_vec());
    }
    all
}

#[test]
fn no_start_of_a_datagram_is_accepted() {
    for d in datagrams() {
        assert!(parse_datagram(&d).is_ok());
        for k in 0..d.len() {
            assert!(parse_datagram(&d[..k]).is_err());
        }
    }
}

#[test]
fn nothing_is_accepted_behind_a_datagram() {
    for d in datagrams() {
        for extra in [&[0u8][..], &[0xA5, 1, 2]] {
            let mut longer = d.clone();
            longer.extend_from_slice(extra);
            assert_eq!(parse_datagram(&longer), Err(ParseError::TrailingBytes));
        }
    }
}
