use jam::addr::SocketAddr;
use jam::control::{
    rtt_from_pong, ClientControl, ClientEffect, ClientStatus, HostControl, HostEffect,
};
use jam::handshake::SessionParams;
use jam::net::CtrlEvent;
use jam::packet::{parse_datagram, Codec, Control, DenyReason, Header, PacketType, Payload};
use jam::{MAX_DATAGRAM, UNJOINED_SENDER_ID};

const CODE: [u8; 6] = *b"BAND42";
const HOST: SocketAddr = SocketAddr::V4 { ip: 1, port: 47820 };

fn addr(n: u32) -> SocketAddr {
    SocketAddr::V4 { ip: n, port: 5000 }
}

fn host() -> HostControl {
    HostControl::new(CODE, 77, SessionParams::default(), "hostess".to_string())
}

fn client(name: &str, code: [u8; 6], now_ms: u64) -> ClientControl {
    ClientControl::new(code, name.to_string(), 120, Codec::Opus, now_ms)
}

fn event(from: SocketAddr, datagram: &[u8], rx_us: u64) -> CtrlEvent {
    let (header, payload) = parse_datagram(datagram).unwrap();
    let Payload::Control(control) = payload else {
        panic!("not a control packet")
    };
    CtrlEvent {
        from,
        header,
        control,
        rx_us,
    }
}

fn packet(from: SocketAddr, control: Control, session_id: u16, sender_id: u16, seq: u16) -> CtrlEvent {
    CtrlEvent {
        from,
        header: Header {
            ptype: control.packet_type(),
            session_id,
            sender_id,
            seq,
        },
        control,
        rx_us: 0,
    }
}

/// The datagrams that a client's effects send.
fn client_sends(c: &mut ClientControl, effects: &[ClientEffect]) -> Vec<Vec<u8>> {
    let mut sent = vec![];
    for e in effects {
        if let ClientEffect::Send {
            control,
            session_id,
            sender_id,
        } = e
        {
            let mut buf = [0u8; MAX_DATAGRAM];
            let n = c.transmit(control, *session_id, *sender_id, &mut buf);
            sent.push(buf[..n].to_vec());
        }
    }
    sent
}

fn host_sends(h: &mut HostControl, effects: &[HostEffect]) -> Vec<(SocketAddr, Vec<u8>)> {
    let mut sent = vec![];
    for e in effects {
        if let HostEffect::Send { to, control } = e {
            let mut buf = [0u8; MAX_DATAGRAM];
            let n = h.transmit(control, *to, &mut buf);
            sent.push((*to, buf[..n].to_vec()));
        }
    }
    sent
}

/// Runs a whole join over datagrams; returns what the host sent.
fn join(h: &mut HostControl, c: &mut ClientControl, from: SocketAddr, now_ms: u64) {
    let effects = c.start(now_ms);
    let hello = client_sends(c, &effects).remove(0);
    let effects = h.on_event(&event(from, &hello, 0), now_ms);
    assert!(effects.iter().any(|e| matches!(
        e,
        HostEffect::Joined { addr: Some(a), .. } if *a == from
    )));
    for (to, datagram) in host_sends(h, &effects) {
        if to == from {
            let effects = c.on_event(Some(&event(HOST, &datagram, 0)), now_ms);
            for ack in client_sends(c, &effects) {
                h.on_event(&event(from, &ack, 0), now_ms);
            }
        }
    }
}

#[test]
fn two_clients_join_over_datagrams() {
    let mut h = host();
    let mut alice = client("alice", CODE, 1_000);
    let mut bob = client("bob", CODE, 1_000);
    join(&mut h, &mut alice, addr(10), 1_000);
    join(&mut h, &mut bob, addr(11), 1_001);
    assert!(alice.is_joined() && bob.is_joined());
    let rows = h.rows(&[true, true, false, false]);
    let names: Vec<&str> = rows.iter().map(|r| r.name.as_str()).collect();
    assert_eq!(names, ["hostess (you)", "alice", "bob"]);
    let names: Vec<String> = bob.rows().into_iter().map(|r| r.name).collect();
    assert_eq!(names, ["hostess", "alice", "bob (you)"]);
    // The WELCOMEs are settled: nothing is sent again.
    assert!(host_sends(&mut h, &[]).is_empty());
    let effects = h.on_tick(1_200, &[0; 4]);
    assert!(!effects.iter().any(|e| matches!(
        e,
        HostEffect::Send { control: Control::Welcome { .. }, .. }
    )));
}

#[test]
fn joining_reports_the_stream() {
    let mut h = host();
    let mut c = client("alice", CODE, 0);
    let effects = c.start(0);
    assert!(matches!(
        effects[..],
        [ClientEffect::Send {
            control: Control::Hello { .. },
            session_id: 0,
            sender_id: UNJOINED_SENDER_ID
        }]
    ));
    let hello = client_sends(&mut c, &effects).remove(0);
    let effects = h.on_event(&event(addr(10), &hello, 0), 0);
    let (_, welcome) = host_sends(&mut h, &effects).remove(0);
    let effects = c.on_event(Some(&event(HOST, &welcome, 0)), 5);
    assert!(matches!(
        effects[..],
        [
            ClientEffect::Send {
                control: Control::Ack { .. },
                session_id: 77,
                sender_id: UNJOINED_SENDER_ID
            },
            ClientEffect::StartStream {
                session_id: 77,
                sender_id: 1
            }
        ]
    ));
    assert_eq!(c.status(), None);
}

#[test]
fn unacknowledged_welcome_is_sent_again() {
    let mut h = host();
    let mut c = client("alice", CODE, 0);
    let effects = c.start(0);
    let hello = client_sends(&mut c, &effects).remove(0);
    let effects = h.on_event(&event(addr(10), &hello, 0), 0);
    let (_, first) = host_sends(&mut h, &effects).remove(0);
    let effects = h.on_tick(150, &[0; 4]);
    let (to, second) = host_sends(&mut h, &effects).remove(0);
    assert_eq!(to, addr(10));
    // Everything but the sequence number is the same, and each is acknowledged.
    assert_eq!(first[..6], second[..6]);
    assert_eq!(first[8..], second[8..]);
    for w in [first, second] {
        let effects = c.on_event(Some(&event(HOST, &w, 0)), 160);
        assert!(matches!(
            effects[0],
            ClientEffect::Send { control: Control::Ack { .. }, .. }
        ));
    }
}

#[test]
fn wrong_code_is_denied() {
    let mut h = host();
    let mut c = client("eve", *b"WRONG1", 0);
    let effects = c.start(0);
    let hello = client_sends(&mut c, &effects).remove(0);
    let effects = h.on_event(&event(addr(10), &hello, 0), 0);
    assert_eq!(effects.len(), 1);
    let (_, deny) = host_sends(&mut h, &effects).remove(0);
    c.on_event(Some(&event(HOST, &deny, 0)), 10);
    assert_eq!(c.status(), Some(ClientStatus::Denied(DenyReason::BadRoomCode)));
    assert!(!c.is_joined());
}

#[test]
fn spoofed_byes_are_ignored() {
    let mut h = host();
    let mut c = client("alice", CODE, 0);
    join(&mut h, &mut c, addr(10), 0);
    assert!(h.on_event(&packet(addr(10), Control::Bye, 76, 1, 9), 5).is_empty());
    c.on_event(Some(&packet(HOST, Control::Bye, 76, 0, 9)), 5);
    assert!(c.is_joined());
    let effects = h.on_event(&packet(addr(10), Control::Bye, 77, 1, 9), 6);
    assert!(effects.iter().any(|e| matches!(e, HostEffect::Left { slot: 0 })));
    let effects = c.on_event(Some(&packet(HOST, Control::Bye, 77, 0, 9)), 6);
    assert!(matches!(effects[..], [ClientEffect::StopStream]));
    assert_eq!(c.status(), Some(ClientStatus::HostEnded));
    assert!(!c.is_joined());
}

#[test]
fn silent_host_starts_a_rejoin() {
    let mut h = host();
    let mut c = client("alice", CODE, 0);
    join(&mut h, &mut c, addr(10), 0);
    let effects = c.on_tick(5_000, 5_000_000, 0);
    assert!(!effects.iter().any(|e| matches!(e, ClientEffect::StopStream)));
    let effects = c.on_tick(5_001, 5_000_001, 0);
    assert!(matches!(
        effects[..2],
        [
            ClientEffect::StopStream,
            ClientEffect::Send { control: Control::Hello { .. }, session_id: 77, sender_id: 1 }
        ]
    ));
    assert!(!c.is_joined());
    // HELLOs go on until the window closes.
    let mut now = 5_001;
    let mut hellos = 0;
    while c.status().is_none() {
        now += 50;
        assert!(now < 60_000);
        for e in c.on_event(None, now) {
            if matches!(e, ClientEffect::Send { control: Control::Hello { .. }, .. }) {
                hellos += 1;
            }
        }
    }
    assert_eq!(c.status(), Some(ClientStatus::TimedOut));
    assert!(now >= 35_001);
    assert!(hellos > 200);
}

#[test]
fn silent_clients_are_dropped() {
    let mut h = host();
    let mut c = client("alice", CODE, 0);
    join(&mut h, &mut c, addr(10), 0);
    // Audio counts as a sign of life.
    let effects = h.on_tick(5_500, &[1_000_000, 0, 0, 0]);
    assert!(!effects.iter().any(|e| matches!(e, HostEffect::Left { .. })));
    let effects = h.on_tick(6_001, &[1_000_000, 0, 0, 0]);
    assert!(effects.iter().any(|e| matches!(e, HostEffect::Left { slot: 0 })));
    assert_eq!(h.rows(&[false; 4]).len(), 1);
}

#[test]
fn periodic_packets_are_due_in_time() {
    let mut h = host();
    let mut c = client("alice", CODE, 0);
    join(&mut h, &mut c, addr(10), 0);
    let effects = h.on_tick(1_000, &[0; 4]);
    assert!(matches!(
        effects[..],
        [
            HostEffect::Ping { .. },
            HostEffect::Send { control: Control::Keepalive, .. },
            HostEffect::Snapshot
        ]
    ));
    assert!(h.on_tick(1_100, &[0; 4]).is_empty());
    let effects = c.on_tick(1_000, 1_000_000, 900_000);
    assert!(matches!(
        effects[..],
        [
            ClientEffect::Ping { session_id: 77, sender_id: 1 },
            ClientEffect::Send { control: Control::Keepalive, .. },
            ClientEffect::Snapshot
        ]
    ));
    assert!(c.on_tick(1_100, 1_100_000, 900_000).is_empty());
}

#[test]
fn old_rosters_are_ignored() {
    let mut c = client("alice", CODE, 0);
    let roster = |name: &str| Control::Roster {
        players: vec![jam::packet::PlayerInfo {
            id: 0,
            name: name.to_string(),
        }],
    };
    c.on_event(Some(&packet(HOST, roster("new"), 77, 0, 10)), 0);
    c.on_event(Some(&packet(HOST, roster("old"), 77, 0, 9)), 0);
    assert_eq!(c.rows()[0].name, "new");
    c.on_event(Some(&packet(HOST, roster("newer"), 77, 0, 11)), 0);
    assert_eq!(c.rows()[0].name, "newer");
}

#[test]
fn other_audio_settings_are_reported() {
    let mut c = ClientControl::new(CODE, "alice".to_string(), 240, Codec::Opus, 0);
    join(&mut host(), &mut c, addr(10), 0);
    assert!(c.is_joined());
    assert_eq!(
        c.status(),
        Some(ClientStatus::Mismatch {
            codec: Codec::Opus,
            frame_samples: 120
        })
    );
}

#[test]
fn everyone_says_goodbye() {
    let mut h = host();
    let mut c = client("alice", CODE, 0);
    assert!(c.goodbye(3).is_empty());
    join(&mut h, &mut c, addr(10), 0);
    let effects = h.goodbye(3);
    assert_eq!(effects.len(), 3);
    assert!(effects.iter().all(|e| matches!(
        e,
        HostEffect::Send { to, control: Control::Bye } if *to == addr(10)
    )));
    assert_eq!(c.goodbye(2).len(), 2);
}

#[test]
fn round_trips_leave_out_the_holding_time() {
    assert_eq!(rtt_from_pong(1_500, 1_000, 70, 120), 450);
    assert_eq!(rtt_from_pong(1_000, 1_500, 70, 120), 0);
    assert_eq!(rtt_from_pong(1_500, 1_000, 0, 600), 0);
    let mut h = host();
    let mut c = client("alice", CODE, 0);
    join(&mut h, &mut c, addr(10), 0);
    let pong = CtrlEvent {
        rx_us: 2_000,
        ..packet(
            addr(10),
            Control::Pong { t1_us: 1_000, t2_us: 5, t3_us: 105 },
            77,
            1,
            3,
        )
    };
    assert!(matches!(
        h.on_event(&pong, 2)[..],
        [HostEffect::Rtt { slot: 0, sample_us: 900 }]
    ));
    assert!(matches!(
        c.on_event(Some(&pong), 2)[..],
        [ClientEffect::Rtt { sample_us: 900 }]
    ));
    let stranger = CtrlEvent { from: addr(99), ..pong };
    assert!(h.on_event(&stranger, 2).is_empty());
}

#[test]
fn sequence_numbers_run_on() {
    let mut c = client("alice", CODE, 0);
    let mut buf = [0u8; MAX_DATAGRAM];
    for seq in 0..3u16 {
        let n = c.transmit(&Control::Keepalive, 5, 6, &mut buf);
        let (h, _) = parse_datagram(&buf[..n]).unwrap();
        assert_eq!(
            h,
            Header {
                ptype: PacketType::Keepalive,
                session_id: 5,
                sender_id: 6,
                seq
            }
        );
    }
}
