use jam::addr::SocketAddr;
use jam::jitter::{JitterBuffer, PopOutcome};
use jam::net::{
    feed, lcg_next, route, write_pong, AddrTable, AddrUpdate, LossSim, Routed, RxRole, TxItem,
    TxState, TxStep,
};
use jam::packet::{
    parse_datagram, AudioPacket, Codec, Control, Header, PacketType, Payload,
};
use jam::pipeline::DEST_PEER;
use jam::{HOST_SENDER_ID, MAX_DATAGRAM, MAX_FRAME_BYTES};

fn addr(n: u8) -> SocketAddr {
    SocketAddr::V4 {
        ip: u32::from_be_bytes([10, 0, 0, n]),
        port: 5000,
    }
}

fn datagram(control: &Control, session_id: u16, sender_id: u16, seq: u16) -> Vec<u8> {
    let header = Header {
        ptype: control.packet_type(),
        session_id,
        sender_id,
        seq,
    };
    let mut buf = [0u8; MAX_DATAGRAM];
    let n = control.write(&header, &mut buf);
    buf[..n].to_vec()
}

fn audio(session_id: u16, sender_id: u16, seq: u16, payload: &[u8]) -> Vec<u8> {
    let header = Header {
        ptype: PacketType::Audio,
        session_id,
        sender_id,
        seq,
    };
    let pkt = AudioPacket {
        timestamp: 240,
        codec: Codec::Opus,
        payload,
        redundant: None,
    };
    let mut buf = [0u8; MAX_DATAGRAM];
    let n = pkt.write(&header, &mut buf);
    buf[..n].to_vec()
}

fn host_table() -> AddrTable {
    let mut t = AddrTable::new();
    t.apply(AddrUpdate::Client {
        slot: 1,
        addr: Some(addr(2)),
    });
    t
}

const HOST: RxRole = RxRole::Host { session_id: 42 };

fn client(joined: bool) -> RxRole {
    RxRole::Client {
        host_addr: addr(9),
        joined,
        session_id: 42,
        sender_id: 3,
    }
}

#[test]
fn tx_items_hold_their_bytes() {
    let item = TxItem::new(3, &[1, 2, 3]);
    assert_eq!(item.dest, 3);
    assert_eq!(item.len, 3);
    assert_eq!(&item.buf[..4], &[1, 2, 3, 0]);
    assert_eq!(TxItem::new(0, &[7; MAX_DATAGRAM]).len as usize, MAX_DATAGRAM);
}

#[test]
fn addresses_are_updated_and_resolved() {
    let mut t = AddrTable::new();
    t.apply(AddrUpdate::Client {
        slot: 3,
        addr: Some(addr(1)),
    });
    t.apply(AddrUpdate::Client {
        slot: 4,
        addr: Some(addr(2)),
    });
    assert_eq!(t.resolve(3), Some(addr(1)));
    assert_eq!(t.resolve(0), None);
    assert_eq!(t.resolve(4), None);
    assert_eq!(t.resolve(DEST_PEER), None);
    t.apply(AddrUpdate::Peer(addr(9)));
    assert_eq!(t.resolve(DEST_PEER), Some(addr(9)));
    t.apply(AddrUpdate::Client {
        slot: 3,
        addr: None,
    });
    assert_eq!(t.resolve(3), None);
}

#[test]
fn updates_come_over_the_channel() {
    let (tx, mut rx) = crossbeam_channel::unbounded();
    let mut t = AddrTable::new();
    assert!(t.apply_next(&mut rx).is_none());
    tx.send(AddrUpdate::Peer(addr(1))).unwrap();
    tx.send(AddrUpdate::Client {
        slot: 0,
        addr: Some(addr(2)),
    })
    .unwrap();
    assert!(matches!(t.apply_next(&mut rx), Some(AddrUpdate::Peer(_))));
    assert_eq!(t.resolve(DEST_PEER), Some(addr(1)));
    assert_eq!(t.resolve(0), None);
    assert!(t.apply_next(&mut rx).is_some());
    assert_eq!(t.resolve(0), Some(addr(2)));
    assert!(t.apply_next(&mut rx).is_none());
}

#[test]
fn generator_matches_wrapping_arithmetic() {
    let mut state: u64 = 0x9E37_79B9_7F4A_7C15;
    for _ in 0..100 {
        let next = state
            .wrapping_mul(6364136223846793005)
            .wrapping_add(1442695040888963407);
        assert_eq!(lcg_next(state), next);
        state = next;
    }
}

#[test]
fn loss_simulation_drops_its_share() {
    // 5% of 2^24.
    let mut sim = LossSim::new((0.05f32 * 16_777_216.0).ceil() as u32);
    let mut rng: u64 = 0x9E37_79B9_7F4A_7C15;
    let mut dropped = 0;
    for _ in 0..20_000 {
        rng = rng
            .wrapping_mul(6364136223846793005)
            .wrapping_add(1442695040888963407);
        let roll = (rng >> 40) as f32 / (1u32 << 24) as f32;
        let drop = sim.roll();
        assert_eq!(drop, roll < 0.05);
        dropped += drop as u32;
    }
    assert!(dropped > 800 && dropped < 1200);
    let mut none = LossSim::new(0);
    assert!(!none.roll());
    assert_eq!(none.rng, 0x9E37_79B9_7F4A_7C15);
}

#[test]
fn datagrams_leave_in_order() {
    let (mut tx, mut rx) = rtrb::RingBuffer::<TxItem>::new(4);
    let mut state = TxState::new(0);
    assert!(matches!(state.next_step(&mut rx), TxStep::Idle));
    state.table.apply(AddrUpdate::Client {
        slot: 1,
        addr: Some(addr(2)),
    });
    assert!(tx.push(TxItem::new(1, b"one")).is_ok());
    assert!(tx.push(TxItem::new(0, b"lost")).is_ok());
    assert!(tx.push(TxItem::new(1, b"two")).is_ok());
    match state.next_step(&mut rx) {
        TxStep::Send { to, item } => {
            assert_eq!(to, addr(2));
            assert_eq!(&item.buf[..item.len as usize], b"one");
        }
        _ => panic!("nothing sent"),
    }
    assert!(matches!(state.next_step(&mut rx), TxStep::Discard));
    match state.next_step(&mut rx) {
        TxStep::Send { item, .. } => assert_eq!(&item.buf[..item.len as usize], b"two"),
        _ => panic!("nothing sent"),
    }
    assert!(matches!(state.next_step(&mut rx), TxStep::Idle));
}

#[test]
fn certain_loss_discards_everything() {
    let mut state = TxState::new(1 << 24);
    state.table.apply(AddrUpdate::Peer(addr(1)));
    for _ in 0..50 {
        assert_eq!(state.route(DEST_PEER), None);
    }
}

#[test]
fn host_takes_audio_only_from_registered_addresses() {
    let t = host_table();
    match route(&HOST, &t, addr(2), &audio(42, 2, 7, &[1, 2])) {
        Routed::Audio { slot, seq, packet } => {
            assert_eq!((slot, seq), (1, 7));
            assert_eq!(packet.payload, &[1, 2]);
        }
        other => panic!("{other:?}"),
    }
    for (from, session, sender) in [
        (addr(3), 42, 2),
        (addr(2), 41, 2),
        (addr(2), 42, 1),
        (addr(2), 42, 0),
        (addr(2), 42, 5),
    ] {
        let d = audio(session, sender, 7, &[1]);
        assert!(matches!(route(&HOST, &t, from, &d), Routed::Drop));
    }
}

#[test]
fn client_takes_audio_only_from_its_host() {
    let t = AddrTable::new();
    let good = audio(42, HOST_SENDER_ID, 7, &[1]);
    assert!(matches!(
        route(&client(true), &t, addr(9), &good),
        Routed::Audio { slot: 0, seq: 7, .. }
    ));
    assert!(matches!(route(&client(false), &t, addr(9), &good), Routed::Drop));
    assert!(matches!(route(&client(true), &t, addr(8), &good), Routed::Drop));
    let bad = audio(41, HOST_SENDER_ID, 7, &[1]);
    assert!(matches!(route(&client(true), &t, addr(9), &bad), Routed::Drop));
    let bad = audio(42, 1, 7, &[1]);
    assert!(matches!(route(&client(true), &t, addr(9), &bad), Routed::Drop));
}

#[test]
fn control_packets_go_to_the_control_thread() {
    let t = host_table();
    let d = datagram(&Control::Keepalive, 42, 2, 5);
    assert!(matches!(
        route(&HOST, &t, addr(2), &d),
        Routed::Control { heard: Some(1), control: Control::Keepalive, .. }
    ));
    // Strangers may ask to join, but do not count as heard.
    assert!(matches!(
        route(&HOST, &t, addr(7), &d),
        Routed::Control { heard: None, .. }
    ));
    assert!(matches!(
        route(&client(false), &t, addr(9), &d),
        Routed::Control { heard: Some(0), .. }
    ));
    assert!(matches!(route(&client(false), &t, addr(7), &d), Routed::Drop));
    assert!(matches!(route(&HOST, &t, addr(2), &d[..7]), Routed::Drop));
}

#[test]
fn pings_are_answered_at_once() {
    let t = AddrTable::new();
    let d = datagram(&Control::Ping { t1_us: 77 }, 5, 0xFFFF, 11);
    for (role, id) in [(HOST, HOST_SENDER_ID), (client(false), 3)] {
        let Routed::Pong { header, t1_us } = route(&role, &t, addr(200), &d) else {
            panic!("ping not answered")
        };
        let mut out = [0u8; 64];
        let n = write_pong(&header, t1_us, 100, 103, &mut out);
        assert_eq!(n, 32);
        let (h, payload) = parse_datagram(&out[..n]).unwrap();
        assert_eq!((h.session_id, h.sender_id, h.seq), (5, id, 11));
        assert_eq!(
            payload,
            Payload::Control(Control::Pong {
                t1_us: 77,
                t2_us: 100,
                t3_us: 103
            })
        );
    }
}

#[test]
fn redundant_copy_repairs_a_lost_frame() {
    let mut jb = JitterBuffer::new();
    let mut out = [0u8; MAX_FRAME_BYTES];
    let first = AudioPacket {
        timestamp: 0,
        codec: Codec::Opus,
        payload: &[10],
        redundant: None,
    };
    feed(&mut jb, 0, &first, 120);
    // Packet 1 is lost; packet 2 carries a copy of its frame.
    let third = AudioPacket {
        timestamp: 240,
        codec: Codec::Opus,
        payload: &[12],
        redundant: Some(&[11]),
    };
    feed(&mut jb, 2, &third, 120);
    for (value, ts) in [(10, 0), (11, 120), (12, 240)] {
        assert_eq!(
            jb.pop_next(&mut out),
            PopOutcome::Frame {
                len: 1,
                timestamp: ts
            }
        );
        assert_eq!(out[0], value);
    }
    assert_eq!(jb.stats.concealed, 0);
}

#[test]
fn a_loss_deep_in_the_buffer_is_repaired() {
    for (start, ahead) in [(0u16, 0u16), (100, 5), (65_500, 62)] {
        let mut jb = JitterBuffer::new();
        let mut out = [0u8; MAX_FRAME_BYTES];
        let frame = |j: u16, redundant| AudioPacket {
            timestamp: 120 * j as u32,
            codec: Codec::Opus,
            payload: match j % 2 {
                0 => &[0u8][..],
                _ => &[1],
            },
            redundant,
        };
        jb.push(start.wrapping_sub(1), 0, &[9]);
        jb.pop_next(&mut out);
        for j in 0..ahead {
            feed(&mut jb, start.wrapping_add(j), &frame(j, None), 120);
        }
        // Frame `ahead` is lost; the packet behind it carries a copy.
        let seq = start.wrapping_add(ahead + 1);
        feed(&mut jb, seq, &frame(ahead + 1, Some(&[77])), 120);
        for j in 0..ahead + 2 {
            assert_eq!(
                jb.pop_next(&mut out),
                PopOutcome::Frame {
                    len: 1,
                    timestamp: 120 * j as u32
                }
            );
            assert_eq!(out[0], if j == ahead { 77 } else { (j % 2) as u8 });
        }
    }
}
