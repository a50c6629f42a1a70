use jam::addr::SocketAddr;
use jam::net::{route, write_pong, AddrTable, Routed, RxRole};
use jam::packet::{parse_datagram, Control, Payload};
use jam::probe::{reply_rtt, write_probe, PROBE_LEN};

#[test]
fn probes_are_pings_outside_any_session() {
    let mut out = [0u8; 20];
    assert_eq!(write_probe(5, 1_000, &mut out), PROBE_LEN);
    assert_eq!(&out[16..], &[0; 4]);
    let (h, payload) = parse_datagram(&out[..PROBE_LEN]).unwrap();
    assert_eq!((h.session_id, h.sender_id, h.seq), (0, 0xFFFF, 5));
    assert_eq!(payload, Payload::Control(Control::Ping { t1_us: 1_000 }));
}

#[test]
fn answers_show_the_round_trip() {
    let mut probe = [0u8; PROBE_LEN];
    write_probe(5, 1_000, &mut probe);
    let from = SocketAddr::V4 { ip: 7, port: 7 };
    let role = RxRole::Host { session_id: 42 };
    let Routed::Pong { header, t1_us } = route(&role, &AddrTable::new(), from, &probe) else {
        panic!("probe not answered")
    };
    let mut answer = [0u8; 32];
    write_pong(&header, t1_us, 70_000, 70_400, &mut answer);
    assert_eq!(reply_rtt(&answer, 19_400), Some(18_000));
    assert_eq!(reply_rtt(&answer[..31], 19_400), None);
    assert_eq!(reply_rtt(&probe, 19_400), None);
}
