use jam::addr::SocketAddr;
use jam::handshake::{
    ClientAction, ClientHandshake, ClientPhase, HostAction, HostHandshake, JoinFailure,
    LeaveReason, SessionParams,
};
use jam::packet::{Codec, Control, DenyReason};
use jam::{
    CONTROL_MAX_TRIES, CONTROL_RETRY_MS, HOST_SENDER_ID, MAX_CLIENTS, PEER_TIMEOUT_MS,
    PROTOCOL_VERSION,
};

fn addr(n: u8) -> SocketAddr {
    SocketAddr::V4 {
        ip: u32::from_be_bytes([10, 0, 0, n]),
        port: 5000,
    }
}

fn hello(name: &str) -> Control {
    Control::Hello {
        proto_version: PROTOCOL_VERSION,
        room_code: *b"ABC123",
        name: name.into(),
        codec_mask: 1,
        frame_mask: 1,
    }
}

fn host() -> HostHandshake {
    HostHandshake::new(*b"ABC123", 42, SessionParams::default(), "host".into())
}

#[test]
fn client_full_join() {
    let mut c = ClientHandshake::new(*b"ABC123", "al".into());
    let a = c.start(0);
    assert!(matches!(a[0], ClientAction::Send(Control::Hello { .. })));
    // Two retries at the retransmit interval.
    assert_eq!(c.tick(CONTROL_RETRY_MS).len(), 1);
    assert_eq!(c.tick(CONTROL_RETRY_MS + 10).len(), 0); // too soon
    let welcome = Control::Welcome {
        assigned_id: 2,
        session_id: 42,
        sample_rate: 48_000,
        frame_samples: 120,
        codec: Codec::Opus,
        roster: vec![],
    };
    let a = c.on_control(&welcome);
    assert!(matches!(
        a[0],
        ClientAction::StartAudio {
            sender_id: 2,
            session_id: 42,
            ..
        }
    ));
    assert!(matches!(c.phase(), ClientPhase::Joined { .. }));
    // Duplicate WELCOME after joining is ignored.
    assert!(c.on_control(&welcome).is_empty());
}

#[test]
fn client_gives_up_after_max_tries() {
    let mut c = ClientHandshake::new(*b"ABC123", "al".into());
    c.start(0);
    let mut now = 0;
    let mut failed = false;
    for _ in 0..CONTROL_MAX_TRIES + 1 {
        now += CONTROL_RETRY_MS;
        for a in c.tick(now) {
            if matches!(a, ClientAction::Failed(JoinFailure::Timeout)) {
                failed = true;
            }
        }
    }
    assert!(failed);
}

#[test]
fn client_denied() {
    let mut c = ClientHandshake::new(*b"ABC123", "al".into());
    c.start(0);
    let a = c.on_control(&Control::Deny {
        reason: DenyReason::BadRoomCode,
    });
    assert!(matches!(
        a[0],
        ClientAction::Failed(JoinFailure::Denied(DenyReason::BadRoomCode))
    ));
}

#[test]
fn host_assigns_slots_and_denies_when_full() {
    let mut h = host();
    for n in 1..=MAX_CLIENTS as u8 {
        let a = h.on_hello(addr(n), &hello(&format!("p{n}")), 0);
        assert!(a.iter().any(|a| matches!(
            a,
            HostAction::ClientJoined { sender_id, .. } if *sender_id == n as u16
        )));
    }
    let a = h.on_hello(addr(9), &hello("late"), 0);
    assert!(matches!(
        a[0],
        HostAction::Send {
            control: Control::Deny {
                reason: DenyReason::RoomFull
            },
            ..
        }
    ));
}

#[test]
fn host_rejects_bad_code_and_version() {
    let mut h = host();
    let a = h.on_hello(
        addr(1),
        &Control::Hello {
            proto_version: PROTOCOL_VERSION,
            room_code: *b"WRONG!",
            name: "x".into(),
            codec_mask: 1,
            frame_mask: 1,
        },
        0,
    );
    assert!(matches!(
        a[0],
        HostAction::Send {
            control: Control::Deny {
                reason: DenyReason::BadRoomCode
            },
            ..
        }
    ));
    let a = h.on_hello(
        addr(1),
        &Control::Hello {
            proto_version: PROTOCOL_VERSION + 1,
            room_code: *b"ABC123",
            name: "x".into(),
            codec_mask: 1,
            frame_mask: 1,
        },
        0,
    );
    assert!(matches!(
        a[0],
        HostAction::Send {
            control: Control::Deny {
                reason: DenyReason::VersionMismatch
            },
            ..
        }
    ));
}

#[test]
fn duplicate_hello_is_idempotent() {
    let mut h = host();
    h.on_hello(addr(1), &hello("al"), 0);
    let a = h.on_hello(addr(1), &hello("al"), 50);
    // Resends WELCOME to the same slot, no second ClientJoined.
    assert_eq!(
        a.iter()
            .filter(|a| matches!(a, HostAction::ClientJoined { .. }))
            .count(),
        0
    );
    assert!(matches!(
        a[0],
        HostAction::Send {
            control: Control::Welcome { assigned_id: 1, .. },
            ..
        }
    ));
}

#[test]
fn welcome_retransmits_then_gives_up() {
    let mut h = host();
    h.on_hello(addr(1), &hello("al"), 0);
    let mut now = 0;
    let mut resends = 0;
    let mut left = false;
    for _ in 0..CONTROL_MAX_TRIES + 2 {
        now += CONTROL_RETRY_MS;
        for a in h.tick(now) {
            match a {
                HostAction::Send {
                    control: Control::Welcome { .. },
                    ..
                } => resends += 1,
                HostAction::ClientLeft {
                    reason: LeaveReason::WelcomeUnacked,
                    ..
                } => left = true,
                _ => {}
            }
        }
    }
    assert_eq!(resends, CONTROL_MAX_TRIES - 1);
    assert!(left);
}

#[test]
fn ack_activates_pending_client() {
    let mut h = host();
    h.on_hello(addr(1), &hello("al"), 0);
    h.welcome_sent(addr(1), 7);
    h.on_ack(addr(1), 7, 10);
    // No WELCOME retransmit after activation.
    assert!(h.tick(CONTROL_RETRY_MS + 20).iter().all(|a| !matches!(
        a,
        HostAction::Send {
            control: Control::Welcome { .. },
            ..
        }
    )));
}

#[test]
fn audio_implicitly_acks_welcome() {
    let mut h = host();
    h.on_hello(addr(1), &hello("al"), 0);
    h.mark_heard(1, 10);
    assert!(h.tick(CONTROL_RETRY_MS + 20).iter().all(|a| !matches!(
        a,
        HostAction::Send {
            control: Control::Welcome { .. },
            ..
        }
    )));
}

#[test]
fn silent_client_times_out_and_roster_updates() {
    let mut h = host();
    h.on_hello(addr(1), &hello("al"), 0);
    h.on_hello(addr(2), &hello("bo"), 0);
    h.mark_heard(1, 0);
    h.mark_heard(2, 6_000); // bo stays alive
    let actions = h.tick(PEER_TIMEOUT_MS + 1_000);
    assert!(actions.iter().any(|a| matches!(
        a,
        HostAction::ClientLeft {
            sender_id: 1,
            reason: LeaveReason::Timeout
        }
    )));
    // Survivor gets a fresh roster without the departed player.
    let roster_sent = actions.iter().find_map(|a| match a {
        HostAction::Send {
            to,
            control: Control::Roster { players },
        } if *to == addr(2) => Some(players.clone()),
        _ => None,
    });
    let players = roster_sent.expect("roster broadcast to survivor");
    assert!(players.iter().all(|p| p.id != 1));
    assert!(players.iter().any(|p| p.id == 2));
}

#[test]
fn bye_frees_slot_for_reuse() {
    let mut h = host();
    h.on_hello(addr(1), &hello("al"), 0);
    h.on_bye(addr(1));
    let a = h.on_hello(addr(3), &hello("cy"), 100);
    assert!(a
        .iter()
        .any(|a| matches!(a, HostAction::ClientJoined { sender_id: 1, .. })));
}

#[test]
fn roster_includes_host_and_clients() {
    let mut h = host();
    h.on_hello(addr(1), &hello("al"), 0);
    let roster = h.roster();
    assert_eq!(roster[0].id, HOST_SENDER_ID);
    assert_eq!(roster[0].name, "host");
    assert_eq!(roster[1].id, 1);
    assert_eq!(roster[1].name, "al");
}

#[test]
fn new_client_is_announced_to_the_others() {
    let mut h = host();
    h.on_hello(addr(1), &hello("al"), 0);
    let a = h.on_hello(addr(2), &hello("bo"), 5);
    assert_eq!(a.len(), 3);
    assert!(matches!(
        &a[0],
        HostAction::Send { to, control: Control::Welcome { assigned_id: 2, session_id: 42, .. } }
            if *to == addr(2)
    ));
    assert!(matches!(&a[1], HostAction::ClientJoined { sender_id: 2, name } if name == "bo"));
    assert!(matches!(
        &a[2],
        HostAction::Send { to, control: Control::Roster { players } }
            if *to == addr(1) && players.len() == 3
    ));
}

#[test]
fn addresses_and_ids_lead_to_each_other() {
    let mut h = host();
    h.on_hello(addr(7), &hello("al"), 0);
    h.on_hello(addr(8), &hello("bo"), 0);
    assert_eq!(h.sender_for_addr(addr(8)), Some(2));
    assert_eq!(h.client_addr(2), Some(addr(8)));
    assert_eq!(h.client_addr(0), None);
    assert_eq!(h.client_addr(3), None);
    assert_eq!(h.client_addr(9), None);
    assert_eq!(h.sender_for_addr(addr(1)), None);
    assert_eq!(h.client_addrs(), vec![(1, addr(7)), (2, addr(8))]);
    assert_eq!(h.session_id(), 42);
}

#[test]
fn refused_hello_changes_nothing() {
    let mut h = host();
    let a = h.on_hello(addr(1), &Control::Bye, 0);
    assert!(a.is_empty());
    h.on_hello(
        addr(1),
        &Control::Hello {
            proto_version: PROTOCOL_VERSION,
            room_code: *b"WRONG!",
            name: "x".into(),
            codec_mask: 1,
            frame_mask: 1,
        },
        0,
    );
    assert_eq!(h.sender_for_addr(addr(1)), None);
    assert_eq!(h.roster().len(), 1);
}

#[test]
fn acks_with_another_number_settle_nothing() {
    let mut h = host();
    h.on_hello(addr(1), &hello("al"), 0);
    h.welcome_sent(addr(1), 7);
    h.on_ack(addr(1), 8, 10);
    assert!(h.tick(CONTROL_RETRY_MS + 20).iter().any(|a| matches!(
        a,
        HostAction::Send {
            control: Control::Welcome { .. },
            ..
        }
    )));
}

#[test]
fn client_phases() {
    let mut c = ClientHandshake::new(*b"ABC123", "al".into());
    assert_eq!(*c.phase(), ClientPhase::Idle);
    assert!(c.tick(1_000_000).is_empty());
    c.start(5);
    assert_eq!(
        *c.phase(),
        ClientPhase::Joining {
            last_tx_ms: 5,
            tries: 1
        }
    );
    // The clock going backwards is no elapsed time.
    assert!(c.tick(0).is_empty());
    c.on_control(&Control::Deny {
        reason: DenyReason::RoomFull,
    });
    assert_eq!(
        *c.phase(),
        ClientPhase::Failed(JoinFailure::Denied(DenyReason::RoomFull))
    );
    assert!(c.tick(1_000_000).is_empty());
}
