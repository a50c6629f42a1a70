use jam::codec::{pcm_decode, pcm_encode};
use jam::engine::{EngineParams, MonitorMode};
use jam::jitter::JitterBuffer;
use jam::packet::{parse_datagram, Codec, Payload};
use jam::pipeline::{
    host_monitor, ClientFeed, ClientPipeline, FrameSender, HostPipeline, MixFlags, SelfMonitor, DEST_PEER,
};
use jam::playout::{Pulled, StreamPlayout};
use jam::{HOST_SENDER_ID, MAX_CLIENTS, MAX_DATAGRAM};

const MASTER_TRIM: f32 = 0.5;

fn params() -> EngineParams {
    EngineParams {
        codec: Codec::PcmF32,
        monitor: MonitorMode::Off,
        ..Default::default()
    }
}

/// Encode a constant-value PCM-f32 frame of `n` samples.
fn enc_const(v: f32, n: usize) -> Vec<u8> {
    let mut buf = vec![0u8; n * 4];
    let len = pcm_encode(Codec::PcmF32, &vec![v.to_bits(); n], &mut buf).unwrap();
    buf.truncate(len);
    buf
}

fn decode(payload: &[u8], n: usize) -> Vec<f32> {
    let mut words = vec![0u32; n];
    pcm_decode(Codec::PcmF32, Some(payload), &mut words).unwrap();
    words.into_iter().map(f32::from_bits).collect()
}

/// A host whose samples are mixed here, with settled gains.
struct Host {
    pipeline: HostPipeline,
    flags: MixFlags,
    active: [bool; MAX_CLIENTS],
    buffers: Vec<JitterBuffer>,
    playouts: Vec<StreamPlayout>,
    n: usize,
}

impl Host {
    fn new(p: &EngineParams) -> Host {
        Host {
            pipeline: HostPipeline::new(p),
            flags: MixFlags::new(),
            active: [false; MAX_CLIENTS],
            buffers: (0..MAX_CLIENTS).map(|_| JitterBuffer::new()).collect(),
            playouts: (0..MAX_CLIENTS)
                .map(|_| StreamPlayout::new(p, 800, 200))
                .collect(),
            n: p.frame_samples,
        }
    }

    fn process_frame(&mut self, local: f32, sent: &mut Vec<(u8, Vec<u8>)>) -> f32 {
        let plan = self.pipeline.begin_frame(&self.active, &self.flags);
        let gain = |included: bool| if included { MASTER_TRIM } else { 0.0 };
        let mut scaled = [0.0f32; MAX_CLIENTS];
        for c in 0..MAX_CLIENTS {
            if plan.restart[c] {
                self.playouts[c].reset_stream();
            }
            let jb = &mut self.buffers[c];
            if self.active[c] && self.playouts[c].ready(jb) {
                let mut value = 0.0;
                let hit = match self.playouts[c].pull(jb) {
                    Pulled::Frame { len } => {
                        value = decode(self.playouts[c].packet(len), self.n)[self.n / 2];
                        true
                    }
                    Pulled::Conceal => false,
                };
                self.playouts[c].settle(jb, hit, 0);
                scaled[c] = value * gain(plan.included[c + 1]);
            }
        }
        let scaled_local = local * gain(plan.included[0]);
        let mix = scaled_local + scaled.iter().sum::<f32>();
        for c in 0..MAX_CLIENTS {
            if self.active[c] {
                let payload = enc_const(mix - scaled[c], self.n);
                let mut dgram = [0u8; MAX_DATAGRAM];
                assert!(self.pipeline.datagram_len(c, payload.len()) <= MAX_DATAGRAM);
                let len = self.pipeline.write_frame(c, 7, &payload, &mut dgram);
                assert_eq!(len, 16 + payload.len());
                sent.push((c as u8, dgram[..len].to_vec()));
            }
        }
        self.pipeline.end_frame();
        mix - scaled_local
    }
}

/// Feed a client slot's jitter buffer directly and check the host mixes
/// it, sends mix-minus-self, and hears the client.
#[test]
fn host_mixes_and_subtracts_self() {
    let p = params();
    let n = p.frame_samples;
    let mut host = Host::new(&p);

    // Client 0 active with a constant 0.4 signal, client 1 active with 0.2.
    host.active[0] = true;
    host.active[1] = true;
    for s in 0..3u16 {
        host.buffers[0].push(s, s as u32 * 120, &enc_const(0.4, n));
        host.buffers[1].push(s, s as u32 * 120, &enc_const(0.2, n));
    }
    let mut sent: Vec<(u8, Vec<u8>)> = vec![];
    let mut mid = 0.0;
    for _ in 0..3 {
        mid = host.process_frame(0.1, &mut sent);
    }

    // Host hears (0.4 + 0.2) * trim (self removed in Off mode).
    let expect_host = (0.4 + 0.2) * 0.5;
    assert!(
        (mid - expect_host).abs() < 0.02,
        "host hears {mid}, expected ~{expect_host}"
    );

    // Both clients got packets; decode the last one for client 0:
    // mix minus self = (0.1 + 0.2) * trim.
    let last_c0 = sent.iter().rev().find(|(d, _)| *d == 0).unwrap();
    let (h, payload) = parse_datagram(&last_c0.1).unwrap();
    assert_eq!(h.session_id, 7);
    assert_eq!(h.sender_id, HOST_SENDER_ID);
    let Payload::Audio(a) = payload else { panic!() };
    let pcm = decode(a.payload, n);
    let expect_c0 = (0.1 + 0.2) * 0.5;
    assert!(
        (pcm[n / 2] - expect_c0).abs() < 0.02,
        "client0 hears {}, expected ~{expect_c0}",
        pcm[n / 2]
    );
    assert_eq!(h.seq, 2);
    assert_eq!(a.timestamp, 240);
}

/// Run the host over many frames with two active clients emitting constant
/// levels, keeping both jitter buffers fed, and return the steady host-out
/// value (host is silent + monitor Off, so it hears exactly the mix).
fn steady_host_out(configure: impl FnOnce(&mut MixFlags)) -> f32 {
    let p = params();
    let n = p.frame_samples;
    let mut host = Host::new(&p);
    host.active[0] = true;
    host.active[1] = true;
    configure(&mut host.flags);

    let mut seq = 0u16;
    // Prime a couple of frames ahead of the reader.
    for _ in 0..3 {
        host.buffers[0].push(seq, seq as u32 * 120, &enc_const(0.4, n));
        host.buffers[1].push(seq, seq as u32 * 120, &enc_const(0.2, n));
        seq = seq.wrapping_add(1);
    }
    let mut out = 0.0;
    for _ in 0..60 {
        host.buffers[0].push(seq, seq as u32 * 120, &enc_const(0.4, n));
        host.buffers[1].push(seq, seq as u32 * 120, &enc_const(0.2, n));
        seq = seq.wrapping_add(1);
        out = host.process_frame(0.0, &mut vec![]);
    }
    out
}

#[test]
fn muting_a_player_removes_it_from_the_mix() {
    // Both active -> host hears (0.4 + 0.2) * trim = 0.30.
    let both = steady_host_out(|_| {});
    assert!((both - 0.30).abs() < 0.02, "both active: {both}");
    // Mute client 1 (gain index 2) -> only client 0 remains: 0.4 * 0.5.
    let muted = steady_host_out(|f| f.muted[2] = true);
    assert!(
        (muted - 0.20).abs() < 0.02,
        "client1 muted: {muted}, expected ~0.20"
    );
}

#[test]
fn soloing_isolates_to_soloed_players() {
    // Solo client 0 (gain index 1): only client 0 is heard.
    let solo0 = steady_host_out(|f| f.soloed[1] = true);
    assert!(
        (solo0 - 0.20).abs() < 0.02,
        "solo client0: {solo0}, expected ~0.20 (0.4*trim)"
    );
    // Solo client 1 instead: only client 1 (0.2 * 0.5 = 0.10).
    let solo1 = steady_host_out(|f| f.soloed[2] = true);
    assert!(
        (solo1 - 0.10).abs() < 0.02,
        "solo client1: {solo1}, expected ~0.10 (0.2*trim)"
    );
    // Solo the host itself (index 0, silent here): clients are excluded,
    // and since the host feeds no signal the mix is empty.
    let solo_host = steady_host_out(|f| f.soloed[0] = true);
    assert!(
        solo_host.abs() < 0.02,
        "solo silent host: {solo_host}, expected ~0"
    );
}

#[test]
fn solo_on_a_non_audible_slot_does_not_silence_the_room() {
    // Muting the only soloed player must not count as an active solo:
    // the room falls back to a normal mix (client1 still heard), never
    // to silence.
    let solo_then_mute = steady_host_out(|f| {
        f.soloed[1] = true;
        f.muted[1] = true;
    });
    assert!(
        (solo_then_mute - 0.10).abs() < 0.02,
        "solo+mute the same player should fall back to the rest of the \
         mix (~0.10), not silence: {solo_then_mute}"
    );
    // Soloing an empty/inactive slot (index 3: slot 2 is not active in this
    // harness) is a no-op, not a room-killer.
    let solo_empty = steady_host_out(|f| f.soloed[3] = true);
    assert!(
        (solo_empty - 0.30).abs() < 0.02,
        "solo on an empty slot must leave the full mix (~0.30): {solo_empty}"
    );
}

/// One frame of a client: sends if joined; returns what it hears, with no mix
/// coming back.
fn client_frame(
    cp: &mut ClientPipeline,
    joined: bool,
    ids: (u16, u16),
    local: f32,
    n: usize,
    sent: &mut Vec<(u8, Vec<u8>)>,
) -> f32 {
    cp.begin_frame(joined);
    if joined {
        let payload = enc_const(local, n);
        let mut dgram = [0u8; MAX_DATAGRAM];
        assert!(cp.datagram_len(payload.len()) <= MAX_DATAGRAM);
        let len = cp.write_frame(ids.0, ids.1, &payload, &mut dgram);
        sent.push((DEST_PEER, dgram[..len].to_vec()));
    }
    cp.end_frame();
    if cp.monitors_directly() {
        local
    } else {
        0.0
    }
}

#[test]
fn client_sends_when_joined_and_applies_monitor() {
    let p = EngineParams {
        codec: Codec::PcmF32,
        monitor: MonitorMode::Direct,
        ..Default::default()
    };
    let n = p.frame_samples;
    let mut cp = ClientPipeline::new(&p);

    // Not joined: no datagrams, output only silence+monitor.
    let mut sent = vec![];
    client_frame(&mut cp, false, (0, 0xFFFF), 0.3, n, &mut sent);
    assert_eq!(sent.len(), 0);

    let mut out = 0.0;
    for _ in 0..3 {
        out = client_frame(&mut cp, true, (9, 2), 0.3, n, &mut sent);
    }
    assert_eq!(sent.len(), 3);
    let (h, payload) = parse_datagram(&sent[0].1).unwrap();
    assert_eq!(h.sender_id, 2);
    assert_eq!(h.session_id, 9);
    assert!(matches!(payload, Payload::Audio(_)));
    // Direct monitor: hears own signal (no mix yet).
    assert!((out - 0.3).abs() < 0.05);
}

#[test]
fn redundancy_attaches_previous_frame() {
    let p = EngineParams {
        codec: Codec::PcmF32,
        redundancy: true,
        monitor: MonitorMode::Off,
        ..Default::default()
    };
    let n = p.frame_samples;
    let mut cp = ClientPipeline::new(&p);
    let mut sent = vec![];
    client_frame(&mut cp, true, (0, 1), 0.11, n, &mut sent);
    client_frame(&mut cp, true, (0, 1), 0.22, n, &mut sent);
    let (_, p1) = parse_datagram(&sent[0].1).unwrap();
    let Payload::Audio(a1) = p1 else { panic!() };
    assert!(a1.redundant.is_none(), "first packet has no previous frame");
    let (_, p2) = parse_datagram(&sent[1].1).unwrap();
    let Payload::Audio(a2) = p2 else { panic!() };
    let red = a2.redundant.expect("second packet carries redundancy");
    assert_eq!(red, a1.payload, "redundant copy is the previous payload");
}

#[test]
fn joining_restarts_the_playout_once() {
    let mut cp = ClientPipeline::new(&params());
    assert!(!cp.begin_frame(false));
    assert!(cp.begin_frame(true));
    assert!(!cp.begin_frame(true));
    assert!(!cp.begin_frame(false));
    assert!(cp.begin_frame(true));
}

#[test]
fn new_clients_restart_their_slot_once() {
    let mut hp = HostPipeline::new(&params());
    let flags = MixFlags::new();
    let plan = hp.begin_frame(&[false, true, false, true], &flags);
    assert_eq!(plan.restart, [false, true, false, true]);
    assert_eq!(plan.included, [true; 5]);
    let plan = hp.begin_frame(&[true, true, false, false], &flags);
    assert_eq!(plan.restart, [true, false, false, false]);
}

#[test]
fn sample_clock_wraps() {
    let p = EngineParams {
        frame_samples: 0xFFFF_FFFF,
        ..params()
    };
    let mut cp = ClientPipeline::new(&p);
    cp.end_frame();
    cp.end_frame();
    let mut dgram = [0u8; 64];
    let len = cp.write_frame(0, 1, &[1], &mut dgram);
    let (_, payload) = parse_datagram(&dgram[..len]).unwrap();
    let Payload::Audio(a) = payload else { panic!() };
    assert_eq!(a.timestamp, 0xFFFF_FFFE);
}

#[test]
fn senders_number_their_frames() {
    let mut s = FrameSender::new();
    let mut dgram = [0u8; 64];
    assert_eq!(s.datagram_len(true, 3), 19);
    for seq in 0..3u16 {
        let len = s.write(&mut dgram, 1, 2, 3, Codec::Opus, true, &[1, 2, 3]);
        assert_eq!(len, if seq == 0 { 19 } else { 24 });
        let (h, _) = parse_datagram(&dgram[..len]).unwrap();
        assert_eq!(h.seq, seq);
    }
    assert_eq!(s.datagram_len(true, 3), 24);
    assert_eq!(s.datagram_len(false, 3), 19);
}

#[test]
fn host_hears_itself_as_asked() {
    assert_eq!(host_monitor(MonitorMode::ThroughMix), SelfMonitor::InMix);
    assert_eq!(host_monitor(MonitorMode::Off), SelfMonitor::Removed);
    assert_eq!(host_monitor(MonitorMode::Direct), SelfMonitor::Direct);
}

#[test]
fn copies_that_do_not_fit_are_left_out() {
    let p = EngineParams {
        codec: Codec::PcmF32,
        frame_samples: 240,
        redundancy: true,
        ..Default::default()
    };
    let n = p.frame_samples;
    let mut cp = ClientPipeline::new(&p);
    let mut sent = vec![];
    for _ in 0..3 {
        client_frame(&mut cp, true, (9, 2), 0.3, n, &mut sent);
    }
    assert_eq!(sent.len(), 3);
    for (_, d) in &sent {
        assert!(d.len() <= MAX_DATAGRAM);
        let (_, payload) = parse_datagram(d).unwrap();
        let Payload::Audio(a) = payload else { panic!() };
        assert_eq!(a.payload.len(), 960);
        assert!(a.redundant.is_none());
    }
    // Up to the last byte a copy goes along.
    let mut s = FrameSender::new();
    let mut dgram = [0u8; MAX_DATAGRAM];
    let first = vec![1u8; 600];
    s.write(&mut dgram, 1, 2, 3, Codec::Opus, true, &first);
    assert_eq!(s.datagram_len(true, MAX_DATAGRAM - 16 - 2 - 600), MAX_DATAGRAM);
    assert_eq!(s.datagram_len(true, MAX_DATAGRAM - 16 - 2 - 599), 16 + 783);
}

#[test]
fn clients_are_sent_the_mix_or_their_echo() {
    let active = [true, false, false, true];
    for (echo, feed) in [(false, ClientFeed::MixMinusSelf), (true, ClientFeed::Echo)] {
        let mut hp = HostPipeline::new(&EngineParams { echo, ..params() });
        assert_eq!(hp.client_feed(0), ClientFeed::Nothing);
        hp.begin_frame(&active, &MixFlags::new());
        for slot in 0..MAX_CLIENTS {
            let expected = if active[slot] { feed } else { ClientFeed::Nothing };
            assert_eq!(hp.client_feed(slot), expected);
        }
    }
}
