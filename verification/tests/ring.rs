use jam::net::TxItem;
use jam::ring::{drift_cap, enqueue, put_capture, take_capture, trim_capture};

#[test]
fn capture_takes_channel_zero() {
    let (mut tx, mut rx) = rtrb::RingBuffer::<u32>::new(16);
    // Two channels; the last sample is half a frame.
    assert_eq!(put_capture(&mut tx, &[1, 91, 2, 92, 3, 93, 4], 2), 0);
    let mut frame = [0u32; 3];
    assert!(take_capture(&mut rx, &mut frame));
    assert_eq!(frame, [1, 2, 3]);
}

#[test]
fn capture_drops_what_does_not_fit() {
    let (mut tx, mut rx) = rtrb::RingBuffer::<u32>::new(2);
    assert_eq!(put_capture(&mut tx, &[1, 2, 3, 4], 1), 2);
    let mut frame = [0u32; 2];
    assert!(take_capture(&mut rx, &mut frame));
    assert_eq!(frame, [1, 2]);
}

#[test]
fn short_capture_is_silence() {
    let (mut tx, mut rx) = rtrb::RingBuffer::<u32>::new(8);
    put_capture(&mut tx, &[5, 6], 1);
    let mut frame = [9u32; 3];
    assert!(!take_capture(&mut rx, &mut frame));
    assert_eq!(frame, [0; 3]);
    // What was there stays.
    put_capture(&mut tx, &[7], 1);
    assert!(take_capture(&mut rx, &mut frame));
    assert_eq!(frame, [5, 6, 7]);
}

#[test]
fn trimming_drops_the_oldest() {
    let (mut tx, mut rx) = rtrb::RingBuffer::<u32>::new(8);
    put_capture(&mut tx, &[1, 2, 3, 4, 5], 1);
    assert_eq!(trim_capture(&mut rx, 2), 3);
    assert_eq!(trim_capture(&mut rx, 2), 0);
    let mut frame = [0u32; 2];
    assert!(take_capture(&mut rx, &mut frame));
    assert_eq!(frame, [4, 5]);
}

#[test]
fn cap_covers_frames_and_device_buffers() {
    assert_eq!(drift_cap(120, 128), 480);
    assert_eq!(drift_cap(120, 512), 1024);
    assert_eq!(drift_cap(240, 480), 960);
}

#[test]
fn datagrams_are_queued_until_the_ring_is_full() {
    let (mut tx, mut rx) = rtrb::RingBuffer::<TxItem>::new(2);
    assert!(enqueue(&mut tx, 1, b"a"));
    assert!(enqueue(&mut tx, 2, b"bc"));
    assert!(!enqueue(&mut tx, 3, b"d"));
    let item = rx.pop().ok().unwrap();
    assert_eq!((item.dest, item.len, item.buf[0]), (1, 1, b'a'));
    assert!(enqueue(&mut tx, 3, b"d"));
    assert_eq!(rx.pop().ok().unwrap().dest, 2);
    assert_eq!(rx.pop().ok().unwrap().dest, 3);
}

#[test]
fn capture_goes_on_after_an_overflow() {
    let (mut tx, mut rx) = rtrb::RingBuffer::<u32>::new(4);
    assert_eq!(put_capture(&mut tx, &[1, 2, 3, 4, 5, 6], 1), 2);
    assert_eq!(put_capture(&mut tx, &[7, 8], 1), 2);
    let mut frame = [0u32; 3];
    assert!(take_capture(&mut rx, &mut frame));
    assert_eq!(frame, [1, 2, 3]);
    assert_eq!(put_capture(&mut tx, &[9, 10, 11, 12], 1), 1);
    let mut rest = [0u32; 4];
    assert!(take_capture(&mut rx, &mut rest));
    assert_eq!(rest, [4, 9, 10, 11]);
}
