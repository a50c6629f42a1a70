use jam::seq::{diff, newer_than, SeqGen};

#[test]
fn ordering_basic() {
    assert!(newer_than(1, 0));
    assert!(!newer_than(0, 1));
    assert!(!newer_than(5, 5));
}

#[test]
fn ordering_across_wraparound() {
    assert!(newer_than(0, u16::MAX));
    assert!(newer_than(5, u16::MAX - 5));
    assert!(!newer_than(u16::MAX, 0));
}

#[test]
fn diff_signs() {
    assert_eq!(diff(10, 7), 3);
    assert_eq!(diff(7, 10), -3);
    assert_eq!(diff(2, u16::MAX), 3);
    assert_eq!(diff(u16::MAX, 2), -3);
}

#[test]
fn generator_wraps() {
    let mut g = SeqGen(u16::MAX);
    assert_eq!(g.next(), u16::MAX);
    assert_eq!(g.next(), 0);
    assert_eq!(g.peek(), 1);
}

#[test]
fn opposite_numbers_are_not_newer() {
    assert_eq!(diff(0x8000, 0), -0x8000);
    assert!(!newer_than(0x8000, 0));
    assert!(newer_than(0x7FFF, 0));
    assert!(!newer_than(0, 0x7FFF));
}

#[test]
fn generators_start_at_zero() {
    assert_eq!(SeqGen::new().peek(), 0);
    assert_eq!(SeqGen::default().peek(), 0);
}
