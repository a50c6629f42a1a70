use jam::accum::SampleFifo;

#[test]
fn push_pop_across_wrap() {
    let mut f = SampleFifo::new(16);
    let mut out = [0.0f32; 6];
    for round in 0..10 {
        let base = round as f32 * 6.0;
        let block: Vec<f32> = (0..6).map(|i| base + i as f32).collect();
        assert_eq!(f.push(&block), 0);
        assert!(f.pop(&mut out));
        assert_eq!(out.to_vec(), block);
    }
}

#[test]
fn pop_fails_when_underfilled() {
    let mut f = SampleFifo::new(8);
    f.push(&[1.0, 2.0]);
    let mut out = [0.0f32; 4];
    assert!(!f.pop(&mut out));
    assert_eq!(f.len(), 2);
}

#[test]
fn overflow_drops_oldest() {
    let mut f = SampleFifo::new(4);
    f.push(&[1.0, 2.0, 3.0, 4.0]);
    assert_eq!(f.push(&[5.0, 6.0]), 2);
    let mut out = [0.0f32; 4];
    assert!(f.pop(&mut out));
    assert_eq!(out, [3.0, 4.0, 5.0, 6.0]);
}

#[test]
fn giant_push_keeps_newest() {
    let mut f = SampleFifo::new(4);
    f.push(&[0.0; 2]);
    let big: Vec<f32> = (0..10).map(|i| i as f32).collect();
    assert_eq!(f.push(&big), 8);
    let mut out = [0.0f32; 4];
    assert!(f.pop(&mut out));
    assert_eq!(out, [6.0, 7.0, 8.0, 9.0]);
}

#[test]
fn empty_fifo() {
    let mut f: SampleFifo<u32> = SampleFifo::new(3);
    assert!(f.is_empty());
    assert_eq!(f.capacity(), 3);
    assert!(f.pop(&mut []));
    assert_eq!(f.push(&[1, 2]), 0);
    assert_eq!(f.push(&[3, 4]), 1);
    let mut out = [0u32; 3];
    assert!(f.pop(&mut out));
    assert_eq!(out, [2, 3, 4]);
    assert!(f.is_empty());
}

#[test]
fn fifo_without_capacity_keeps_nothing() {
    let mut f: SampleFifo<u32> = SampleFifo::new(0);
    assert_eq!(f.push(&[1, 2]), 2);
    assert!(!f.pop(&mut [0]));
    assert!(f.is_empty());
}
