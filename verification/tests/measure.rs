use jam::measure::{click_delay_us, click_sample, ClickSample, ClickTimer, CLICKS};

#[test]
fn clicks_come_at_fixed_frames() {
    let mut t = ClickTimer::new();
    let clicks: Vec<usize> = (0..2000).filter(|&i| t.begin_frame(i)).collect();
    assert_eq!(clicks, vec![10, 210, 410, 610, 810, 1010, 1210, 1410]);
    assert_eq!(clicks.len(), CLICKS);
}

#[test]
fn clicks_are_timed_once() {
    let mut t = ClickTimer::new();
    assert_eq!(t.end_frame(3, true), None);
    assert!(t.begin_frame(10));
    assert_eq!(t.end_frame(10, false), None);
    assert!(!t.begin_frame(14));
    assert_eq!(t.end_frame(14, true), Some(4));
    assert_eq!(t.end_frame(15, true), None);
}

#[test]
fn clicks_alternate_and_fall_silent() {
    assert_eq!(click_sample(0), ClickSample::Start);
    assert_eq!(click_sample(24_000), ClickSample::Start);
    assert_eq!(click_sample(1), ClickSample::Negative);
    assert_eq!(click_sample(30), ClickSample::Positive);
    assert_eq!(click_sample(31), ClickSample::Negative);
    assert_eq!(click_sample(32), ClickSample::Silence);
    assert_eq!(click_sample(23_999), ClickSample::Silence);
}

#[test]
fn late_clicks_are_not_counted() {
    assert_eq!(click_delay_us(5_000, 1_000), Some(4_000));
    assert_eq!(click_delay_us(1_000, 5_000), Some(0));
    assert_eq!(click_delay_us(399_999, 0), Some(399_999));
    assert_eq!(click_delay_us(400_000, 0), None);
}
