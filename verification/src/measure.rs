//! Latency measurement: when clicks are made, and how long they take.
//!
//! Two complementary measurements:
//!
//! - **Network path**: joins a host that echoes, injects clicks straight into
//!   the send pipeline, and times their return in the decoded stream.
//! - **Device path**: plays clicks out of the interface and times their
//!   arrival back at the input over a cable.
//!
//! True mouth-to-ear latency is about the sum of both.
use vstd::prelude::*;

verus! {

/// One click every 0.5 s at 2.5 ms a frame.
pub const CLICK_INTERVAL_FRAMES: usize = 200;

pub const CLICKS: usize = 8;

/// The frame of each interval that is a click.
pub const CLICK_OFFSET_FRAMES: usize = 10;

/// One click every 0.5 s at 48 kHz.
pub const CLICK_INTERVAL_SAMPLES: u64 = 24_000;

/// The length of a click, in samples.
pub const CLICK_SAMPLES: u64 = 32;

/// Answers that take longer are taken for something else.
pub const CLICK_TIMEOUT_US: u64 = 400_000;

/// Whether a frame of the network measurement is a click.
pub open spec fn clicks_at(i: int) -> bool {
    let interval = CLICK_INTERVAL_FRAMES as int;
    i % interval == CLICK_OFFSET_FRAMES && i / interval < CLICKS
}

/// The click that is timed after a frame has begun, and whether that frame is a
/// click.
pub open spec fn click_begun(last_click: Option<usize>, i: usize) -> (Option<usize>, bool) {
    if clicks_at(i as int) {
        (Some(i), true)
    } else {
        (last_click, false)
    }
}

/// The click that is timed after a frame was played, and how many frames the one
/// took that was heard in it.
pub open spec fn click_ended(last_click: Option<usize>, i: usize, heard: bool) -> (
    Option<usize>,
    Option<int>,
) {
    match last_click {
        Some(at) if heard => (None, Some(i - at)),
        _ => (last_click, None),
    }
}

/// The time that a click took, if what was heard can be it.
pub open spec fn delay_of(now_us: u64, clicked_us: u64) -> Option<int> {
    let d = crate::handshake::elapsed(now_us, clicked_us);
    if d < CLICK_TIMEOUT_US {
        Some(d)
    } else {
        None
    }
}

/// Times clicks by the frames until they come back.
#[derive(Debug, Clone, Copy, PartialEq, Eq, Structural)]
pub struct ClickTimer {
    /// The frame of the last click that has not come back.
    pub last_click: Option<usize>,
}

impl ClickTimer {
    pub fn new() -> (t: Self)
        ensures
            t.last_click is None,
    {
        ClickTimer { last_click: None }
    }

    /// Whether frame `i` is a click; if so, it is the one that is timed.
    pub fn begin_frame(&mut self, i: usize) -> (click: bool)
        ensures
            click == clicks_at(i as int),
            (final(self).last_click, click) == click_begun(old(self).last_click, i),
            final(self).last_click == if click {
                Some(i)
            } else {
                old(self).last_click
            },
    {
        let click = i % CLICK_INTERVAL_FRAMES == CLICK_OFFSET_FRAMES && i / CLICK_INTERVAL_FRAMES
            < CLICKS;
        if click {
            self.last_click = Some(i);
        }
        click
    }

    /// Frame `i` was played; `heard` if a click was in it. Returns how many
    /// frames the click took.
    pub fn end_frame(&mut self, i: usize, heard: bool) -> (frames: Option<usize>)
        requires
            old(self).last_click matches Some(at) ==> at <= i,
        ensures
            final(self).last_click == click_ended(old(self).last_click, i, heard).0,
            frames is Some <==> click_ended(old(self).last_click, i, heard).1 is Some,
            frames matches Some(n) ==> n == click_ended(old(self).last_click, i, heard).1->Some_0,
            if heard && old(self).last_click is Some {
                frames == Some((i - old(self).last_click->Some_0) as usize)
                    && final(self).last_click is None
            } else {
                frames is None && *final(self) == *old(self)
            },
    {
        if heard {
            if let Some(at) = self.last_click {
                self.last_click = None;
                return Some(i - at);
            }
        }
        None
    }
}

/// What is played of a click at a sample, if anything: alternating polarity.
#[derive(Debug, Clone, Copy, PartialEq, Eq, Structural)]
pub enum ClickSample {
    /// The click starts here, with positive polarity.
    Start,
    Positive,
    Negative,
    Silence,
}

/// What is played at a sample of the device measurement.
pub open spec fn click_sample_at(n: int) -> ClickSample {
    let pos = n % CLICK_INTERVAL_SAMPLES as int;
    if pos == 0 {
        ClickSample::Start
    } else if pos >= CLICK_SAMPLES {
        ClickSample::Silence
    } else if pos % 2 == 0 {
        ClickSample::Positive
    } else {
        ClickSample::Negative
    }
}

/// What is played at a sample of the device measurement.
pub fn click_sample(n: u64) -> (c: ClickSample)
    ensures
        c == click_sample_at(n as int),
{
    let pos: u64 = n % CLICK_INTERVAL_SAMPLES;
    if pos == 0 {
        ClickSample::Start
    } else if pos >= CLICK_SAMPLES {
        ClickSample::Silence
    } else if pos % 2 == 0 {
        ClickSample::Positive
    } else {
        ClickSample::Negative
    }
}

/// The time that a click took, if what was heard can be it.
pub fn click_delay_us(now_us: u64, clicked_us: u64) -> (delay: Option<u64>)
    ensures
        delay is Some <==> delay_of(now_us, clicked_us) is Some,
        delay matches Some(d) ==> d == delay_of(now_us, clicked_us)->Some_0,
        ({
            let d = crate::handshake::elapsed(now_us, clicked_us);
            delay == if d < CLICK_TIMEOUT_US {
                Some(d as u64)
            } else {
                None
            }
        }),
{
    let d: u64 = now_us.saturating_sub(clicked_us);
    if d < CLICK_TIMEOUT_US {
        Some(d)
    } else {
        None
    }
}

/// A measurement makes `CLICKS` clicks, one in each of the first intervals, at
/// the same place of each.
pub proof fn law_one_click_per_interval(k: int, i: int)
    requires
        0 <= k,
        k * CLICK_INTERVAL_FRAMES <= i < (k + 1) * CLICK_INTERVAL_FRAMES,
    ensures
        clicks_at(i) <==> k < CLICKS && i == k * CLICK_INTERVAL_FRAMES + CLICK_OFFSET_FRAMES,
{
}

/// A click of the device measurement starts with each interval and is
/// `CLICK_SAMPLES` long: positive at its start and at each even sample after
/// it, negative at each odd one. Between two clicks there is silence.
pub proof fn law_clicks_alternate(k: int, pos: int)
    requires
        0 <= k,
        0 <= pos < 24_000,
    ensures
        pos == 0 <==> click_sample_at(k * 24_000 + pos) == ClickSample::Start,
        0 < pos < 32 && pos % 2 == 0 <==> click_sample_at(k * 24_000 + pos)
            == ClickSample::Positive,
        0 < pos < 32 && pos % 2 == 1 <==> click_sample_at(k * 24_000 + pos)
            == ClickSample::Negative,
        pos >= 32 <==> click_sample_at(k * 24_000 + pos) == ClickSample::Silence,
{
    assert((k * 24_000 + pos) % 24_000 == pos);
}

/// A click that is heard some frames later took as many frames, and is then no
/// longer waited for: what is heard after that is not taken for it again. Until
/// it is heard it goes on being waited for.
pub proof fn law_clicks_are_timed_once(
    last_click: Option<usize>,
    i: usize,
    later: usize,
    again: usize,
)
    requires
        clicks_at(i as int),
        i <= later,
    ensures
        ({
            let (waiting, click) = click_begun(last_click, i);
            &&& click
            &&& click_ended(waiting, later, false) == (waiting, None::<int>)
            &&& click_ended(waiting, later, true).1 == Some(later - i)
            &&& click_ended(click_ended(waiting, later, true).0, again, true).1 is None
        }),
{
}

/// A frame that is no click leaves the one that is waited for.
pub proof fn law_other_frames_are_not_timed(last_click: Option<usize>, i: usize)
    requires
        !clicks_at(i as int),
    ensures
        click_begun(last_click, i) == (last_click, false),
{
}

/// What is heard less than 0.4 s after a click is that click, and took the time
/// in between; what is heard later is something else.
pub proof fn law_late_answers_do_not_count(clicked_us: u64, took: u64)
    requires
        clicked_us + took <= u64::MAX,
    ensures
        took < 400_000 ==> delay_of((clicked_us + took) as u64, clicked_us) == Some(took as int),
        took >= 400_000 ==> delay_of((clicked_us + took) as u64, clicked_us) is None,
{
}

} // verus!
