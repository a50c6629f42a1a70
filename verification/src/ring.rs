//! The lock-free rings between the audio callback and its neighbours: samples
//! from the capture callback, and datagrams to the transmit thread.
//!
//! A ring has a producer on one thread and a consumer on another. What is said
//! of a consumer here is said of the items that it has already seen to be in
//! the ring: those stay until it takes them, while more may arrive at any time.
//! Likewise for the slots that a producer has seen to be free: those stay free
//! until it fills them, while more may become free at any time.
use crate::net::{TxItem, TxView};
use crate::MAX_DATAGRAM;
use vstd::prelude::*;

verus! {

/// The reading end of an `rtrb` ring.
#[verifier::external_type_specification]
#[verifier::external_body]
#[verifier::reject_recursive_types(T)]
pub struct ExConsumer<T>(rtrb::Consumer<T>);

/// The writing end of an `rtrb` ring.
#[verifier::external_type_specification]
#[verifier::external_body]
#[verifier::reject_recursive_types(T)]
pub struct ExProducer<T>(rtrb::Producer<T>);

/// The samples that a consumer has seen to be in its ring, oldest first.
pub uninterp spec fn seen_samples(c: rtrb::Consumer<u32>) -> Seq<u32>;

/// The datagrams that a consumer has seen to be in its ring, oldest first.
pub uninterp spec fn seen_datagrams(c: rtrb::Consumer<TxItem>) -> Seq<TxView>;

/// The samples that a consumer has taken from its ring so far.
pub uninterp spec fn taken_samples(c: rtrb::Consumer<u32>) -> Seq<u32>;

/// The datagrams that a consumer has taken from its ring so far.
pub uninterp spec fn taken_datagrams(c: rtrb::Consumer<TxItem>) -> Seq<TxView>;

/// The samples that a producer has put into its ring so far.
pub uninterp spec fn sent_samples(p: rtrb::Producer<u32>) -> Seq<u32>;

/// The datagrams that a producer has put into its ring so far.
pub uninterp spec fn sent_datagrams(p: rtrb::Producer<TxItem>) -> Seq<TxView>;

/// How many slots of its ring a producer has seen to be free
/// (`rtrb::Producer::cached_slots`).
pub uninterp spec fn sample_room(p: rtrb::Producer<u32>) -> nat;

/// How many slots of its ring a producer has seen to be free
/// (`rtrb::Producer::cached_slots`).
pub uninterp spec fn datagram_room(p: rtrb::Producer<TxItem>) -> nat;

/// `rtrb::Consumer::slots`: looks how many samples can be read. It finds all
/// that were seen before, and perhaps more behind them, and takes none.
#[verifier::external_body]
fn sample_slots(c: &mut rtrb::Consumer<u32>) -> (n: usize)
    ensures
        n == seen_samples(*final(c)).len(),
        seen_samples(*old(c)).is_prefix_of(seen_samples(*final(c))),
        taken_samples(*final(c)) == taken_samples(*old(c)),
{
    c.slots()
}

/// `rtrb::Consumer::pop` on the capture ring: takes the oldest sample. One that
/// was seen is there; where none was seen, one may have arrived since. What is
/// handed out has been taken, and nothing else.
#[verifier::external_body]
fn sample_pop(c: &mut rtrb::Consumer<u32>) -> (r: Option<u32>)
    ensures
        seen_samples(*old(c)).len() > 0 ==> r == Some(seen_samples(*old(c))[0])
            && seen_samples(*final(c)) == seen_samples(*old(c)).drop_first(),
        r is None ==> seen_samples(*final(c)).len() == 0,
        taken_samples(*final(c)) == match r {
            None => taken_samples(*old(c)),
            Some(v) => taken_samples(*old(c)).push(v),
        },
{
    c.pop().ok()
}

/// `rtrb::Producer::push` on the capture ring: puts the sample behind the
/// others if there is room, and takes nothing in otherwise. A slot that was seen
/// to be free is there; where none was seen, one may have become free since. A
/// refusal means that a fresh look found none.
#[verifier::external_body]
fn sample_push(p: &mut rtrb::Producer<u32>, v: u32) -> (stored: bool)
    ensures
        sent_samples(*final(p)) == if stored {
            sent_samples(*old(p)).push(v)
        } else {
            sent_samples(*old(p))
        },
        sample_room(*old(p)) > 0 ==> stored && sample_room(*final(p)) == sample_room(*old(p)) - 1,
        !stored ==> sample_room(*final(p)) == 0,
{
    p.push(v).is_ok()
}

/// `rtrb::Consumer::pop` on the transmit ring: takes the oldest datagram. One
/// that was seen is there; where none was seen, one may have arrived since. What
/// is handed out has been taken, and nothing else.
#[verifier::external_body]
pub(crate) fn datagram_pop(c: &mut rtrb::Consumer<TxItem>) -> (r: Option<TxItem>)
    ensures
        seen_datagrams(*old(c)).len() > 0 ==> r is Some && r->Some_0@ == seen_datagrams(*old(c))[0]
            && seen_datagrams(*final(c)) == seen_datagrams(*old(c)).drop_first(),
        r is None ==> seen_datagrams(*final(c)).len() == 0,
        taken_datagrams(*final(c)) == match r {
            None => taken_datagrams(*old(c)),
            Some(item) => taken_datagrams(*old(c)).push(item@),
        },
{
    c.pop().ok()
}

/// `rtrb::Producer::push` on the transmit ring: puts the datagram behind the
/// others if there is room, and takes nothing in otherwise. A slot that was seen
/// to be free is there; where none was seen, one may have become free since. A
/// refusal means that a fresh look found none.
#[verifier::external_body]
fn datagram_push(p: &mut rtrb::Producer<TxItem>, item: TxItem) -> (stored: bool)
    ensures
        sent_datagrams(*final(p)) == if stored {
            sent_datagrams(*old(p)).push(item@)
        } else {
            sent_datagrams(*old(p))
        },
        datagram_room(*old(p)) > 0 ==> stored && datagram_room(*final(p)) == datagram_room(*old(p)) - 1,
        !stored ==> datagram_room(*final(p)) == 0,
{
    p.push(item).is_ok()
}

/// The larger of four frames and two device callbacks.
pub open spec fn capture_cap(frame: int, hw_buffer: int) -> int {
    if frame * 4 >= hw_buffer * 2 {
        frame * 4
    } else {
        hw_buffer * 2
    }
}

/// How many captured samples may wait: enough for four frames and for two
/// device callbacks, so that a large output buffer does not consume more per
/// callback than the cap allows.
pub fn drift_cap(frame: usize, hw_buffer: u32) -> (cap: usize)
    requires
        frame * 4 <= usize::MAX,
        hw_buffer * 2 <= usize::MAX,
    ensures
        cap == capture_cap(frame as int, hw_buffer as int),
        cap == if frame * 4 >= hw_buffer * 2 {
            frame * 4
        } else {
            hw_buffer * 2
        },
{
    let frames: usize = frame * 4;
    let buffers: usize = hw_buffer as usize * 2;
    if frames >= buffers {
        frames
    } else {
        buffers
    }
}

/// Keeps the capture ring's occupancy bounded, dropping the oldest samples, so
/// that an input clock that runs fast does not add latency. As many as the cap
/// allows stay. Returns how many samples were dropped, at most `usize::MAX` in
/// one go.
pub fn trim_capture(ring: &mut rtrb::Consumer<u32>, cap: usize) -> (dropped: usize)
    ensures
        seen_samples(*final(ring)).len() <= cap || dropped == usize::MAX,
        dropped > 0 ==> seen_samples(*final(ring)).len() >= cap,
        exists|arrived: Seq<u32>| #[trigger]
            seen_samples(*old(ring)).is_prefix_of(arrived) && dropped <= arrived.len()
                && seen_samples(*final(ring)) == arrived.skip(dropped as int) && taken_samples(
                *final(ring),
            ) == taken_samples(*old(ring)) + arrived.take(dropped as int) && (dropped > 0
                ==> arrived.len() > cap),
{
    let mut dropped: usize = 0;
    let ghost first = seen_samples(*ring);
    let ghost taken = taken_samples(*ring);
    let ghost mut arrived = first;
    let mut waiting: usize = sample_slots(ring);
    proof {
        arrived = seen_samples(*ring);
        assert(arrived.skip(0) =~= arrived);
        assert(taken + arrived.take(0) =~= taken);
    }
    while waiting > cap && dropped < usize::MAX
        invariant
            waiting == seen_samples(*ring).len(),
            dropped <= arrived.len(),
            first.is_prefix_of(arrived),
            seen_samples(*ring) == arrived.skip(dropped as int),
            taken_samples(*ring) == taken + arrived.take(dropped as int),
            dropped > 0 ==> arrived.len() > cap,
            dropped > 0 ==> waiting >= cap,
        decreases usize::MAX - dropped,
    {
        let ghost before = seen_samples(*ring);
        let _ = sample_pop(ring);
        dropped = dropped + 1;
        let ghost popped = seen_samples(*ring);
        waiting = sample_slots(ring);
        proof {
            let now = seen_samples(*ring);
            let grown = arrived.take(dropped as int) + now;
            assert(popped =~= arrived.skip(dropped as int));
            assert(now.take(popped.len() as int) =~= popped);
            assert forall|i: int| 0 <= i < arrived.len() implies arrived[i] == grown[i] by {
                if i >= dropped {
                    assert(now[i - dropped] == popped[i - dropped]);
                }
            }
            assert(first =~= grown.subrange(0, first.len() as int));
            assert(grown.skip(dropped as int) =~= now);
            assert(taken_samples(*ring) =~= taken + grown.take(dropped as int));
            arrived = grown;
        }
    }
    dropped
}

/// Takes one frame of captured samples, or leaves a frame of silence where the
/// ring holds less than a frame. Returns false for silence.
pub fn take_capture(ring: &mut rtrb::Consumer<u32>, frame: &mut [u32]) -> (filled: bool)
    ensures
        final(frame)@.len() == old(frame)@.len(),
        seen_samples(*old(ring)).len() >= old(frame)@.len() ==> filled,
        filled ==> exists|arrived: Seq<u32>| #[trigger]
            seen_samples(*old(ring)).is_prefix_of(arrived) && final(frame)@ == arrived.take(
                old(frame)@.len() as int,
            ) && seen_samples(*final(ring)) == arrived.skip(old(frame)@.len() as int)
                && old(frame)@.len() <= arrived.len(),
        taken_samples(*final(ring)) == if filled {
            taken_samples(*old(ring)) + final(frame)@
        } else {
            taken_samples(*old(ring))
        },
        !filled ==> (forall|i: int| 0 <= i < final(frame)@.len() ==> final(frame)@[i] == 0)
            && seen_samples(*final(ring)).len() < old(frame)@.len() && seen_samples(
            *old(ring),
        ).is_prefix_of(seen_samples(*final(ring))),
{
    let n: usize = frame.len();
    let waiting: usize = sample_slots(ring);
    let mut i: usize = 0;
    if waiting < n {
        while i < n
            invariant
                i <= n,
                n == frame@.len(),
                forall|j: int| 0 <= j < i ==> frame@[j] == 0,
            decreases n - i,
        {
            frame[i] = 0;
            i = i + 1;
        }
        return false;
    }
    let ghost arrived = seen_samples(*ring);
    let ghost taken = taken_samples(*ring);
    assert(arrived.skip(0) =~= arrived);
    assert(taken + arrived.take(0) =~= taken);
    while i < n
        invariant
            i <= n,
            n == frame@.len(),
            n <= arrived.len(),
            seen_samples(*ring) == arrived.skip(i as int),
            taken_samples(*ring) == taken + arrived.take(i as int),
            forall|j: int| 0 <= j < i ==> frame@[j] == arrived[j],
        decreases n - i,
    {
        frame[i] =
        match sample_pop(ring) {
            Some(v) => v,
            None => 0,
        };
        assert(arrived.skip(i as int).drop_first() =~= arrived.skip(i + 1));
        assert((taken + arrived.take(i as int)).push(arrived[i as int]) =~= taken + arrived.take(
            i + 1,
        ));
        i = i + 1;
    }
    assert(frame@ =~= arrived.take(n as int));
    true
}

/// The first sample of each whole frame of an interleaved block of `channels`
/// channels.
pub open spec fn channel_zero(data: Seq<u32>, channels: nat) -> Seq<u32> {
    Seq::new(data.len() / channels, |i: int| data[i * channels])
}

/// The items of `s` that are marked in `keep`, in order.
pub open spec fn selected(s: Seq<u32>, keep: Seq<bool>) -> Seq<u32>
    decreases s.len(),
{
    if s.len() == 0 {
        Seq::empty()
    } else if keep.last() {
        selected(s.drop_last(), keep.drop_last()).push(s.last())
    } else {
        selected(s.drop_last(), keep.drop_last())
    }
}

proof fn lemma_select_next(s: Seq<u32>, keep: Seq<bool>, i: int, k: bool)
    requires
        0 <= i < s.len(),
        keep.len() == i,
    ensures
        selected(s.take(i + 1), keep.push(k)) == if k {
            selected(s.take(i), keep).push(s[i])
        } else {
            selected(s.take(i), keep)
        },
{
    assert(s.take(i + 1).drop_last() =~= s.take(i));
    assert(keep.push(k).drop_last() =~= keep);
}

/// Whether `rooms` can be the numbers of slots that were seen to be free before,
/// between and after the pushes that `keep` tells of: a push takes a slot that
/// was seen, and fails only where none was seen, before and after a fresh look.
pub open spec fn room_trace(keep: Seq<bool>, rooms: Seq<nat>) -> bool {
    &&& rooms.len() == keep.len() + 1
    &&& forall|i: int|
        0 <= i < keep.len() ==> if #[trigger] keep[i] {
            rooms[i] > 0 ==> rooms[i + 1] == rooms[i] - 1
        } else {
            rooms[i] == 0 && rooms[i + 1] == 0
        }
}

/// Puts channel 0 of an interleaved input block into the capture ring; drops
/// samples if the ring is full (the pipeline handles gaps). Returns how many
/// were dropped: none of those for which a slot was seen to be free, neither
/// before the block nor along the way.
pub fn put_capture(ring: &mut rtrb::Producer<u32>, data: &[u32], channels: usize) -> (dropped:
    usize)
    requires
        channels > 0,
    ensures
        ({
            let mono = channel_zero(data@, channels as nat);
            exists|keep: Seq<bool>, rooms: Seq<nat>| #[trigger]
                room_trace(keep, rooms) && rooms.first() == sample_room(*old(ring)) && rooms.last()
                    == sample_room(*final(ring)) && keep.len() == mono.len() && sent_samples(
                    *final(ring),
                ) == sent_samples(*old(ring)) + #[trigger] selected(mono, keep) && dropped == mono.len() - selected(
                    mono,
                    keep,
                ).len() && forall|i: int|
                    0 <= i < keep.len() && i < sample_room(*old(ring)) ==> #[trigger] keep[i]
        }),
        sample_room(*old(ring)) >= data@.len() / channels as nat ==> dropped == 0 && sample_room(
            *final(ring),
        ) == sample_room(*old(ring)) - data@.len() / channels as nat,
        dropped == 0 ==> sent_samples(*final(ring)) == sent_samples(*old(ring)) + channel_zero(
            data@,
            channels as nat,
        ),
{
    let total: usize = data.len();
    let n: usize = total / channels;
    let ghost mono = channel_zero(data@, channels as nat);
    let ghost start = sent_samples(*ring);
    let ghost room = sample_room(*ring);
    let ghost mut keep = Seq::<bool>::empty();
    let ghost mut rooms = seq![room];
    let mut dropped: usize = 0;
    let mut i: usize = 0;
    assert(start + selected(mono.take(0), keep) =~= start);
    assert(start + mono.take(0) =~= start);
    proof {
        vstd::arithmetic::div_mod::lemma_fundamental_div_mod(total as int, channels as int);
    }
    while i < n
        invariant
            i <= n,
            dropped <= i,
            channels > 0,
            total == data@.len(),
            n == total / channels,
            channels * n <= total,
            mono == channel_zero(data@, channels as nat),
            mono.len() == n,
            keep.len() == i,
            sent_samples(*ring) == start + selected(mono.take(i as int), keep),
            dropped == i - selected(mono.take(i as int), keep).len(),
            dropped == 0 ==> sent_samples(*ring) == start + mono.take(i as int),
            i <= room ==> dropped == 0 && sample_room(*ring) == room - i,
            forall|j: int| 0 <= j < i && j < room ==> #[trigger] keep[j],
            room_trace(keep, rooms),
            rooms.first() == room,
            rooms.last() == sample_room(*ring),
        decreases n - i,
    {
        proof {
            assert(i * channels + channels <= channels * n) by (nonlinear_arith)
                requires
                    i < n,
                    channels > 0,
            ;
        }
        let stored = sample_push(ring, data[i * channels]);
        if !stored {
            dropped = dropped + 1;
        }
        proof {
            lemma_select_next(mono, keep, i as int, stored);
            let front = selected(mono.take(i as int), keep);
            assert((start + front).push(mono[i as int]) =~= start + front.push(mono[i as int]));
            assert((start + mono.take(i as int)).push(mono[i as int]) =~= start + mono.take(i + 1));
            let kept = keep.push(stored);
            let seen = rooms.push(sample_room(*ring));
            assert forall|j: int| 0 <= j < kept.len() implies if #[trigger] kept[j] {
                seen[j] > 0 ==> seen[j + 1] == seen[j] - 1
            } else {
                seen[j] == 0 && seen[j + 1] == 0
            } by {
                if j < i {
                    assert(kept[j] == keep[j]);
                }
            }
            keep = kept;
            rooms = seen;
        }
        i = i + 1;
    }
    assert(mono.take(i as int) =~= mono);
    dropped
}

/// Hands a datagram to the transmit thread; drops it if the ring is full. A
/// slot that was seen to be free is taken.
pub fn enqueue(ring: &mut rtrb::Producer<TxItem>, dest: u8, bytes: &[u8]) -> (stored: bool)
    requires
        bytes@.len() <= MAX_DATAGRAM,
    ensures
        sent_datagrams(*final(ring)) == if stored {
            sent_datagrams(*old(ring)).push(TxView { dest, bytes: bytes@ })
        } else {
            sent_datagrams(*old(ring))
        },
        datagram_room(*old(ring)) > 0 ==> stored && datagram_room(*final(ring)) == datagram_room(
            *old(ring),
        ) - 1,
        !stored ==> datagram_room(*final(ring)) == 0,
{
    datagram_push(ring, TxItem::new(dest, bytes))
}

/// Of each whole frame of an interleaved block, and of those alone, the first
/// sample is taken, in order.
pub proof fn law_one_sample_of_each_frame(data: Seq<u32>, channels: nat, i: int)
    requires
        channels > 0,
        0 <= i,
        (i + 1) * channels <= data.len(),
    ensures
        ({
            let mono = channel_zero(data, channels);
            &&& i < mono.len()
            &&& mono[i] == data[i * channels]
            &&& mono.len() * channels <= data.len() < (mono.len() + 1) * channels
        }),
{
    let n = data.len() as int;
    let c = channels as int;
    vstd::arithmetic::div_mod::lemma_fundamental_div_mod(n, c);
    vstd::arithmetic::div_mod::lemma_mod_bound(n, c);
    let q = n / c;
    assert(i + 1 <= q) by (nonlinear_arith)
        requires
            (i + 1) * c <= n,
            n == c * q + n % c,
            0 <= n % c < c,
    ;
    assert(q * c <= n < (q + 1) * c) by (nonlinear_arith)
        requires
            n == c * q + n % c,
            0 <= n % c < c,
    ;
}

/// Selecting goes item by item and keeps the order: what is selected of two
/// sequences one after the other is what is selected of the first, and after it
/// what is selected of the second.
pub proof fn law_selecting_keeps_the_order(
    a: Seq<u32>,
    keep_a: Seq<bool>,
    b: Seq<u32>,
    keep_b: Seq<bool>,
    x: u32,
)
    requires
        a.len() == keep_a.len(),
        b.len() == keep_b.len(),
    ensures
        selected(seq![x], seq![true]) == seq![x],
        selected(seq![x], seq![false]).len() == 0,
        selected(a + b, keep_a + keep_b) == selected(a, keep_a) + selected(b, keep_b),
    decreases b.len(),
{
    reveal_with_fuel(selected, 2);
    assert(seq![x].drop_last() =~= Seq::<u32>::empty());
    assert(selected(seq![x], seq![true]) =~= seq![x]);
    if b.len() == 0 {
        assert(a + b =~= a);
        assert(keep_a + keep_b =~= keep_a);
        assert(selected(a, keep_a) + selected(b, keep_b) =~= selected(a, keep_a));
    } else {
        law_selecting_keeps_the_order(a, keep_a, b.drop_last(), keep_b.drop_last(), x);
        assert((a + b).drop_last() =~= a + b.drop_last());
        assert((keep_a + keep_b).drop_last() =~= keep_a + keep_b.drop_last());
        assert((keep_a + keep_b).last() == keep_b.last());
        assert((a + b).last() == b.last());
        assert(selected(a + b, keep_a + keep_b) =~= selected(a, keep_a) + selected(b, keep_b));
    }
}

/// The cap has room for four frames and for two device callbacks, and for no
/// more than it must.
pub proof fn law_cap_covers_frames_and_callbacks(frame: int, hw_buffer: int)
    ensures
        capture_cap(frame, hw_buffer) >= 4 * frame,
        capture_cap(frame, hw_buffer) >= 2 * hw_buffer,
        capture_cap(frame, hw_buffer) == 4 * frame || capture_cap(frame, hw_buffer) == 2
            * hw_buffer,
{
}

} // verus!
