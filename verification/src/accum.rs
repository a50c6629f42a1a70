//! Fixed-capacity sample FIFO bridging hardware buffer sizes (64/128/256
//! samples) to codec frames (120/240 samples). Single-threaded: lives inside
//! the audio callback. No allocation after construction.
use vstd::prelude::*;

verus! {

#[derive(Debug)]
pub struct SampleFifo<T> {
    buf: Vec<T>,
    head: usize,
    len: usize,
}

/// Where the sample `k` places after `head` is in a ring of `cap` places.
spec fn place(head: int, k: int, cap: int) -> int {
    if head + k < cap {
        head + k
    } else {
        head + k - cap
    }
}

impl<T> View for SampleFifo<T> {
    type V = Seq<T>;

    /// The samples in the FIFO, oldest first.
    closed spec fn view(&self) -> Seq<T> {
        Seq::new(
            self.len as nat,
            |k: int| self.buf@[place(self.head as int, k, self.buf@.len() as int)],
        )
    }
}

/// The last `n` items of `s`, or all of them where there are no more.
pub open spec fn newest<T>(s: Seq<T>, n: nat) -> Seq<T> {
    if s.len() <= n {
        s
    } else {
        s.skip(s.len() - n)
    }
}

/// How many items have to go where `held` and `incoming` together are more than
/// there is room for.
pub open spec fn overflow_of(held: nat, incoming: nat, cap: nat) -> int {
    if held + incoming <= cap {
        0
    } else {
        held + incoming - cap
    }
}

/// The first `n` items and what is left, if there are as many.
pub open spec fn taken<T>(held: Seq<T>, n: nat) -> Option<(Seq<T>, Seq<T>)> {
    if held.len() >= n {
        Some((held.take(n as int), held.skip(n as int)))
    } else {
        None
    }
}

impl<T> SampleFifo<T> {
    /// How many samples the FIFO can hold.
    pub closed spec fn cap(self) -> nat {
        self.buf@.len()
    }

    /// The FIFO holds no more than its capacity.
    pub closed spec fn wf(self) -> bool {
        &&& self.len <= self.buf@.len()
        &&& self.head < self.buf@.len() || self.head == 0
        &&& self.buf@.len() <= isize::MAX
    }

    pub fn len(&self) -> (n: usize)
        ensures
            n == self@.len(),
    {
        self.len
    }

    pub fn is_empty(&self) -> (empty: bool)
        ensures
            empty == (self@.len() == 0),
    {
        self.len == 0
    }

    pub fn capacity(&self) -> (n: usize)
        ensures
            n == self.cap(),
    {
        self.buf.len()
    }
}

impl<T: Copy + Default> SampleFifo<T> {
    pub fn new(capacity: usize) -> (f: Self)
        requires
            capacity <= isize::MAX,
        ensures
            f.wf(),
            f.cap() == capacity,
            f@ == Seq::<T>::empty(),
    {
        let silence: T = T::default();
        let f = SampleFifo { buf: vec![silence; capacity], head: 0, len: 0 };
        assert(f@ =~= Seq::<T>::empty());
        f
    }

    /// Appends samples, dropping the *oldest* ones on overflow so latency
    /// stays bounded. Returns how many were dropped.
    pub fn push(&mut self, samples: &[T]) -> (dropped: usize)
        requires
            old(self).wf(),
            old(self)@.len() + samples@.len() <= usize::MAX,
        ensures
            final(self).wf(),
            final(self).cap() == old(self).cap(),
            final(self)@ == newest(old(self)@ + samples@, old(self).cap()),
            dropped == old(self)@.len() + samples@.len() - final(self)@.len(),
            dropped == overflow_of(old(self)@.len(), samples@.len(), old(self).cap()),
    {
        let cap: usize = self.buf.len();
        let n: usize = samples.len();
        let ghost all = old(self)@ + samples@;
        if n >= cap {
            // Pathological: incoming block alone fills the FIFO.
            let dropped: usize = self.len + n - cap;
            let start: usize = n - cap;
            self.head = 0;
            self.len = cap;
            let mut i: usize = 0;
            while i < cap
                invariant
                    i <= cap,
                    cap == self.buf@.len(),
                    start == n - cap,
                    n == samples@.len(),
                    n >= cap,
                    self.head == 0,
                    self.len == cap,
                    cap <= isize::MAX,
                    forall|j: int| 0 <= j < i ==> self.buf@[j] == samples@[start + j],
                decreases cap - i,
            {
                self.buf[i] = samples[start + i];
                i = i + 1;
            }
            assert(self@ =~= newest(all, cap as nat));
            return dropped;
        }
        let total: usize = self.len + n;
        let overflow: usize = if total > cap {
            total - cap
        } else {
            0
        };
        let head: usize = wrap(self.head + overflow, cap);
        let kept: usize = self.len - overflow;
        let ghost start = overflow as int;
        proof {
            assert forall|k: int| 0 <= k < kept implies self.buf@[place(
                head as int,
                k,
                cap as int,
            )] == all[start + k] by {
                assert(old(self)@[start + k] == self.buf@[place(
                    old(self).head as int,
                    start + k,
                    cap as int,
                )]);
            }
        }
        let mut i: usize = 0;
        while i < n
            invariant
                i <= n,
                n == samples@.len(),
                n < cap,
                cap == self.buf@.len(),
                cap <= isize::MAX,
                head < cap,
                kept + n <= cap,
                kept == old(self).len - start,
                start == overflow,
                all == old(self)@ + samples@,
                old(self)@.len() == old(self).len,
                forall|k: int|
                    0 <= k < kept + i ==> self.buf@[place(head as int, k, cap as int)] == all[start
                        + k],
            decreases n - i,
        {
            let at: usize = wrap(head + (kept + i), cap);
            assert(at == place(head as int, (kept + i) as int, cap as int));
            self.buf[at] = samples[i];
            assert(all[start + kept + i] == samples@[i as int]);
            i = i + 1;
        }
        self.head = head;
        self.len = kept + n;
        assert(self@ =~= newest(all, cap as nat));
        overflow
    }

    /// Pops exactly `out.len()` samples if available; returns false (and
    /// leaves the FIFO untouched) otherwise.
    pub fn pop(&mut self, out: &mut [T]) -> (popped: bool)
        requires
            old(self).wf(),
            old(self).cap() > 0 || old(out)@.len() > 0,
        ensures
            final(self).wf(),
            final(self).cap() == old(self).cap(),
            popped == (old(self)@.len() >= old(out)@.len()),
            match taken(old(self)@, old(out)@.len()) {
                Some((first, rest)) => popped && final(out)@ == first && final(self)@ == rest,
                None => !popped && final(out)@ == old(out)@ && final(self)@ == old(self)@,
            },
            popped ==> final(out)@ == old(self)@.take(old(out)@.len() as int) && final(self)@
                == old(self)@.skip(old(out)@.len() as int),
            !popped ==> final(out)@ == old(out)@ && *final(self) == *old(self),
    {
        let n: usize = out.len();
        if self.len < n {
            return false;
        }
        let cap: usize = self.buf.len();
        let mut i: usize = 0;
        while i < n
            invariant
                i <= n,
                n == out@.len(),
                n <= self.len <= cap,
                cap == self.buf@.len(),
                cap <= isize::MAX,
                self.head < cap,
                *self == *old(self),
                forall|k: int| 0 <= k < i ==> out@[k] == self@[k],
            decreases n - i,
        {
            let at: usize = wrap(self.head + i, cap);
            out[i] = self.buf[at];
            i = i + 1;
        }
        assert(out@ =~= old(self)@.take(n as int));
        self.head = wrap(self.head + n, cap);
        self.len = self.len - n;
        assert(self@ =~= old(self)@.skip(n as int));
        true
    }
}

/// `at` as a place in a ring of `cap` places.
fn wrap(at: usize, cap: usize) -> (p: usize)
    requires
        at < 2 * cap,
    ensures
        p == if at < cap {
            at as int
        } else {
            at - cap
        },
{
    if at < cap {
        at
    } else {
        at - cap
    }
}

/// First in, first out: what is pushed into an empty FIFO with room for it is
/// what a pop of that many samples gives, in order, whatever is pushed behind
/// it without an overflow.
pub proof fn law_first_in_first_out<T>(first: Seq<T>, later: Seq<T>, cap: nat)
    requires
        first.len() + later.len() <= cap,
    ensures
        newest(newest(Seq::<T>::empty() + first, cap) + later, cap).take(first.len() as int)
            == first,
        newest(newest(Seq::<T>::empty() + first, cap) + later, cap).skip(first.len() as int)
            == later,
{
    let held = newest(Seq::<T>::empty() + first, cap);
    assert(held =~= first);
    assert((first + later).take(first.len() as int) =~= first);
    assert((first + later).skip(first.len() as int) =~= later);
}

/// Pushing block after block keeps what pushing all at once would keep.
pub proof fn law_overflow_keeps_the_newest<T>(held: Seq<T>, a: Seq<T>, b: Seq<T>, cap: nat)
    ensures
        newest(newest(held + a, cap) + b, cap) == newest(held + a + b, cap),
{
    assert(newest(newest(held + a, cap) + b, cap) =~= newest(held + a + b, cap));
}

/// What is kept is the end of what came in: as much of it as there is room for,
/// and the last item that came in is the last that is kept.
pub proof fn law_the_end_is_kept<T>(s: Seq<T>, cap: nat, k: int)
    requires
        0 <= k < s.len(),
        k < cap,
    ensures
        newest(s, cap).len() == if s.len() < cap {
            s.len()
        } else {
            cap
        },
        newest(s, cap)[newest(s, cap).len() - 1 - k] == s[s.len() - 1 - k],
{
}

/// What is dropped and what is kept make up what was there and what came in;
/// nothing is dropped as long as there is room.
pub proof fn law_dropped_and_kept_add_up<T>(held: Seq<T>, incoming: Seq<T>, cap: nat)
    requires
        held.len() <= cap,
    ensures
        overflow_of(held.len(), incoming.len(), cap) + newest(held + incoming, cap).len()
            == held.len() + incoming.len(),
        held.len() + incoming.len() <= cap ==> overflow_of(held.len(), incoming.len(), cap) == 0
            && newest(held + incoming, cap) == held + incoming,
{
}

/// Items are taken only as many at a time as asked for, from the front: what is
/// taken and what is left make up what was there.
pub proof fn law_taken_and_left_add_up<T>(held: Seq<T>, n: nat)
    ensures
        taken(held, n) is Some <==> held.len() >= n,
        taken(held, n) matches Some((first, rest)) ==> first.len() == n && first + rest == held,
{
    if held.len() >= n {
        assert(held.take(n as int) + held.skip(n as int) =~= held);
    }
}

} // verus!
