//! Wraparound-safe 16-bit sequence number arithmetic (RFC 1982 style).
use vstd::prelude::*;

verus! {

/// Signed distance from `b` to `a` on the ring of 16-bit numbers, in
/// `-32768..=32767`.
pub open spec fn ring_diff(a: u16, b: u16) -> int {
    let d = (a - b) % 0x1_0000;
    if d < 0x8000 {
        d
    } else {
        d - 0x1_0000
    }
}

/// The number `k` steps after `a` on the ring.
pub open spec fn ring_add(a: u16, k: int) -> u16 {
    ((a + k) % 0x1_0000) as u16
}

/// True if `a` is strictly newer than `b`, treating the u16 space as a ring.
/// Correct as long as the two values are within 32767 steps of each other.
pub fn newer_than(a: u16, b: u16) -> (newer: bool)
    ensures
        newer == (ring_diff(a, b) > 0),
{
    diff(a, b) > 0
}

/// Signed distance from `b` to `a` on the ring: positive if `a` is newer.
pub fn diff(a: u16, b: u16) -> (d: i16)
    ensures
        d == ring_diff(a, b),
{
    let step: u16 = a.wrapping_sub(b);
    assert(step == (a - b) % 0x1_0000);
    assert(step < 0x8000 ==> (step as i16) == step) by (bit_vector);
    assert(step >= 0x8000 ==> (step as i16) == step - 0x1_0000) by (bit_vector);
    #[verifier::truncate]
    (step as i16)
}

/// Monotonic sequence generator for one sender: the field is the number that
/// the next packet gets.
#[derive(Debug)]
pub struct SeqGen(pub u16);

impl Default for SeqGen {
    fn default() -> (g: Self)
        ensures
            g.0 == 0,
    {
        SeqGen(0)
    }
}

impl SeqGen {
    pub fn new() -> (g: Self)
        ensures
            g.0 == 0,
    {
        SeqGen(0)
    }

    /// Returns the next sequence number to stamp on an outgoing packet.
    pub fn next(&mut self) -> (s: u16)
        ensures
            s == old(self).0,
            final(self).0 == ring_add(old(self).0, 1),
    {
        let s: u16 = self.0;
        self.0 = self.0.wrapping_add(1);
        s
    }

    /// The sequence number the next call to `next()` will return.
    pub fn peek(&self) -> (s: u16)
        ensures
            s == self.0,
    {
        self.0
    }
}

/// A number that is up to 32767 steps ahead of another is newer than it, the
/// other is not newer, and `diff` counts the steps both ways.
pub proof fn law_steps_ahead_are_newer(b: u16, k: int)
    requires
        0 < k <= 0x7FFF,
    ensures
        ring_diff(ring_add(b, k), b) == k,
        ring_diff(b, ring_add(b, k)) == -k,
{
}

/// No number is newer than itself, and of two numbers at most one is newer.
pub proof fn law_newer_is_asymmetric(a: u16, b: u16)
    ensures
        ring_diff(a, a) == 0,
        !(ring_diff(a, b) > 0 && ring_diff(b, a) > 0),
        ring_diff(a, b) == 0 <==> a == b,
        ring_diff(a, b) > -0x8000 ==> ring_diff(b, a) == -ring_diff(a, b),
{
}

/// A number is found again by walking the signed distance from another.
pub proof fn law_diff_leads_back(a: u16, b: u16)
    ensures
        ring_add(b, ring_diff(a, b)) == a,
{
}

/// Each number that the generator hands out is newer than the up to 32767
/// numbers handed out before it.
pub proof fn law_generated_numbers_ascend(g: SeqGen, k: int)
    requires
        0 < k <= 0x7FFF,
    ensures
        ring_diff(g.0, ring_add(g.0, -k)) == k,
        ring_add(ring_add(g.0, -k), k) == g.0,
{
}

/// Counting on goes through all the numbers of 16 bits and starts again at
/// zero; the distance between two numbers that are less than half the way
/// around apart is their difference, also where the count starts again.
pub proof fn law_numbers_start_again_at_zero(a: u16, k: int, b: u16)
    requires
        0 <= k <= 0xFFFF,
    ensures
        a + k <= 0xFFFF ==> ring_add(a, k) == a + k,
        a + k > 0xFFFF ==> ring_add(a, k) == a + k - 0x1_0000,
        -0x8000 <= a - b < 0x8000 ==> ring_diff(a, b) == a - b,
        a - b >= 0x8000 ==> ring_diff(a, b) == a - b - 0x1_0000,
        a - b < -0x8000 ==> ring_diff(a, b) == a - b + 0x1_0000,
{
}

pub proof fn lemma_ring_add_zero(a: u16)
    ensures
        ring_add(a, 0) == a,
{
}

pub proof fn lemma_ring_add_step(a: u16, k: int)
    ensures
        ring_add(ring_add(a, k), 1) == ring_add(a, k + 1),
{
}

} // verus!
