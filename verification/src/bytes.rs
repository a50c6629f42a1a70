//! Big-endian integers in byte slices.
use vstd::prelude::*;

verus! {

/// `256` to the power `n`: how many values `n` bytes can hold.
pub open spec fn pow256(n: nat) -> nat
    decreases n,
{
    if n == 0 {
        1
    } else {
        256 * pow256((n - 1) as nat)
    }
}

/// The low `n` bytes of `v`, most significant byte first.
pub open spec fn be_bytes(v: nat, n: nat) -> Seq<u8>
    decreases n,
{
    if n == 0 {
        Seq::empty()
    } else {
        be_bytes(v / 256, (n - 1) as nat).push((v % 256) as u8)
    }
}

/// The number that the bytes of `s` spell, most significant byte first.
pub open spec fn be_value(s: Seq<u8>) -> nat
    decreases s.len(),
{
    if s.len() == 0 {
        0
    } else {
        be_value(s.drop_last()) * 256 + s.last() as nat
    }
}

/// `s` with the bytes from `at` on replaced by `b`.
pub open spec fn overwrite(s: Seq<u8>, at: int, b: Seq<u8>) -> Seq<u8> {
    s.take(at) + b + s.skip(at + b.len())
}

pub proof fn lemma_pow256()
    ensures
        pow256(1) == 0x100,
        pow256(2) == 0x1_0000,
        pow256(4) == 0x1_0000_0000,
        pow256(8) == 0x1_0000_0000_0000_0000,
{
    reveal_with_fuel(pow256, 9);
}

pub proof fn lemma_be_bytes_len(v: nat, n: nat)
    ensures
        be_bytes(v, n).len() == n,
    decreases n,
{
    if n > 0 {
        lemma_be_bytes_len(v / 256, (n - 1) as nat);
    }
}

pub proof fn lemma_be_bytes_one(v: u8)
    ensures
        be_bytes(v as nat, 1) == seq![v],
{
    reveal_with_fuel(be_bytes, 2);
    assert(be_bytes(v as nat, 1) =~= seq![v]);
}

/// A number that fits comes back from its bytes.
pub proof fn lemma_be_value_of_bytes(v: nat, n: nat)
    requires
        v < pow256(n),
    ensures
        be_value(be_bytes(v, n)) == v,
    decreases n,
{
    if n > 0 {
        lemma_be_value_of_bytes(v / 256, (n - 1) as nat);
        let s = be_bytes(v, n);
        assert(s.drop_last() =~= be_bytes(v / 256, (n - 1) as nat));
    }
}

/// The bytes come back from the number that they spell.
pub proof fn lemma_be_bytes_of_value(s: Seq<u8>)
    ensures
        be_bytes(be_value(s), s.len()) == s,
        be_value(s) < pow256(s.len()),
    decreases s.len(),
{
    if s.len() > 0 {
        lemma_be_bytes_of_value(s.drop_last());
        let v = be_value(s);
        assert(v / 256 == be_value(s.drop_last()));
        assert(s =~= s.drop_last().push(s.last()));
    }
}

pub proof fn lemma_overwrite_append(s: Seq<u8>, at: int, a: Seq<u8>, k: int, b: Seq<u8>)
    requires
        0 <= at,
        k == at + a.len(),
        k + b.len() <= s.len(),
    ensures
        overwrite(overwrite(s, at, a), k, b) == overwrite(s, at, a + b),
{
    assert(overwrite(overwrite(s, at, a), k, b) =~= overwrite(s, at, a + b));
}

/// Writes the low `width` bytes of `v` at `at`; returns the end of them.
pub fn put_uint(out: &mut [u8], at: usize, v: u64, width: usize) -> (end: usize)
    requires
        at + width <= old(out)@.len(),
    ensures
        end == at + width,
        final(out)@ == overwrite(old(out)@, at as int, be_bytes(v as nat, width as nat)),
{
    let total: usize = out.len();
    let mut rest: u64 = v;
    let mut i: usize = width;
    while i > 0
        invariant
            i <= width,
            at + width <= total,
            total == out@.len(),
            out@.len() == old(out)@.len(),
            be_bytes(v as nat, width as nat) == be_bytes(rest as nat, i as nat)
                + out@.subrange(at + i, at + width),
            out@.take(at as int) == old(out)@.take(at as int),
            out@.skip(at + width) == old(out)@.skip(at + width),
        decreases i,
    {
        let ghost before = out@;
        let low: u8 = (rest % 256) as u8;
        out[at + i - 1] = low;
        proof {
            let b = be_bytes(rest as nat, i as nat);
            assert(b == be_bytes((rest / 256) as nat, (i - 1) as nat).push(low));
            assert(b + before.subrange(at + i, at + width) =~= be_bytes(
                (rest / 256) as nat,
                (i - 1) as nat,
            ) + out@.subrange(at + i - 1, at + width));
            assert(out@.take(at as int) =~= before.take(at as int));
            assert(out@.skip(at + width) =~= before.skip(at + width));
        }
        rest = rest / 256;
        i = i - 1;
    }
    proof {
        lemma_be_bytes_len(v as nat, width as nat);
        let b = be_bytes(v as nat, width as nat);
        assert(b =~= out@.subrange(at as int, at + width));
        assert(out@ =~= out@.take(at as int) + b + out@.skip(at + width));
    }
    at + width
}

/// Copies `src` to `at`; returns the end of the copy.
pub fn put_slice(out: &mut [u8], at: usize, src: &[u8]) -> (end: usize)
    requires
        at + src@.len() <= old(out)@.len(),
    ensures
        end == at + src@.len(),
        final(out)@ == overwrite(old(out)@, at as int, src@),
{
    let total: usize = out.len();
    let mut i: usize = 0;
    while i < src.len()
        invariant
            i <= src@.len(),
            at + src@.len() <= total,
            total == out@.len(),
            out@ == overwrite(old(out)@, at as int, src@.take(i as int)),
            out@.len() == old(out)@.len(),
        decreases src@.len() - i,
    {
        out[at + i] = src[i];
        i = i + 1;
        assert(out@ =~= overwrite(old(out)@, at as int, src@.take(i as int)));
    }
    assert(src@.take(i as int) =~= src@);
    at + src.len()
}

/// Reads the number in the `width` bytes from `at` on.
pub fn get_uint(buf: &[u8], at: usize, width: usize) -> (v: u64)
    requires
        at + width <= buf@.len(),
        width <= 8,
    ensures
        v == be_value(buf@.subrange(at as int, at + width)),
        v < pow256(width as nat),
{
    let total: usize = buf.len();
    let mut v: u64 = 0;
    let mut i: usize = 0;
    proof {
        lemma_be_bytes_of_value(buf@.subrange(at as int, at + width));
    }
    while i < width
        invariant
            i <= width,
            width <= 8,
            at + width <= total,
            total == buf@.len(),
            v == be_value(buf@.subrange(at as int, at + i)),
        decreases width - i,
    {
        proof {
            let s = buf@.subrange(at as int, at + i + 1);
            assert(s.drop_last() =~= buf@.subrange(at as int, at + i));
            lemma_be_bytes_of_value(s);
            lemma_pow256_le((i + 1) as nat, 8);
            lemma_pow256();
        }
        v = v * 256 + buf[at + i] as u64;
        i = i + 1;
    }
    v
}

pub proof fn lemma_pow256_le(m: nat, n: nat)
    requires
        m <= n,
    ensures
        pow256(m) <= pow256(n),
    decreases n,
{
    if m < n {
        lemma_pow256_le(m, (n - 1) as nat);
    }
}

/// The most significant byte comes first.
pub proof fn law_numbers_are_big_endian(two: u16, four: u32, eight: u64)
    ensures
        be_bytes(two as nat, 2) == seq![(two / 0x100) as u8, (two % 0x100) as u8],
        be_bytes(four as nat, 4) == seq![
            (four / 0x100_0000) as u8,
            (four / 0x1_0000 % 0x100) as u8,
            (four / 0x100 % 0x100) as u8,
            (four % 0x100) as u8,
        ],
        be_bytes(eight as nat, 8) == be_bytes((eight / 0x1_0000_0000) as nat, 4) + be_bytes(
            (eight % 0x1_0000_0000) as nat,
            4,
        ),
{
    reveal_with_fuel(be_bytes, 9);
    assert(be_bytes(two as nat, 2) =~= seq![(two / 0x100) as u8, (two % 0x100) as u8]);
    assert(be_bytes(four as nat, 4) =~= seq![
        (four / 0x100_0000) as u8,
        (four / 0x1_0000 % 0x100) as u8,
        (four / 0x100 % 0x100) as u8,
        (four % 0x100) as u8,
    ]);
    assert(be_bytes(eight as nat, 8) =~= be_bytes((eight / 0x1_0000_0000) as nat, 4) + be_bytes(
        (eight % 0x1_0000_0000) as nat,
        4,
    ));
}

/// To write somewhere changes what is there, and nothing before or behind it.
pub proof fn law_writing_stays_in_place(s: Seq<u8>, at: int, b: Seq<u8>, i: int)
    requires
        0 <= at,
        at + b.len() <= s.len(),
        0 <= i < s.len(),
    ensures
        overwrite(s, at, b).len() == s.len(),
        at <= i < at + b.len() ==> overwrite(s, at, b)[i] == b[i - at],
        i < at || at + b.len() <= i ==> overwrite(s, at, b)[i] == s[i],
{
}

} // verus!
