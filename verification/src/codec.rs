//! PCM frames on the wire: each sample is a little-endian word, the bits of a
//! single-precision number or a 16-bit integer.
use crate::packet::Codec;
use crate::MAX_FRAME_SAMPLES;
use vstd::prelude::*;

verus! {

#[derive(Debug, Clone, Copy, PartialEq, Eq, Structural)]
pub enum CodecError {
    /// The output buffer is too small.
    OutputTooSmall,
    /// The payload length does not fit the PCM codec.
    BadPcmLength,
}

/// The bytes of one sample in a PCM codec.
pub open spec fn sample_width(codec: Codec) -> int {
    match codec {
        Codec::PcmS16 => 2,
        _ => 4,
    }
}

/// The word of a 16-bit sample.
pub open spec fn s16_bits(v: i16) -> int {
    if v < 0 {
        v + 0x1_0000
    } else {
        v as int
    }
}

/// Byte `j` of a word, the least significant first.
pub open spec fn word_byte(w: u32, j: int) -> u8 {
    if j == 0 {
        (w % 0x100) as u8
    } else if j == 1 {
        (w / 0x100 % 0x100) as u8
    } else if j == 2 {
        (w / 0x1_0000 % 0x100) as u8
    } else {
        (w / 0x100_0000) as u8
    }
}

/// The payload of a PCM frame.
pub open spec fn pcm_bytes(codec: Codec, words: Seq<u32>) -> Seq<u8> {
    let width = sample_width(codec);
    Seq::new(
        (words.len() * width) as nat,
        |k: int| word_byte(words[k / width], k % width),
    )
}

/// The word that starts at byte `at` of a PCM payload.
pub open spec fn word_at(codec: Codec, payload: Seq<u8>, at: int) -> u32 {
    if sample_width(codec) == 2 {
        (payload[at] + payload[at + 1] * 0x100) as u32
    } else {
        (payload[at] + payload[at + 1] * 0x100 + payload[at + 2] * 0x1_0000 + payload[at + 3]
            * 0x100_0000) as u32
    }
}

/// The words of a PCM payload.
pub open spec fn pcm_words(codec: Codec, payload: Seq<u8>) -> Seq<u32> {
    let width = sample_width(codec);
    Seq::new((payload.len() / width as nat) as nat, |i: int| word_at(codec, payload, i * width))
}

/// The word of a 16-bit sample.
pub fn s16_to_word(v: i16) -> (w: u32)
    ensures
        w == s16_bits(v),
{
    if v < 0 {
        (v as i32 + 0x1_0000) as u32
    } else {
        v as u32
    }
}

/// The 16-bit sample of a word.
pub fn word_to_s16(w: u32) -> (v: i16)
    requires
        w < 0x1_0000,
    ensures
        s16_bits(v) == w,
{
    if w < 0x8000 {
        w as i16
    } else {
        (w as i32 - 0x1_0000) as i16
    }
}

proof fn lemma_frame_len(n: int, width: int)
    requires
        0 <= n,
        width == 2 || width == 4,
    ensures
        n * width / width == n,
{
    if width == 2 {
        assert(n * 2 / 2 == n);
    } else {
        assert(n * 4 / 4 == n);
    }
}

/// Encodes one frame of PCM words. Returns bytes written into `out`.
pub fn pcm_encode(codec: Codec, words: &[u32], out: &mut [u8]) -> (r: Result<usize, CodecError>)
    requires
        codec != Codec::Opus,
        words@.len() <= MAX_FRAME_SAMPLES,
    ensures
        ({
            let payload = pcm_bytes(codec, words@);
            if old(out)@.len() < payload.len() {
                r == Err::<usize, _>(CodecError::OutputTooSmall) && final(out)@ == old(out)@
            } else {
                r matches Ok(n) && n == payload.len() && final(out)@ == payload + old(out)@.skip(
                    payload.len() as int,
                )
            }
        }),
{
    let width: usize = match codec {
        Codec::PcmS16 => 2,
        _ => 4,
    };
    let need: usize = words.len() * width;
    if out.len() < need {
        return Err(CodecError::OutputTooSmall);
    }
    let ghost payload = pcm_bytes(codec, words@);
    let mut i: usize = 0;
    while i < words.len()
        invariant
            i <= words@.len() <= MAX_FRAME_SAMPLES,
            width == sample_width(codec),
            width == 2 || width == 4,
            need == words@.len() * width,
            need <= out@.len(),
            out@.len() == old(out)@.len(),
            payload == pcm_bytes(codec, words@),
            forall|k: int| 0 <= k < i * width ==> out@[k] == payload[k],
            forall|k: int| i * width <= k < out@.len() ==> out@[k] == old(out)@[k],
        decreases words@.len() - i,
    {
        let w: u32 = words[i];
        let at: usize = i * width;
        out[at] = (w % 0x100) as u8;
        out[at + 1] = (w / 0x100 % 0x100) as u8;
        if width == 4 {
            out[at + 2] = (w / 0x1_0000 % 0x100) as u8;
            out[at + 3] = (w / 0x100_0000) as u8;
        }
        assert forall|k: int| at <= k < at + width implies out@[k] == payload[k] by {
            assert(k / width as int == i && k % width as int == k - at);
        }
        i = i + 1;
    }
    assert(out@ =~= payload + old(out)@.skip(payload.len() as int));
    Ok(need)
}

/// What a frame of `n` samples is decoded to: silence where it is lost.
pub open spec fn pcm_decoded(codec: Codec, payload: Option<Seq<u8>>, n: nat) -> Result<
    Seq<u32>,
    CodecError,
> {
    match payload {
        None => Ok(Seq::new(n, |i: int| 0u32)),
        Some(p) => {
            if p.len() != n * sample_width(codec) {
                Err(CodecError::BadPcmLength)
            } else {
                Ok(pcm_words(codec, p))
            }
        },
    }
}

/// Decodes one frame into `words`. `payload = None` conceals a lost frame with
/// silence.
pub fn pcm_decode(codec: Codec, payload: Option<&[u8]>, words: &mut [u32]) -> (r: Result<
    (),
    CodecError,
>)
    requires
        codec != Codec::Opus,
        old(words)@.len() <= MAX_FRAME_SAMPLES,
    ensures
        final(words)@.len() == old(words)@.len(),
        ({
            let encoded = match payload {
                None => None,
                Some(p) => Some(p@),
            };
            match pcm_decoded(codec, encoded, old(words)@.len()) {
                Ok(decoded) => r is Ok && final(words)@ == decoded,
                Err(e) => r == Err::<(), _>(e) && final(words)@ == old(words)@,
            }
        }),
        match payload {
            None => r is Ok && forall|i: int|
                0 <= i < final(words)@.len() ==> final(words)@[i] == 0,
            Some(p) => {
                if p@.len() != old(words)@.len() * sample_width(codec) {
                    r == Err::<(), _>(CodecError::BadPcmLength) && final(words)@ == old(words)@
                } else {
                    r is Ok && final(words)@ == pcm_words(codec, p@)
                }
            },
        },
{
    let n: usize = words.len();
    let width: usize = match codec {
        Codec::PcmS16 => 2,
        _ => 4,
    };
    let mut i: usize = 0;
    match payload {
        None => {
            while i < n
                invariant
                    i <= n,
                    n == words@.len(),
                    n == old(words)@.len(),
                    forall|j: int| 0 <= j < i ==> words@[j] == 0,
                decreases n - i,
            {
                words[i] = 0;
                i = i + 1;
            }
            Ok(())
        },
        Some(p) => {
            if p.len() != n * width {
                return Err(CodecError::BadPcmLength);
            }
            while i < n
                invariant
                    i <= n <= MAX_FRAME_SAMPLES,
                    n == words@.len(),
                    n == old(words)@.len(),
                    width == sample_width(codec),
                    width == 2 || width == 4,
                    p@.len() == n * width,
                    forall|j: int| 0 <= j < i ==> words@[j] == word_at(codec, p@, j * width),
                decreases n - i,
            {
                let at: usize = i * width;
                let low: u32 = p[at] as u32 + p[at + 1] as u32 * 0x100;
                words[i] =
                if width == 2 {
                    low
                } else {
                    low + p[at + 2] as u32 * 0x1_0000 + p[at + 3] as u32 * 0x100_0000
                };
                i = i + 1;
            }
            proof {
                lemma_frame_len(n as int, width as int);
                assert(words@ =~= pcm_words(codec, p@));
            }
            Ok(())
        },
    }
}

/// PCM is exact: what is encoded is what is decoded, bit for bit, for words
/// that fit the codec.
pub proof fn law_pcm_round_trip(codec: Codec, words: Seq<u32>)
    requires
        codec == Codec::PcmS16 ==> forall|i: int|
            0 <= i < words.len() ==> #[trigger] words[i] < 0x1_0000,
    ensures
        pcm_words(codec, pcm_bytes(codec, words)) == words,
{
    let width = sample_width(codec);
    let payload = pcm_bytes(codec, words);
    let back = pcm_words(codec, payload);
    lemma_frame_len(words.len() as int, width);
    assert forall|i: int| 0 <= i < words.len() implies back[i] == words[i] by {
        let w = words[i];
        assert(forall|j: int|
            0 <= j < width ==> payload[#[trigger] (i * width + j)] == word_byte(w, j)) by {
            assert forall|j: int| 0 <= j < width implies payload[#[trigger] (i * width + j)]
                == word_byte(w, j) by {
                assert((i * width + j) / width == i && (i * width + j) % width == j);
            }
        }
        assert(payload[i * width + 0] == word_byte(w, 0));
        assert(payload[i * width + 1] == word_byte(w, 1));
        if width == 4 {
            assert(payload[i * width + 2] == word_byte(w, 2));
            assert(payload[i * width + 3] == word_byte(w, 3));
        }
    }
    assert(back =~= words);
}

/// Every 16-bit sample has its own word, which fits the codec.
pub proof fn law_s16_words_fit(a: i16, b: i16)
    ensures
        0 <= s16_bits(a) < 0x1_0000,
        s16_bits(a) == s16_bits(b) ==> a == b,
{
}

/// Each sample takes two bytes or four, the least significant first; samples
/// follow each other without a gap.
pub proof fn law_pcm_is_little_endian(codec: Codec, words: Seq<u32>, i: int)
    requires
        codec != Codec::Opus,
        0 <= i < words.len(),
    ensures
        codec == Codec::PcmS16 ==> {
            let b = pcm_bytes(codec, words);
            &&& b.len() == 2 * words.len()
            &&& words[i] < 0x1_0000 ==> b[2 * i] + 0x100 * b[2 * i + 1] == words[i]
        },
        codec == Codec::PcmF32 ==> {
            let b = pcm_bytes(codec, words);
            &&& b.len() == 4 * words.len()
            &&& b[4 * i] + 0x100 * b[4 * i + 1] + 0x1_0000 * b[4 * i + 2] + 0x100_0000 * b[4 * i
                + 3] == words[i]
        },
{
    let w = words[i];
    if codec == Codec::PcmS16 {
        assert((2 * i) / 2 == i && (2 * i) % 2 == 0);
        assert((2 * i + 1) / 2 == i && (2 * i + 1) % 2 == 1);
    } else {
        assert((4 * i) / 4 == i && (4 * i) % 4 == 0);
        assert((4 * i + 1) / 4 == i && (4 * i + 1) % 4 == 1);
        assert((4 * i + 2) / 4 == i && (4 * i + 2) % 4 == 2);
        assert((4 * i + 3) / 4 == i && (4 * i + 3) % 4 == 3);
    }
}

/// A sample that is not negative is its own word; a negative one is as far from
/// 65536 as it is from zero.
pub proof fn law_s16_is_twos_complement(v: i16)
    ensures
        v >= 0 ==> s16_bits(v) == v,
        v < 0 ==> s16_bits(v) - v == 0x1_0000,
{
}

/// A frame is decoded only if it is as long as its samples: two bytes for each
/// of 16 bits, and four for each of 32. What was encoded is then what is
/// decoded; a lost frame is silence.
pub proof fn law_frames_are_decoded_whole(codec: Codec, words: Seq<u32>, payload: Seq<u8>, i: int)
    requires
        codec != Codec::Opus,
        codec == Codec::PcmS16 ==> forall|j: int|
            0 <= j < words.len() ==> #[trigger] words[j] < 0x1_0000,
        0 <= i < words.len(),
    ensures
        pcm_decoded(codec, Some(pcm_bytes(codec, words)), words.len()) == Ok::<_, CodecError>(
            words,
        ),
        codec == Codec::PcmS16 && payload.len() != 2 * words.len() ==> pcm_decoded(
            codec,
            Some(payload),
            words.len(),
        ) == Err::<Seq<u32>, _>(CodecError::BadPcmLength),
        codec == Codec::PcmF32 && payload.len() != 4 * words.len() ==> pcm_decoded(
            codec,
            Some(payload),
            words.len(),
        ) == Err::<Seq<u32>, _>(CodecError::BadPcmLength),
        pcm_decoded(codec, None, words.len()) matches Ok(silence) && silence.len() == words.len()
            && silence[i] == 0,
{
    law_pcm_round_trip(codec, words);
}

} // verus!
