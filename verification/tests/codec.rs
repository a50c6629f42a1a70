use jam::codec::{pcm_decode, pcm_encode, s16_to_word, word_to_s16, CodecError};
use jam::packet::Codec;
use jam::{DEFAULT_FRAME_SAMPLES, SAMPLE_RATE};

fn tone(n: usize) -> Vec<f32> {
    (0..n)
        .map(|i| (2.0 * std::f32::consts::PI * 440.0 * i as f32 / SAMPLE_RATE as f32).sin() * 0.5)
        .collect()
}

fn encode(codec: Codec, pcm: &[f32], out: &mut [u8]) -> Result<usize, CodecError> {
    let words: Vec<u32> = pcm
        .iter()
        .map(|&x| match codec {
            Codec::PcmS16 => s16_to_word((x.clamp(-1.0, 1.0) * i16::MAX as f32) as i16),
            _ => x.to_bits(),
        })
        .collect();
    pcm_encode(codec, &words, out)
}

fn decode(codec: Codec, payload: Option<&[u8]>, pcm: &mut [f32]) -> Result<(), CodecError> {
    let mut words = vec![7u32; pcm.len()];
    pcm_decode(codec, payload, &mut words)?;
    for (x, &w) in pcm.iter_mut().zip(words.iter()) {
        *x = match codec {
            Codec::PcmS16 => word_to_s16(w) as f32 / i16::MAX as f32,
            _ => f32::from_bits(w),
        };
    }
    Ok(())
}

#[test]
fn pcm_s16_roundtrip() {
    let signal = tone(DEFAULT_FRAME_SAMPLES);
    let mut out = [0u8; 1024];
    let mut back = [0.0f32; DEFAULT_FRAME_SAMPLES];
    let n = encode(Codec::PcmS16, &signal, &mut out).unwrap();
    assert_eq!(n, DEFAULT_FRAME_SAMPLES * 2);
    decode(Codec::PcmS16, Some(&out[..n]), &mut back).unwrap();
    for (a, b) in signal.iter().zip(back.iter()) {
        assert!((a - b).abs() < 1e-3);
    }
}

#[test]
fn pcm_f32_roundtrip_is_bit_exact() {
    let signal = tone(DEFAULT_FRAME_SAMPLES);
    let mut out = [0u8; 1024];
    let mut back = [0.0f32; DEFAULT_FRAME_SAMPLES];
    let n = encode(Codec::PcmF32, &signal, &mut out).unwrap();
    decode(Codec::PcmF32, Some(&out[..n]), &mut back).unwrap();
    assert_eq!(signal, back.to_vec());
}

#[test]
fn pcm_rejects_bad_length() {
    let mut back = [0.0f32; DEFAULT_FRAME_SAMPLES];
    assert!(decode(Codec::PcmS16, Some(&[0u8; 7]), &mut back).is_err());
}

#[test]
fn pcm_is_little_endian() {
    let mut out = [0xEEu8; 9];
    assert_eq!(
        pcm_encode(Codec::PcmF32, &[0x0403_0201, 0xFFFE_FDFC], &mut out),
        Ok(8)
    );
    assert_eq!(out, [1, 2, 3, 4, 0xFC, 0xFD, 0xFE, 0xFF, 0xEE]);
    assert_eq!(pcm_encode(Codec::PcmS16, &[0x0201], &mut out), Ok(2));
    assert_eq!(&out[..4], &[1, 2, 3, 4]);
    let mut words = [0u32; 2];
    pcm_decode(Codec::PcmF32, Some(&out[..8]), &mut words).unwrap();
    assert_eq!(words, [0x0403_0201, 0xFFFE_FDFC]);
    pcm_decode(Codec::PcmS16, Some(&out[..4]), &mut words).unwrap();
    assert_eq!(words, [0x0201, 0x0403]);
}

#[test]
fn pcm_needs_room() {
    let mut out = [5u8; 3];
    assert_eq!(
        pcm_encode(Codec::PcmF32, &[1], &mut out),
        Err(CodecError::OutputTooSmall)
    );
    assert_eq!(out, [5; 3]);
}

#[test]
fn lost_pcm_frames_are_silent() {
    let mut words = [9u32; 4];
    assert_eq!(pcm_decode(Codec::PcmF32, None, &mut words), Ok(()));
    assert_eq!(words, [0; 4]);
    let mut words = [9u32; 4];
    assert_eq!(
        pcm_decode(Codec::PcmF32, Some(&[0; 15]), &mut words),
        Err(CodecError::BadPcmLength)
    );
    assert_eq!(words, [9; 4]);
}

#[test]
fn sixteen_bit_samples_survive() {
    for v in [0, 1, -1, i16::MAX, i16::MIN, 1234, -4321] {
        let w = s16_to_word(v);
        assert!(w < 0x1_0000);
        assert_eq!(word_to_s16(w), v);
    }
    assert_eq!(s16_to_word(-1), 0xFFFF);
}
