//! What the command line's values mean.
use crate::engine::{EngineParams, MonitorMode};
use crate::net;
use crate::net::lcg_next;
use crate::packet::Codec;
use crate::{ROOM_CODE_LEN, SAMPLE_RATE};
use vstd::prelude::*;
use vstd::string::{StrSliceExecFns, StringExecFns};
use vstd::utf8;

verus! {

/// The audio options of the command line.
#[derive(Debug, Clone)]
pub struct AudioArgs {
    /// Input device name substring (default: system default).
    pub input: Option<String>,
    /// Output device name substring (default: system default).
    pub output: Option<String>,
    /// Hardware buffer size in samples (64/128/256; smaller = lower latency).
    pub buffer: u32,
    /// Network frame length in ms (2.5 or 5).
    pub frame: String,
    /// Opus bitrate in kbit/s.
    pub bitrate: u32,
    /// Send each frame twice (previous frame piggybacked) to repair single
    /// packet losses at the cost of double audio bandwidth.
    pub redundancy: bool,
    /// Self-monitoring: direct (local, instant), mix (through the host), off
    /// (use your interface's hardware monitoring).
    pub monitor: String,
    /// Fix the jitter buffer at N frames instead of adapting (testing).
    pub jitter: Option<i32>,
    /// Disable continuous clock-drift correction (falls back to occasional
    /// frame drop/insert at quiet moments).
    pub no_drift: bool,
    /// Use raw PCM instead of Opus (LAN only; ~1 Mbit/s per stream).
    pub pcm: bool,
    /// Drop this share of outgoing packets, in units of 2^-24
    /// (network-impairment testing).
    pub simulate_loss: u32,
}

/// What is wrong with the command line.
#[derive(Debug, Clone, Copy, PartialEq, Eq, Structural)]
pub enum CliError {
    /// --frame must be 2.5 or 5.
    BadFrame,
    /// --monitor must be direct, mix, or off.
    BadMonitor,
    /// --buffer must be one of 32/64/128/256/512.
    BadBuffer,
    /// A room code must be exactly 6 letters/digits.
    BadRoomCode,
}

/// The frame length in samples that an option stands for.
pub open spec fn frame_of(text: Seq<char>) -> Option<usize> {
    if text == "2.5"@ {
        Some(120)
    } else if text == "5"@ {
        Some(240)
    } else {
        None
    }
}

/// The monitoring mode that an option stands for.
pub open spec fn monitor_of(text: Seq<char>) -> Option<MonitorMode> {
    if text == "direct"@ {
        Some(MonitorMode::Direct)
    } else if text == "mix"@ {
        Some(MonitorMode::ThroughMix)
    } else if text == "off"@ {
        Some(MonitorMode::Off)
    } else {
        None
    }
}

/// The signed number that holds the same 32 bits.
pub open spec fn signed_bits(v: int) -> int {
    if v < 0x8000_0000 {
        v
    } else {
        v - 0x1_0000_0000
    }
}

/// Whether frame length, monitoring and buffer size are ones that there are.
pub open spec fn choices_right(a: AudioArgs) -> bool {
    frame_of(a.frame@) is Some && monitor_of(a.monitor@) is Some && (a.buffer == 32 || a.buffer
        == 64 || a.buffer == 128 || a.buffer == 256 || a.buffer == 512)
}

/// The configuration that the options stand for, or the first of them that is
/// wrong.
pub open spec fn params_of(a: AudioArgs, echo: bool) -> Result<EngineParams, CliError> {
    if frame_of(a.frame@) is None {
        Err(CliError::BadFrame)
    } else if monitor_of(a.monitor@) is None {
        Err(CliError::BadMonitor)
    } else if !choices_right(a) {
        Err(CliError::BadBuffer)
    } else {
        Ok(
            EngineParams {
                sample_rate: SAMPLE_RATE,
                frame_samples: frame_of(a.frame@)->Some_0,
                codec: if a.pcm {
                    Codec::PcmF32
                } else {
                    Codec::Opus
                },
                bitrate_bps: signed_bits(a.bitrate * 1_000) as i32,
                redundancy: a.redundancy,
                monitor: monitor_of(a.monitor@)->Some_0,
                jitter_fixed: a.jitter,
                drift_correction: !a.no_drift,
                simulate_loss: a.simulate_loss,
                echo,
            },
        )
    }
}

impl AudioArgs {
    pub fn params(&self, echo: bool) -> (p: Result<EngineParams, CliError>)
        requires
            choices_right(*self) ==> self.bitrate * 1_000 <= u32::MAX,
        ensures
            p == params_of(*self, echo),
    {
        let frame_samples: usize = if self.frame == "2.5".to_owned() {
            120
        } else if self.frame == "5".to_owned() {
            240
        } else {
            return Err(CliError::BadFrame);
        };
        let monitor = if self.monitor == "direct".to_owned() {
            MonitorMode::Direct
        } else if self.monitor == "mix".to_owned() {
            MonitorMode::ThroughMix
        } else if self.monitor == "off".to_owned() {
            MonitorMode::Off
        } else {
            return Err(CliError::BadMonitor);
        };
        if !matches!(self.buffer, 32 | 64 | 128 | 256 | 512) {
            return Err(CliError::BadBuffer);
        }
        let bps: u32 = self.bitrate * 1_000;
        assert(bps < 0x8000_0000 ==> (bps as i32) == bps) by (bit_vector);
        assert(bps >= 0x8000_0000 ==> (bps as i32) == bps - 0x1_0000_0000) by (bit_vector);
        Ok(
            EngineParams {
                sample_rate: SAMPLE_RATE,
                frame_samples,
                codec: if self.pcm {
                    Codec::PcmF32
                } else {
                    Codec::Opus
                },
                bitrate_bps: #[verifier::truncate]
                (bps as i32),
                redundancy: self.redundancy,
                monitor,
                jitter_fixed: self.jitter,
                drift_correction: !self.no_drift,
                simulate_loss: self.simulate_loss,
                echo,
            },
        )
    }
}

// ---------------------------------------------------------------------------
// Room codes
// ---------------------------------------------------------------------------
/// Whether a character is an ASCII letter or digit.
pub open spec fn alphanumeric(c: char) -> bool {
    '0' <= c <= '9' || 'A' <= c <= 'Z' || 'a' <= c <= 'z'
}

/// The uppercase form of an ASCII character.
pub open spec fn ascii_upper(c: char) -> char {
    if 'a' <= c <= 'z' {
        (c as u32 - 32) as char
    } else {
        c
    }
}

/// `str::to_uppercase` on ASCII text: the letters `a` to `z` become upper case,
/// and nothing else changes.
#[verifier::external_body]
fn to_upper(s: &str) -> (up: String)
    requires
        utf8::is_ascii_chars(s@),
    ensures
        up@ == s@.map_values(|c: char| ascii_upper(c)),
{
    s.to_uppercase()
}

/// Whether a text has the form of a room code: exactly six ASCII letters or
/// digits.
pub open spec fn code_shaped(text: Seq<char>) -> bool {
    text.len() == ROOM_CODE_LEN && forall|i: int|
        0 <= i < text.len() ==> alphanumeric(#[trigger] text[i])
}

/// The bytes of an ASCII text.
pub open spec fn ascii_bytes(text: Seq<char>) -> Seq<u8> {
    text.map_values(|c: char| c as u8)
}

proof fn lemma_ascii_char(c: char)
    ensures
        (c as u32) < 0x80 ==> '\0' <= c <= '\u{7f}',
{
}

/// A text of bytes below 128 is ASCII, one character for each byte.
proof fn lemma_ascii_bytes(text: Seq<char>)
    requires
        forall|i: int|
            0 <= i < utf8::encode_utf8(text).len() ==> #[trigger] utf8::encode_utf8(text)[i] < 128,
    ensures
        utf8::is_ascii_chars(text),
    decreases text.len(),
{
    if text.len() > 0 {
        let first = utf8::encode_scalar(text[0] as u32);
        let rest = text.drop_first();
        let all = utf8::encode_utf8(text);
        assert(all == first + utf8::encode_utf8(rest));
        utf8::char_is_scalar(text[0]);
        assert(first.len() > 0);
        assert(first[0] == all[0]);
        let c = text[0] as u32;
        if c >= 0x80 {
            assert((0xC0u8 | ((c >> 6) & 0x1F) as u8) >= 128) by (bit_vector);
            assert((0xE0u8 | ((c >> 12) & 0x0F) as u8) >= 128) by (bit_vector);
            assert((0xF0u8 | ((c >> 18) & 0x7) as u8) >= 128) by (bit_vector);
            assert(false);
        }
        assert forall|i: int| 0 <= i < utf8::encode_utf8(rest).len() implies (
        #[trigger] utf8::encode_utf8(rest)[i]) < 128 by {
            assert(utf8::encode_utf8(rest)[i] == all[first.len() + i]);
        }
        lemma_ascii_bytes(rest);
        assert forall|i: int| 0 <= i < text.len() implies '\0' <= #[trigger] text[i] <= '\u{7f}' by {
            if i > 0 {
                assert(rest[i - 1] == text[i]);
            } else {
                lemma_ascii_char(text[0]);
            }
        }
    }
}

/// Parses a text of exactly six ASCII letters or digits; the bytes are taken as
/// they are.
pub fn parse_code(text: &str) -> (code: Result<[u8; ROOM_CODE_LEN], CliError>)
    ensures
        match code {
            Ok(c) => code_shaped(text@) && c@ == ascii_bytes(text@),
            Err(e) => !code_shaped(text@) && e == CliError::BadRoomCode,
        },
{
    let b = text.as_bytes();
    assert(b@ == utf8::encode_utf8(text@));
    proof {
        if code_shaped(text@) {
            assert(utf8::is_ascii_chars(text@));
            utf8::is_ascii_chars_encode_utf8(text@);
        }
    }
    if b.len() != ROOM_CODE_LEN {
        return Err(CliError::BadRoomCode);
    }
    let mut i: usize = 0;
    while i < ROOM_CODE_LEN
        invariant
            i <= ROOM_CODE_LEN,
            b@.len() == ROOM_CODE_LEN,
            b@ == utf8::encode_utf8(text@),
            code_shaped(text@) ==> forall|j: int|
                0 <= j < text@.len() ==> #[trigger] text@[j] as u8 == b@[j],
            forall|j: int| 0 <= j < i ==> alphanumeric(#[trigger] b@[j] as char),
            forall|j: int| 0 <= j < i ==> #[trigger] b@[j] < 128,
        decreases ROOM_CODE_LEN - i,
    {
        let x: u8 = b[i];
        if !((0x30 <= x && x <= 0x39) || (0x41 <= x && x <= 0x5A) || (0x61 <= x && x <= 0x7A)) {
            proof {
                if code_shaped(text@) {
                    assert(alphanumeric(text@[i as int]));
                    assert(text@[i as int] as u8 == x);
                }
            }
            return Err(CliError::BadRoomCode);
        }
        i = i + 1;
    }
    proof {
        lemma_ascii_bytes(text@);
        utf8::is_ascii_chars_encode_utf8(text@);
        assert forall|j: int| 0 <= j < text@.len() implies alphanumeric(#[trigger] text@[j]) by {
            assert(alphanumeric(b@[j] as char));
        }
    }
    let code = [b[0], b[1], b[2], b[3], b[4], b[5]];
    assert(code@ =~= ascii_bytes(text@));
    Ok(code)
}

/// The characters of random room codes: no I, O, 0 or 1, which look alike.
pub const ALPHABET: [u8; 32] = [
    0x41,
    0x42,
    0x43,
    0x44,
    0x45,
    0x46,
    0x47,
    0x48,
    0x4A,
    0x4B,
    0x4C,
    0x4D,
    0x4E,
    0x50,
    0x51,
    0x52,
    0x53,
    0x54,
    0x55,
    0x56,
    0x57,
    0x58,
    0x59,
    0x5A,
    0x32,
    0x33,
    0x34,
    0x35,
    0x36,
    0x37,
    0x38,
    0x39,
];

/// The room code that a seed makes.
pub open spec fn random_code(seed: u64) -> Seq<u8> {
    Seq::new(
        ROOM_CODE_LEN as nat,
        |i: int|
            ALPHABET@[(net::lcg_after(seed, (i + 1) as nat) / 0x100_0000_0000_0000) as int % 32],
    )
}

/// A random room code from a seed.
pub fn generate_code(seed: u64) -> (code: [u8; ROOM_CODE_LEN])
    ensures
        code@ == random_code(seed),
{
    let mut code = [0u8; ROOM_CODE_LEN];
    let mut state: u64 = seed;
    let mut i: usize = 0;
    while i < ROOM_CODE_LEN
        invariant
            i <= ROOM_CODE_LEN,
            state == net::lcg_after(seed, i as nat),
            forall|j: int| 0 <= j < i ==> code@[j] == random_code(seed)[j],
        decreases ROOM_CODE_LEN - i,
    {
        state = lcg_next(state);
        let pick: usize = (state / 0x100_0000_0000_0000) as usize % 32;
        code[i] = ALPHABET[pick];
        i = i + 1;
    }
    assert(code@ =~= random_code(seed));
    code
}

/// The seed that a time and a process id make.
pub open spec fn code_seed(nanos: u64, pid: u32) -> u64 {
    nanos ^ ((pid as u64) << 32u64)
}

/// Two processes that start at the same instant have different seeds, and so has
/// one process at two instants. The process id changes the upper half alone.
pub proof fn law_seeds_differ(nanos: u64, other: u64, p: u32, q: u32)
    ensures
        p != q ==> code_seed(nanos, p) != code_seed(nanos, q),
        nanos != other ==> code_seed(nanos, p) != code_seed(other, p),
        code_seed(nanos, p) % 0x1_0000_0000 == nanos % 0x1_0000_0000,
        code_seed(nanos, 0) == nanos,
{
    assert(p != q ==> nanos ^ ((p as u64) << 32u64) != nanos ^ ((q as u64) << 32u64)) by (bit_vector);
    assert(nanos != other ==> nanos ^ ((p as u64) << 32u64) != other ^ ((p as u64) << 32u64)) by (
    bit_vector);
    assert((nanos ^ ((p as u64) << 32u64)) % 0x1_0000_0000 == nanos % 0x1_0000_0000) by (bit_vector);
    assert(nanos ^ ((0u32 as u64) << 32u64) == nanos) by (bit_vector);
}

/// The seed that a time and a process id make.
pub fn seed_from(nanos: u64, pid: u32) -> (seed: u64)
    ensures
        seed == code_seed(nanos, pid),
        seed == nanos ^ ((pid as u64) << 32u64),
{
    nanos ^ ((pid as u64) << 32u64)
}

/// The room code that a text stands for.
pub open spec fn typed_code(text: Seq<char>) -> Option<Seq<u8>> {
    if code_shaped(text) {
        Some(ascii_bytes(text.map_values(|c: char| ascii_upper(c))))
    } else {
        None
    }
}

/// Parse a 6-character room code (A-Z, 0-9), in any case, or make one from a
/// seed.
pub fn room_code(input: Option<&str>, seed: u64) -> (code: Result<[u8; ROOM_CODE_LEN], CliError>)
    ensures
        match (input, code) {
            (None, Ok(c)) => c@ == random_code(seed),
            (None, Err(_)) => false,
            (Some(s), Ok(c)) => typed_code(s@) == Some(c@) && code_shaped(s@) && c@ == ascii_bytes(
                s@.map_values(|c: char| ascii_upper(c)),
            ),
            (Some(s), Err(e)) => typed_code(s@) is None && !code_shaped(s@) && e == CliError::BadRoomCode,
        },
{
    match input {
        None => Ok(generate_code(seed)),
        Some(s) => {
            if parse_code(s).is_err() {
                return Err(CliError::BadRoomCode);
            }
            let up = to_upper(s);
            assert forall|i: int| 0 <= i < up@.len() implies alphanumeric(#[trigger] up@[i]) by {
                assert(alphanumeric(s@[i]));
            }
            parse_code(up.as_str())
        },
    }
}

/// Whether a byte is an ASCII digit or upper case letter.
pub open spec fn code_byte(b: u8) -> bool {
    0x30 <= b <= 0x39 || 0x41 <= b <= 0x5A
}

/// Every room code, typed in or generated, is made of six digits or upper case
/// letters.
pub proof fn law_codes_are_uppercase(text: Seq<char>, seed: u64)
    ensures
        random_code(seed).len() == ROOM_CODE_LEN,
        forall|i: int| 0 <= i < ROOM_CODE_LEN ==> code_byte(#[trigger] random_code(seed)[i]),
        code_shaped(text) ==> {
            let code = ascii_bytes(text.map_values(|c: char| ascii_upper(c)));
            &&& code.len() == ROOM_CODE_LEN
            &&& forall|i: int| 0 <= i < ROOM_CODE_LEN ==> code_byte(#[trigger] code[i])
        },
{
    assert forall|i: int| 0 <= i < ROOM_CODE_LEN implies code_byte(
        #[trigger] random_code(seed)[i],
    ) by {
        let pick = (net::lcg_after(seed, (i + 1) as nat) / 0x100_0000_0000_0000) as int % 32;
        assert(0 <= pick < 32);
    }
    if code_shaped(text) {
        let code = ascii_bytes(text.map_values(|c: char| ascii_upper(c)));
        assert forall|i: int| 0 <= i < ROOM_CODE_LEN implies code_byte(#[trigger] code[i]) by {
            assert(alphanumeric(text[i]));
        }
    }
}

// ---------------------------------------------------------------------------
// Host addresses
// ---------------------------------------------------------------------------
/// A host as it is looked up: with the default port where it names none.
pub open spec fn with_port(host: Seq<char>) -> Seq<char> {
    if host.contains(':') {
        host
    } else {
        host + ":47820"@
    }
}

/// Adds the default port to a host that names none.
pub fn with_default_port(host: &str) -> (s: String)
    ensures
        s@ == with_port(host@),
{
    let n: usize = host.unicode_len();
    let mut i: usize = 0;
    while i < n
        invariant
            i <= n,
            n == host@.len(),
            forall|j: int| 0 <= j < i ==> host@[j] != ':',
        decreases n - i,
    {
        if host.get_char(i) == ':' {
            assert(host@[i as int] == ':');
            return host.to_owned();
        }
        i = i + 1;
    }
    host.to_owned().concat(":47820")
}

/// An option that is wrong is reported, the frame length before the monitoring
/// and that before the buffer size; if all three are right, there is a
/// configuration.
pub proof fn law_first_wrong_option_is_reported(a: AudioArgs, echo: bool)
    ensures
        ({
            let p = params_of(a, echo);
            let frame = a.frame@ == "2.5"@ || a.frame@ == "5"@;
            let monitor = a.monitor@ == "direct"@ || a.monitor@ == "mix"@ || a.monitor@ == "off"@;
            let buffer = a.buffer == 32 || a.buffer == 64 || a.buffer == 128 || a.buffer == 256
                || a.buffer == 512;
            &&& !frame <==> p == Err::<EngineParams, _>(CliError::BadFrame)
            &&& frame && !monitor <==> p == Err::<EngineParams, _>(CliError::BadMonitor)
            &&& frame && monitor && !buffer <==> p == Err::<EngineParams, _>(CliError::BadBuffer)
            &&& frame && monitor && buffer <==> p is Ok
        }),
{
}

/// What each option stands for: a frame of as many milliseconds at the
/// session's sample rate, the bitrate in units of a thousand, and the rest as
/// it is named.
pub proof fn law_options_mean_what_they_say(a: AudioArgs, echo: bool)
    requires
        params_of(a, echo) is Ok,
    ensures
        ({
            let p = params_of(a, echo)->Ok_0;
            &&& p.sample_rate == 48_000
            &&& a.frame@ == "2.5"@ ==> p.frame_samples * 2_000 == 5 * p.sample_rate
            &&& a.frame@ != "2.5"@ ==> p.frame_samples * 1_000 == 5 * p.sample_rate
            &&& a.monitor@ == "direct"@ ==> p.monitor == MonitorMode::Direct
            &&& a.monitor@ == "mix"@ && a.monitor@ != "direct"@ ==> p.monitor
                == MonitorMode::ThroughMix
            &&& a.monitor@ != "mix"@ && a.monitor@ != "direct"@ ==> p.monitor == MonitorMode::Off
            &&& a.pcm <==> p.codec == Codec::PcmF32
            &&& !a.pcm <==> p.codec == Codec::Opus
            &&& a.bitrate * 1_000 <= 0x7FFF_FFFF ==> p.bitrate_bps == a.bitrate * 1_000
            &&& 0x7FFF_FFFF < a.bitrate * 1_000 <= u32::MAX ==> p.bitrate_bps == a.bitrate * 1_000
                - 0x1_0000_0000
            &&& p.redundancy == a.redundancy
            &&& p.jitter_fixed == a.jitter
            &&& p.drift_correction == !a.no_drift
            &&& p.simulate_loss == a.simulate_loss
            &&& p.echo == echo
        }),
{
}

/// A code that is typed in counts in any case: each letter as its upper case
/// form, each digit as itself.
pub proof fn law_case_does_not_matter(text: Seq<char>, other: Seq<char>, i: int)
    requires
        code_shaped(text),
        code_shaped(other),
        0 <= i < ROOM_CODE_LEN,
    ensures
        ({
            let code = ascii_bytes(text.map_values(|c: char| ascii_upper(c)));
            let again = ascii_bytes(other.map_values(|c: char| ascii_upper(c)));
            &&& 'a' <= text[i] <= 'z' ==> code[i] as int == text[i] as int - 32
            &&& !('a' <= text[i] <= 'z') ==> code[i] as int == text[i] as int
            &&& (text[i] as int == other[i] as int || 'a' <= text[i] <= 'z' && text[i] as int
                == other[i] as int + 32) ==> code[i] == again[i]
        }),
{
    assert(alphanumeric(text[i]) && alphanumeric(other[i]));
}

/// The characters of generated codes are the upper case letters without I and O
/// and the digits from 2 on, in that order, each once.
pub proof fn law_alphabet_is_unambiguous(p: int, q: int)
    requires
        0 <= p < 32,
        0 <= q < 32,
    ensures
        p < 8 ==> ALPHABET@[p] == 'A' as u8 + p,
        8 <= p < 13 ==> ALPHABET@[p] == 'J' as u8 + (p - 8),
        13 <= p < 24 ==> ALPHABET@[p] == 'P' as u8 + (p - 13),
        24 <= p ==> ALPHABET@[p] == '2' as u8 + (p - 24),
        ALPHABET@[p] == ALPHABET@[q] ==> p == q,
{
}

/// A generated code never holds I, O, 0 or 1, which look alike.
pub proof fn law_generated_codes_are_unambiguous(seed: u64, i: int)
    requires
        0 <= i < ROOM_CODE_LEN,
    ensures
        random_code(seed)[i] != 'I' as u8,
        random_code(seed)[i] != 'O' as u8,
        random_code(seed)[i] != '0' as u8,
        random_code(seed)[i] != '1' as u8,
{
    let pick = (net::lcg_after(seed, (i + 1) as nat) / 0x100_0000_0000_0000) as int % 32;
    law_alphabet_is_unambiguous(pick, pick);
}

/// Each character of a generated code takes a step of the generator: the code
/// of the next state is the same code one place on. The first one depends on
/// the upper byte of the first state alone: all of the 32 there are come about,
/// and different picks give different characters.
pub proof fn law_each_character_takes_a_step(seed: u64, other: u64, i: int)
    requires
        0 <= i < ROOM_CODE_LEN - 1,
    ensures
        random_code(seed)[i + 1] == random_code(net::lcg(seed) as u64)[i],
        random_code(seed)[0] == random_code(other)[0] <==> net::lcg(seed) / 0x100_0000_0000_0000
            % 32 == net::lcg(other) / 0x100_0000_0000_0000 % 32,
{
    lemma_one_step_less(seed, (i + 1) as nat);
    reveal_with_fuel(net::lcg_after, 2);
    let p = net::lcg(seed) / 0x100_0000_0000_0000 % 32;
    let q = net::lcg(other) / 0x100_0000_0000_0000 % 32;
    assert(net::lcg_after(seed, 1) == net::lcg(seed));
    assert(net::lcg_after(other, 1) == net::lcg(other));
    assert(random_code(seed)[0] == ALPHABET@[p]);
    assert(random_code(other)[0] == ALPHABET@[q]);
    law_alphabet_is_unambiguous(p, q);
}

proof fn lemma_one_step_less(seed: u64, n: nat)
    ensures
        net::lcg_after(seed, n + 1) == net::lcg_after(net::lcg(seed) as u64, n),
    decreases n,
{
    reveal_with_fuel(net::lcg_after, 2);
    if n > 0 {
        lemma_one_step_less(seed, (n - 1) as nat);
    }
}

/// A host that names a port is looked up as it is; one that does not gets the
/// default port behind it. Either way a port is then named, and nothing is added
/// a second time.
pub proof fn law_a_port_is_always_named(host: Seq<char>)
    ensures
        host.contains(':') ==> with_port(host) == host,
        !host.contains(':') ==> with_port(host) == host + ":47820"@,
        with_port(host).contains(':'),
        with_port(with_port(host)) == with_port(host),
        with_port(host).take(host.len() as int) == host,
{
    reveal_strlit(":47820");
    if !host.contains(':') {
        assert(with_port(host)[host.len() as int] == ':');
    }
    assert(with_port(host).take(host.len() as int) =~= host);
}

/// A text has the form of a room code exactly if it is six characters long, all
/// of them digits or letters of either case.
pub proof fn law_codes_are_six_letters_or_digits(text: Seq<char>)
    ensures
        code_shaped(text) <==> text.len() == 6 && forall|i: int|
            0 <= i < 6 ==> {
                let c = #[trigger] text[i];
                '0' <= c <= '9' || 'A' <= c <= 'Z' || 'a' <= c <= 'z'
            },
{
    if text.len() == 6 && forall|i: int|
        0 <= i < 6 ==> {
            let c = #[trigger] text[i];
            '0' <= c <= '9' || 'A' <= c <= 'Z' || 'a' <= c <= 'z'
        } {
        assert forall|i: int| 0 <= i < text.len() implies alphanumeric(#[trigger] text[i]) by {
            let c = text[i];
            assert('0' <= c <= '9' || 'A' <= c <= 'Z' || 'a' <= c <= 'z');
        }
    }
    if code_shaped(text) {
        assert forall|i: int| 0 <= i < 6 implies {
            let c = #[trigger] text[i];
            '0' <= c <= '9' || 'A' <= c <= 'Z' || 'a' <= c <= 'z'
        } by {
            assert(alphanumeric(text[i]));
        }
    }
}

/// Six letters or digits are a room code, and nothing else is: each letter
/// stands for its upper case form, and each digit for itself. Typing a code as
/// it is shown gives that code.
pub proof fn law_typed_codes_are_read(text: Seq<char>, i: int)
    requires
        0 <= i < 6,
    ensures
        typed_code(text) is Some <==> text.len() == 6 && forall|j: int|
            0 <= j < 6 ==> {
                let c = #[trigger] text[j];
                '0' <= c <= '9' || 'A' <= c <= 'Z' || 'a' <= c <= 'z'
            },
        typed_code(text) matches Some(code) ==> code.len() == 6 && code[i] as int == if 'a'
            <= text[i] <= 'z' {
            text[i] as int - 32
        } else {
            text[i] as int
        },
{
    law_codes_are_six_letters_or_digits(text);
    if code_shaped(text) {
        law_case_does_not_matter(text, text, i);
    }
}

} // verus!
