//! Device discovery and stream-config negotiation, apart from the sound system
//! itself.
//!
//! Policy: the session runs at 48 kHz mono internally. We pick the requested
//! (or default) device and the friendliest raw format it offers at 48 kHz
//! (single-precision preferred; 16/24/32-bit integer formats are converted at
//! the callback edge), and give up only when no convertible format covers
//! 48 kHz.
use crate::SAMPLE_RATE;
use vstd::prelude::*;
use vstd::utf8;

verus! {

/// A device, for `jam devices`.
#[derive(Debug)]
pub struct DeviceInfo {
    pub name: String,
    pub is_input: bool,
    pub is_output: bool,
    pub default_input: bool,
    pub default_output: bool,
}

/// Whether a name is the one that is looked for.
pub open spec fn is_named(wanted: Option<String>, name: Seq<char>) -> bool {
    wanted matches Some(w) && w@ == name
}

fn named(wanted: &Option<String>, name: &String) -> (r: bool)
    ensures
        r == is_named(*wanted, name@),
{
    match wanted {
        None => false,
        Some(w) => *w == *name,
    }
}

impl DeviceInfo {
    /// Describes a device, given the names of the system's default devices.
    pub fn new(
        name: String,
        is_input: bool,
        is_output: bool,
        default_in: &Option<String>,
        default_out: &Option<String>,
    ) -> (d: Self)
        ensures
            d.name@ == name@,
            d.is_input == is_input,
            d.is_output == is_output,
            d.default_input == is_named(*default_in, name@),
            d.default_output == is_named(*default_out, name@),
    {
        let default_input = named(default_in, &name);
        let default_output = named(default_out, &name);
        DeviceInfo { name, is_input, is_output, default_input, default_output }
    }
}

// ---------------------------------------------------------------------------
// Finding a device by name
// ---------------------------------------------------------------------------
/// What `str::to_lowercase` makes of a text.
pub uninterp spec fn lowercased(s: Seq<char>) -> Seq<char>;

/// The lowercase form of an ASCII character.
pub open spec fn ascii_lower(c: char) -> char {
    if 'A' <= c <= 'Z' {
        (c as u32 + 32) as char
    } else {
        c
    }
}

/// `str::to_lowercase`: the lowercase form of a text by the rules of Unicode,
/// whatever the locale. On ASCII those change the letters `A` to `Z`, and
/// nothing else.
#[verifier::external_body]
fn to_lower(s: &str) -> (low: String)
    ensures
        low@ == lowercased(s@),
        utf8::is_ascii_chars(s@) ==> low@ == s@.map_values(|c: char| ascii_lower(c)),
{
    s.to_lowercase()
}

/// Whether `needle` stands at `at` in `hay`.
pub open spec fn stands_at(hay: Seq<u8>, needle: Seq<u8>, at: int) -> bool {
    0 <= at <= hay.len() - needle.len() && hay.subrange(at, at + needle.len()) == needle
}

/// Whether `needle` stands anywhere in `hay`.
pub open spec fn holds_text(hay: Seq<char>, needle: Seq<char>) -> bool {
    exists|at: int| #[trigger] stands_at(utf8::encode_utf8(hay), utf8::encode_utf8(needle), at)
}

/// Whether `needle` occurs in `hay`.
pub fn contains_text(hay: &str, needle: &str) -> (r: bool)
    ensures
        r == holds_text(hay@, needle@),
{
    let h = hay.as_bytes();
    let p = needle.as_bytes();
    let ghost hb = utf8::encode_utf8(hay@);
    let ghost pb = utf8::encode_utf8(needle@);
    assert(h@ == hb && p@ == pb);
    let n: usize = h.len();
    let m: usize = p.len();
    if m > n {
        return false;
    }
    let mut at: usize = 0;
    while at <= n - m
        invariant
            at <= n - m + 1,
            m <= n,
            n == h@.len(),
            m == p@.len(),
            h@ == hb,
            p@ == pb,
            hb == utf8::encode_utf8(hay@),
            pb == utf8::encode_utf8(needle@),
            forall|k: int| 0 <= k < at ==> !#[trigger] stands_at(hb, pb, k),
        decreases n - m + 1 - at,
    {
        let mut i: usize = 0;
        while i < m && h[at + i] == p[i]
            invariant
                i <= m,
                at <= n - m,
                n == h@.len(),
                m == p@.len(),
                forall|k: int| 0 <= k < i ==> h@[at + k] == p@[k],
            decreases m - i,
        {
            i = i + 1;
        }
        if i == m {
            assert(h@.subrange(at as int, at + m) =~= p@);
            assert(stands_at(hb, pb, at as int));
            return true;
        }
        assert(!stands_at(hb, pb, at as int)) by {
            if stands_at(hb, pb, at as int) {
                assert(h@.subrange(at as int, at + m)[i as int] == h@[at + i]);
            }
        }
        if at == n - m {
            assert forall|k: int| !stands_at(hb, pb, k) by {
                if stands_at(hb, pb, k) {
                    assert(k < at || k == at);
                }
            }
            return false;
        }
        at = at + 1;
    }
    false
}

/// Whether a device's name holds what the user asked for, in any case.
pub fn name_matches(name: &str, pattern: &str) -> (r: bool)
    ensures
        r == holds_text(lowercased(name@), lowercased(pattern@)),
        utf8::is_ascii_chars(name@) && utf8::is_ascii_chars(pattern@) ==> r == holds_text(
            name@.map_values(|c: char| ascii_lower(c)),
            pattern@.map_values(|c: char| ascii_lower(c)),
        ),
{
    let low_name = to_lower(name);
    let low_pattern = to_lower(pattern);
    contains_text(low_name.as_str(), low_pattern.as_str())
}

// ---------------------------------------------------------------------------
// Choosing a config
// ---------------------------------------------------------------------------
/// The raw sample formats of devices.
#[derive(Debug, Clone, Copy, PartialEq, Eq, Structural)]
pub enum SampleFormat {
    F32,
    I32,
    I16,
    U16,
    F64,
    U32,
    I8,
    U8,
    I64,
    U64,
    /// Nothing that we can convert.
    Other,
}

/// The buffer sizes that a config allows, in frames.
#[derive(Debug, Clone, Copy, PartialEq, Eq, Structural)]
pub enum BufferRange {
    Range { min: u32, max: u32 },
    Unknown,
}

/// A range of stream configs that a device supports.
#[derive(Debug, Clone, Copy, PartialEq, Eq, Structural)]
pub struct SupportedConfig {
    pub min_sample_rate: u32,
    pub max_sample_rate: u32,
    pub channels: u16,
    pub format: SampleFormat,
    pub buffer: BufferRange,
}

/// The buffer size to ask a device for.
#[derive(Debug, Clone, Copy, PartialEq, Eq, Structural)]
pub enum BufferChoice {
    Fixed(u32),
    /// What the device takes by itself.
    DeviceDefault,
}

/// The place of a format in the order of preference. Anything with a place can
/// be converted losslessly enough for audio; single precision is a no-op, I32
/// covers the common 24-bit-in-32 pro interfaces, then the rest.
pub open spec fn rank_of(format: SampleFormat) -> Option<u8> {
    match format {
        SampleFormat::F32 => Some(0),
        SampleFormat::I32 => Some(1),
        SampleFormat::I16 => Some(2),
        SampleFormat::U16 => Some(3),
        SampleFormat::F64 => Some(4),
        SampleFormat::U32 => Some(5),
        SampleFormat::I8 => Some(6),
        SampleFormat::U8 => Some(7),
        SampleFormat::I64 => Some(8),
        SampleFormat::U64 => Some(9),
        SampleFormat::Other => None,
    }
}

pub fn format_rank(format: SampleFormat) -> (rank: Option<u8>)
    ensures
        rank == rank_of(format),
{
    match format {
        SampleFormat::F32 => Some(0),
        SampleFormat::I32 => Some(1),
        SampleFormat::I16 => Some(2),
        SampleFormat::U16 => Some(3),
        SampleFormat::F64 => Some(4),
        SampleFormat::U32 => Some(5),
        SampleFormat::I8 => Some(6),
        SampleFormat::U8 => Some(7),
        SampleFormat::I64 => Some(8),
        SampleFormat::U64 => Some(9),
        SampleFormat::Other => None,
    }
}

/// Whether a config covers the session's sample rate.
pub open spec fn covers_rate(c: SupportedConfig) -> bool {
    c.min_sample_rate <= SAMPLE_RATE <= c.max_sample_rate
}

/// Whether a config can be used.
pub open spec fn usable(c: SupportedConfig) -> bool {
    covers_rate(c) && rank_of(c.format) is Some
}

/// Whether `a` is at least as good as `b`: a friendlier format, or the same and
/// no more channels (mono capture ideal, stereo fine).
pub open spec fn no_worse(a: SupportedConfig, b: SupportedConfig) -> bool {
    let ra = rank_of(a.format)->Some_0;
    let rb = rank_of(b.format)->Some_0;
    ra < rb || (ra == rb && a.channels <= b.channels)
}

/// Whether config `i` is the first of the best.
pub open spec fn is_best(configs: Seq<SupportedConfig>, i: int) -> bool {
    &&& 0 <= i < configs.len()
    &&& usable(configs[i])
    &&& forall|j: int|
        0 <= j < configs.len() && usable(#[trigger] configs[j]) ==> no_worse(configs[i], configs[j])
    &&& forall|j: int|
        0 <= j < i && usable(#[trigger] configs[j]) ==> !no_worse(configs[j], configs[i])
}

/// Picks the config to use.
pub fn best_config(configs: &Vec<SupportedConfig>) -> (best: Option<usize>)
    ensures
        match best {
            Some(i) => is_best(configs@, i as int),
            None => forall|j: int| 0 <= j < configs@.len() ==> !usable(#[trigger] configs@[j]),
        },
{
    let mut best: Option<(usize, u8, u16)> = None;
    let mut i: usize = 0;
    while i < configs.len()
        invariant
            i <= configs@.len(),
            match best {
                Some((b, rank, channels)) => b < i && is_best(configs@.take(i as int), b as int)
                    && rank_of(configs@[b as int].format) == Some(rank)
                    && configs@[b as int].channels == channels,
                None => forall|j: int| 0 <= j < i ==> !usable(#[trigger] configs@[j]),
            },
        decreases configs@.len() - i,
    {
        let c = configs[i];
        let ghost front = configs@.take(i as int);
        let ghost all = configs@.take(i + 1);
        proof {
            assert forall|j: int| 0 <= j < i implies #[trigger] all[j] == front[j] by {}
            assert(all[i as int] == c);
        }
        if c.min_sample_rate <= SAMPLE_RATE && c.max_sample_rate >= SAMPLE_RATE {
            if let Some(rank) = format_rank(c.format) {
                let keep = match best {
                    Some((_, r, ch)) => r < rank || (r == rank && ch <= c.channels),
                    None => false,
                };
                if !keep {
                    proof {
                        assert forall|j: int| 0 <= j < all.len() && usable(
                            #[trigger] all[j],
                        ) implies no_worse(all[i as int], all[j]) by {
                            if j < i {
                                assert(usable(front[j]));
                                assert(usable(configs@[j]));
                            }
                        }
                        assert forall|j: int| 0 <= j < i && usable(
                            #[trigger] all[j],
                        ) implies !no_worse(all[j], all[i as int]) by {
                            assert(usable(front[j]));
                            assert(usable(configs@[j]));
                        }
                    }
                    best = Some((i, rank, c.channels));
                }
            }
        }
        proof {
            if let Some((b, _, _)) = best {
                if b < i {
                    assert(is_best(front, b as int));
                    assert forall|j: int| 0 <= j < all.len() && usable(
                        #[trigger] all[j],
                    ) implies no_worse(all[b as int], all[j]) by {
                        if j < i {
                            assert(usable(front[j]));
                        }
                    }
                    assert forall|j: int| 0 <= j < b && usable(#[trigger] all[j]) implies !no_worse(
                        all[j],
                        all[b as int],
                    ) by {
                        assert(usable(front[j]));
                    }
                }
                assert(is_best(all, b as int));
            }
        }
        i = i + 1;
    }
    assert(configs@.take(i as int) =~= configs@);
    match best {
        Some((b, _, _)) => Some(b),
        None => None,
    }
}

/// The formats that the first `n` configs offer at the session's sample rate,
/// each once, in the order in which they come.
pub open spec fn offered(configs: Seq<SupportedConfig>, n: int) -> Seq<SampleFormat>
    decreases n,
{
    if n <= 0 {
        Seq::empty()
    } else {
        let front = offered(configs, n - 1);
        let c = configs[n - 1];
        if covers_rate(c) && !front.contains(c.format) {
            front.push(c.format)
        } else {
            front
        }
    }
}

/// Lists the formats that a device offers at the session's sample rate.
pub fn offered_formats(configs: &Vec<SupportedConfig>) -> (formats: Vec<SampleFormat>)
    ensures
        formats@ == offered(configs@, configs@.len() as int),
{
    let mut formats: Vec<SampleFormat> = Vec::new();
    let mut i: usize = 0;
    while i < configs.len()
        invariant
            i <= configs@.len(),
            formats@ == offered(configs@, i as int),
        decreases configs@.len() - i,
    {
        let c = configs[i];
        if c.min_sample_rate <= SAMPLE_RATE && c.max_sample_rate >= SAMPLE_RATE {
            let mut seen = false;
            let mut k: usize = 0;
            while k < formats.len()
                invariant
                    k <= formats@.len(),
                    seen == exists|j: int| 0 <= j < k && #[trigger] formats@[j] == c.format,
                decreases formats@.len() - k,
            {
                if formats[k] == c.format {
                    seen = true;
                }
                k = k + 1;
            }
            assert(seen == formats@.contains(c.format));
            if !seen {
                formats.push(c.format);
            }
        }
        i = i + 1;
    }
    formats
}

/// The size within a range that is nearest to the one that is wanted.
pub open spec fn nearest_size(min: u32, max: u32, wanted: u32) -> u32 {
    if wanted < min {
        min
    } else if wanted > max {
        max
    } else {
        wanted
    }
}

/// The buffer size to ask for: what the user wants, as far as the device allows
/// it.
pub fn buffer_size(supported: BufferRange, wanted: u32) -> (choice: BufferChoice)
    requires
        supported matches BufferRange::Range { min, max } ==> min <= max,
    ensures
        choice == match supported {
            BufferRange::Range { min, max } => BufferChoice::Fixed(
                if wanted < min {
                    min
                } else if wanted > max {
                    max
                } else {
                    wanted
                },
            ),
            BufferRange::Unknown => BufferChoice::DeviceDefault,
        },
        supported matches BufferRange::Range { min, max } ==> choice == BufferChoice::Fixed(
            nearest_size(min, max, wanted),
        ),
{
    match supported {
        BufferRange::Range { min, max } => BufferChoice::Fixed(
            if wanted < min {
                min
            } else if wanted > max {
                max
            } else {
                wanted
            },
        ),
        BufferRange::Unknown => BufferChoice::DeviceDefault,
    }
}

/// The config and buffer to open a device with.
#[derive(Debug, Clone, Copy, PartialEq, Eq, Structural)]
pub struct Choice {
    pub channels: u16,
    pub format: SampleFormat,
    pub buffer: BufferRange,
}

/// Chooses among a device's configs; an error lists the formats that it offers
/// at 48 kHz.
pub fn negotiate(configs: &Vec<SupportedConfig>) -> (choice: Result<Choice, Vec<SampleFormat>>)
    ensures
        match choice {
            Ok(c) => exists|i: int| #[trigger]
                is_best(configs@, i) && c == (Choice {
                    channels: configs@[i].channels,
                    format: configs@[i].format,
                    buffer: configs@[i].buffer,
                }),
            Err(formats) => formats@ == offered(configs@, configs@.len() as int) && forall|j: int|
                0 <= j < configs@.len() ==> !usable(#[trigger] configs@[j]),
        },
{
    match best_config(configs) {
        None => Err(offered_formats(configs)),
        Some(i) => {
            let c = configs[i];
            Ok(Choice { channels: c.channels, format: c.format, buffer: c.buffer })
        },
    }
}

/// There is at most one best config, so the choice is settled by what a device
/// offers.
pub proof fn law_choice_is_unique(configs: Seq<SupportedConfig>, i: int, j: int)
    requires
        is_best(configs, i),
        is_best(configs, j),
    ensures
        i == j,
{
    assert(usable(configs[i]) && usable(configs[j]));
}

/// How a device is marked in the list: usable, and by default.
pub fn mark(available: bool, default: bool) -> (s: &'static str)
    ensures
        s@ == if available && default {
            "yes*"@
        } else if available {
            "yes"@
        } else {
            "-"@
        },
{
    if available && default {
        "yes*"
    } else if available {
        "yes"
    } else {
        "-"
    }
}

/// The formats in the order of preference: each is preferred to all that follow
/// it. Those that cannot be converted have no place in it.
pub proof fn law_formats_are_preferred_in_order(a: SampleFormat)
    ensures
        rank_of(SampleFormat::F32)->Some_0 < rank_of(SampleFormat::I32)->Some_0,
        rank_of(SampleFormat::I32)->Some_0 < rank_of(SampleFormat::I16)->Some_0,
        rank_of(SampleFormat::I16)->Some_0 < rank_of(SampleFormat::U16)->Some_0,
        rank_of(SampleFormat::U16)->Some_0 < rank_of(SampleFormat::F64)->Some_0,
        rank_of(SampleFormat::F64)->Some_0 < rank_of(SampleFormat::U32)->Some_0,
        rank_of(SampleFormat::U32)->Some_0 < rank_of(SampleFormat::I8)->Some_0,
        rank_of(SampleFormat::I8)->Some_0 < rank_of(SampleFormat::U8)->Some_0,
        rank_of(SampleFormat::U8)->Some_0 < rank_of(SampleFormat::I64)->Some_0,
        rank_of(SampleFormat::I64)->Some_0 < rank_of(SampleFormat::U64)->Some_0,
        rank_of(a) is None <==> a == SampleFormat::Other,
        rank_of(a) matches Some(r) ==> r < 10,
{
}

/// The config that is chosen covers 48 kHz in a format that can be converted.
/// No other that does has a preferred format, or fewer channels in the same
/// format; of those that are as good it is the first.
pub proof fn law_no_config_is_better(configs: Seq<SupportedConfig>, i: int, j: int)
    requires
        is_best(configs, i),
        0 <= j < configs.len(),
        configs[j].min_sample_rate <= 48_000 <= configs[j].max_sample_rate,
        configs[j].format != SampleFormat::Other,
    ensures
        configs[i].min_sample_rate <= 48_000 <= configs[i].max_sample_rate,
        configs[i].format != SampleFormat::Other,
        rank_of(configs[i].format)->Some_0 <= rank_of(configs[j].format)->Some_0,
        configs[i].format == configs[j].format ==> configs[i].channels <= configs[j].channels,
        configs[i].format == configs[j].format && configs[i].channels == configs[j].channels
            ==> i <= j,
        configs[j].format == SampleFormat::F32 ==> configs[i].format == SampleFormat::F32,
{
    assert(usable(configs[j]));
}

/// A config can be used exactly if it covers 48 kHz in a format that can be
/// converted.
pub proof fn law_usable_configs_cover_the_rate(c: SupportedConfig)
    ensures
        usable(c) <==> c.min_sample_rate <= 48_000 <= c.max_sample_rate && c.format
            != SampleFormat::Other,
{
}

/// The formats that are listed are exactly those that some config offers at
/// 48 kHz, each once.
pub proof fn law_formats_are_listed_once(configs: Seq<SupportedConfig>, n: int)
    requires
        0 <= n <= configs.len(),
    ensures
        forall|j: int|
            0 <= j < n && (#[trigger] configs[j]).min_sample_rate <= 48_000
                <= configs[j].max_sample_rate ==> offered(configs, n).contains(configs[j].format),
        forall|k: int|
            0 <= k < offered(configs, n).len() ==> exists|j: int|
                0 <= j < n && (#[trigger] configs[j]).format == #[trigger] offered(configs, n)[k]
                    && configs[j].min_sample_rate <= 48_000 <= configs[j].max_sample_rate,
        forall|k: int, l: int|
            0 <= k < l < offered(configs, n).len() ==> #[trigger] offered(configs, n)[k]
                != #[trigger] offered(configs, n)[l],
    decreases n,
{
    if n > 0 {
        law_formats_are_listed_once(configs, n - 1);
        let front = offered(configs, n - 1);
        let all = offered(configs, n);
        assert forall|k: int| 0 <= k < front.len() implies #[trigger] all[k] == front[k] by {}
        assert forall|j: int|
            0 <= j < n && (#[trigger] configs[j]).min_sample_rate <= 48_000
                <= configs[j].max_sample_rate implies all.contains(configs[j].format) by {
            if j < n - 1 || front.contains(configs[j].format) {
                assert(front.contains(configs[j].format));
                let k = choose|k: int| 0 <= k < front.len() && front[k] == configs[j].format;
                assert(all[k] == configs[j].format);
            } else {
                assert(all[front.len() as int] == configs[j].format);
            }
        }
        assert forall|k: int| 0 <= k < all.len() implies exists|j: int|
            0 <= j < n && (#[trigger] configs[j]).format == #[trigger] all[k]
                && configs[j].min_sample_rate <= 48_000 <= configs[j].max_sample_rate by {
            if k < front.len() {
                let j = choose|j: int|
                    0 <= j < n - 1 && (#[trigger] configs[j]).format == front[k]
                        && configs[j].min_sample_rate <= 48_000 <= configs[j].max_sample_rate;
                assert(configs[j].format == all[k]);
            } else {
                assert(configs[n - 1].format == all[k]);
            }
        }
        assert forall|k: int, l: int| 0 <= k < l < all.len() implies #[trigger] all[k]
            != #[trigger] all[l] by {
            assert(all[k] == front[k]);
            if l < front.len() {
                assert(all[l] == front[l]);
            } else {
                assert(!front.contains(all[l]));
            }
        }
    }
}

/// The lowercase form of an upper case ASCII letter is 32 places further on;
/// everything else is its own.
pub proof fn law_lowercase_is_shifted(c: char)
    ensures
        'A' <= c <= 'Z' ==> ascii_lower(c) as int == c as int + 32,
        !('A' <= c <= 'Z') ==> ascii_lower(c) == c,
{
}

/// A text holds every part of itself: what stands between any start and any end
/// of it.
pub proof fn law_text_holds_its_parts(front: Seq<char>, part: Seq<char>, back: Seq<char>)
    ensures
        holds_text(front + part + back, part),
{
    let hay = front + part + back;
    crate::roundtrip::lemma_encode_concat(front + part, back);
    crate::roundtrip::lemma_encode_concat(front, part);
    let at = utf8::encode_utf8(front).len() as int;
    let n = utf8::encode_utf8(part).len();
    assert(utf8::encode_utf8(hay).subrange(at, at + n) =~= utf8::encode_utf8(part));
    assert(stands_at(utf8::encode_utf8(hay), utf8::encode_utf8(part), at));
}

/// The size that is asked for is within what the device allows, and no other
/// such size is nearer to what is wanted; so what is wanted is asked for if the
/// device allows it.
pub proof fn law_nearest_size_is_asked_for(min: u32, max: u32, wanted: u32, other: u32)
    requires
        min <= other <= max,
    ensures
        min <= nearest_size(min, max, wanted) <= max,
        min <= wanted <= max ==> nearest_size(min, max, wanted) == wanted,
        ({
            let chosen = nearest_size(min, max, wanted);
            &&& wanted <= chosen ==> wanted == chosen || chosen <= other
            &&& wanted >= chosen ==> wanted == chosen || chosen >= other
        }),
{
}

/// A text of ASCII characters holds another just when that stands in it as a
/// part, one character after the other. No text holds one with more bytes.
pub proof fn law_only_parts_are_held(hay: Seq<char>, needle: Seq<char>)
    ensures
        utf8::encode_utf8(needle).len() > utf8::encode_utf8(hay).len() ==> !holds_text(hay, needle),
        utf8::is_ascii_chars(hay) && utf8::is_ascii_chars(needle) ==> (holds_text(hay, needle)
            <==> exists|at: int|
            0 <= at <= hay.len() - needle.len() && #[trigger] hay.subrange(at, at + needle.len())
                == needle),
{
    let hb = utf8::encode_utf8(hay);
    let nb = utf8::encode_utf8(needle);
    if utf8::is_ascii_chars(hay) && utf8::is_ascii_chars(needle) {
        utf8::is_ascii_chars_encode_utf8(hay);
        utf8::is_ascii_chars_encode_utf8(needle);
        if holds_text(hay, needle) {
            let at = choose|at: int| #[trigger] stands_at(hb, nb, at);
            assert forall|i: int| 0 <= i < needle.len() implies hay[at + i] == needle[i] by {
                assert(hb.subrange(at, at + nb.len())[i] == nb[i]);
                assert(hay[at + i] as u8 == hb[at + i]);
                assert(needle[i] as u8 == nb[i]);
                assert('\0' <= hay[at + i] <= '\u{7f}');
                assert('\0' <= needle[i] <= '\u{7f}');
            }
            assert(hay.subrange(at, at + needle.len()) =~= needle);
        }
        if exists|at: int|
            0 <= at <= hay.len() - needle.len() && #[trigger] hay.subrange(at, at + needle.len())
                == needle {
            let at = choose|at: int|
                0 <= at <= hay.len() - needle.len() && #[trigger] hay.subrange(
                    at,
                    at + needle.len(),
                ) == needle;
            let n = at + needle.len();
            assert(hay.take(at) + needle + hay.skip(n) =~= hay) by {
                assert(hay.subrange(at, n) == needle);
                assert forall|i: int| at <= i < n implies #[trigger] hay[i] == needle[i - at] by {
                    assert(hay.subrange(at, n)[i - at] == hay[i]);
                }
            }
            law_text_holds_its_parts(hay.take(at), needle, hay.skip(n));
        }
    }
}

/// A device is the default one exactly if there is one and it has that name.
pub proof fn law_default_devices_go_by_name(wanted: Option<String>, name: Seq<char>)
    ensures
        wanted is None ==> !is_named(wanted, name),
        wanted matches Some(w) ==> (is_named(wanted, name) <==> w@ == name),
{
}

proof fn lemma_best_of_prefix(configs: Seq<SupportedConfig>, n: int) -> (best: Option<int>)
    requires
        0 <= n <= configs.len(),
    ensures
        match best {
            Some(b) => is_best(configs.take(n), b),
            None => forall|j: int| 0 <= j < n ==> !usable(#[trigger] configs[j]),
        },
    decreases n,
{
    if n == 0 {
        None
    } else {
        let last = n - 1;
        let front = configs.take(last);
        let all = configs.take(n);
        let before = lemma_best_of_prefix(configs, last);
        assert forall|j: int| 0 <= j < last implies #[trigger] all[j] == front[j] by {}
        assert forall|j: int| 0 <= j < last implies #[trigger] front[j] == configs[j] by {}
        assert(all[last] == configs[last]);
        match before {
            None => {
                if usable(configs[last]) {
                    assert(is_best(all, last));
                    Some(last)
                } else {
                    None
                }
            },
            Some(b) => {
                assert(usable(front[b]));
                if usable(configs[last]) && !no_worse(front[b], configs[last]) {
                    assert forall|j: int| 0 <= j < all.len() && usable(
                        #[trigger] all[j],
                    ) implies no_worse(all[last], all[j]) by {
                        if j < last {
                            assert(usable(front[j]));
                        }
                    }
                    assert forall|j: int| 0 <= j < last && usable(#[trigger] all[j]) implies !no_worse(
                        all[j],
                        all[last],
                    ) by {
                        assert(usable(front[j]));
                    }
                    assert(is_best(all, last));
                    Some(last)
                } else {
                    assert forall|j: int| 0 <= j < all.len() && usable(
                        #[trigger] all[j],
                    ) implies no_worse(all[b], all[j]) by {
                        if j < last {
                            assert(usable(front[j]));
                        }
                    }
                    assert forall|j: int| 0 <= j < b && usable(#[trigger] all[j]) implies !no_worse(
                        all[j],
                        all[b],
                    ) by {
                        assert(usable(front[j]));
                    }
                    assert(is_best(all, b));
                    Some(b)
                }
            },
        }
    }
}

/// A device that offers anything at 48 kHz in a format that can be converted has
/// a config that is chosen.
pub proof fn law_some_config_is_chosen(configs: Seq<SupportedConfig>, j: int)
    requires
        0 <= j < configs.len(),
        configs[j].min_sample_rate <= 48_000 <= configs[j].max_sample_rate,
        configs[j].format != SampleFormat::Other,
    ensures
        exists|i: int| #[trigger] is_best(configs, i),
{
    let best = lemma_best_of_prefix(configs, configs.len() as int);
    assert(usable(configs[j]));
    assert(configs.take(configs.len() as int) =~= configs);
}

} // verus!
