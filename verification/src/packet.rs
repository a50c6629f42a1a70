//! Datagram wire format: hand-rolled, bounds-checked serialization.
//!
//! Layout of every datagram (big-endian):
//!
//! ```text
//! offset 0  u8   magic (0xA5)
//! offset 1  u8   version (high nibble) | packet type (low nibble)
//! offset 2  u16  session id
//! offset 4  u16  sender id (0 = host, 1..=4 = clients, 0xFFFF = unjoined)
//! offset 6  u16  sequence number (per sender, wraps)
//! offset 8  ...  type-specific body
//! ```
//!
//! Audio bodies borrow from the receive buffer. Control bodies deserialize
//! into owned values; they are parsed on the control thread where allocation
//! is fine.
use crate::bytes;
use crate::bytes::{get_uint, put_slice, put_uint};
use crate::{MAGIC, MAX_CLIENTS, MAX_NAME_LEN, PROTOCOL_VERSION, ROOM_CODE_LEN};
use vstd::prelude::*;
use vstd::std_specs::convert::TryFromSpecImpl;
use vstd::utf8;

verus! {

pub const HEADER_LEN: usize = 8;

/// timestamp(4) codec(1) flags(1) len(2)
pub const AUDIO_HEADER_LEN: usize = 8;

pub const AUDIO_FLAG_REDUNDANCY: u8 = 0b0000_0001;

#[derive(Debug, PartialEq, Eq, Structural)]
pub enum ParseError {
    /// The datagram is too short.
    Truncated,
    BadMagic,
    /// Unsupported protocol version.
    BadVersion(u8),
    /// Unknown packet type.
    BadType(u8),
    /// Unknown codec.
    BadCodec(u8),
    /// Unknown deny reason.
    BadDenyReason(u8),
    /// A string field is not UTF-8.
    BadString,
    /// A length field exceeds the datagram.
    BadLength,
    /// There are bytes left after the body.
    TrailingBytes,
    /// A value is out of range.
    OutOfRange,
}

#[derive(Debug, Clone, Copy, PartialEq, Eq, Structural)]
pub enum PacketType {
    Audio,
    Hello,
    Welcome,
    Deny,
    Ping,
    Pong,
    Keepalive,
    Roster,
    Bye,
    Ack,
}

/// The number that stands for a packet type on the wire.
pub open spec fn type_code(t: PacketType) -> u8 {
    match t {
        PacketType::Audio => 0,
        PacketType::Hello => 1,
        PacketType::Welcome => 2,
        PacketType::Deny => 3,
        PacketType::Ping => 4,
        PacketType::Pong => 5,
        PacketType::Keepalive => 6,
        PacketType::Roster => 7,
        PacketType::Bye => 8,
        PacketType::Ack => 9,
    }
}

/// The packet type that a number on the wire stands for.
pub open spec fn type_of_code(v: u8) -> Result<PacketType, ParseError> {
    if v == 0 {
        Ok(PacketType::Audio)
    } else if v == 1 {
        Ok(PacketType::Hello)
    } else if v == 2 {
        Ok(PacketType::Welcome)
    } else if v == 3 {
        Ok(PacketType::Deny)
    } else if v == 4 {
        Ok(PacketType::Ping)
    } else if v == 5 {
        Ok(PacketType::Pong)
    } else if v == 6 {
        Ok(PacketType::Keepalive)
    } else if v == 7 {
        Ok(PacketType::Roster)
    } else if v == 8 {
        Ok(PacketType::Bye)
    } else if v == 9 {
        Ok(PacketType::Ack)
    } else {
        Err(ParseError::BadType(v))
    }
}

impl PacketType {
    /// The number that stands for this type on the wire.
    pub fn code(self) -> (v: u8)
        ensures
            v == type_code(self),
    {
        match self {
            PacketType::Audio => 0,
            PacketType::Hello => 1,
            PacketType::Welcome => 2,
            PacketType::Deny => 3,
            PacketType::Ping => 4,
            PacketType::Pong => 5,
            PacketType::Keepalive => 6,
            PacketType::Roster => 7,
            PacketType::Bye => 8,
            PacketType::Ack => 9,
        }
    }
}

impl TryFromSpecImpl<u8> for PacketType {
    open spec fn obeys_try_from_spec() -> bool {
        true
    }

    open spec fn try_from_spec(v: u8) -> Result<Self, ParseError> {
        type_of_code(v)
    }
}

impl TryFrom<u8> for PacketType {
    type Error = ParseError;

    fn try_from(v: u8) -> (t: Result<Self, ParseError>) {
        match v {
            0 => Ok(PacketType::Audio),
            1 => Ok(PacketType::Hello),
            2 => Ok(PacketType::Welcome),
            3 => Ok(PacketType::Deny),
            4 => Ok(PacketType::Ping),
            5 => Ok(PacketType::Pong),
            6 => Ok(PacketType::Keepalive),
            7 => Ok(PacketType::Roster),
            8 => Ok(PacketType::Bye),
            9 => Ok(PacketType::Ack),
            other => Err(ParseError::BadType(other)),
        }
    }
}

#[derive(Debug, Clone, Copy, PartialEq, Eq, Structural)]
pub enum Codec {
    Opus,
    PcmS16,
    PcmF32,
}

impl Default for Codec {
    fn default() -> (c: Self)
        ensures
            c == Codec::Opus,
    {
        Codec::Opus
    }
}

/// The number that stands for a codec on the wire.
pub open spec fn codec_code(c: Codec) -> u8 {
    match c {
        Codec::Opus => 0,
        Codec::PcmS16 => 1,
        Codec::PcmF32 => 2,
    }
}

/// The codec that a number on the wire stands for.
pub open spec fn codec_of_code(v: u8) -> Result<Codec, ParseError> {
    if v == 0 {
        Ok(Codec::Opus)
    } else if v == 1 {
        Ok(Codec::PcmS16)
    } else if v == 2 {
        Ok(Codec::PcmF32)
    } else {
        Err(ParseError::BadCodec(v))
    }
}

impl Codec {
    /// The number that stands for this codec on the wire.
    pub fn code(self) -> (v: u8)
        ensures
            v == codec_code(self),
    {
        match self {
            Codec::Opus => 0,
            Codec::PcmS16 => 1,
            Codec::PcmF32 => 2,
        }
    }
}

impl TryFromSpecImpl<u8> for Codec {
    open spec fn obeys_try_from_spec() -> bool {
        true
    }

    open spec fn try_from_spec(v: u8) -> Result<Self, ParseError> {
        codec_of_code(v)
    }
}

impl TryFrom<u8> for Codec {
    type Error = ParseError;

    fn try_from(v: u8) -> (c: Result<Self, ParseError>) {
        match v {
            0 => Ok(Codec::Opus),
            1 => Ok(Codec::PcmS16),
            2 => Ok(Codec::PcmF32),
            other => Err(ParseError::BadCodec(other)),
        }
    }
}

#[derive(Debug, Clone, Copy, PartialEq, Eq, Structural)]
pub enum DenyReason {
    BadRoomCode,
    RoomFull,
    VersionMismatch,
}

/// The number that stands for a deny reason on the wire.
pub open spec fn reason_code(r: DenyReason) -> u8 {
    match r {
        DenyReason::BadRoomCode => 0,
        DenyReason::RoomFull => 1,
        DenyReason::VersionMismatch => 2,
    }
}

/// The deny reason that a number on the wire stands for.
pub open spec fn reason_of_code(v: u8) -> Result<DenyReason, ParseError> {
    if v == 0 {
        Ok(DenyReason::BadRoomCode)
    } else if v == 1 {
        Ok(DenyReason::RoomFull)
    } else if v == 2 {
        Ok(DenyReason::VersionMismatch)
    } else {
        Err(ParseError::BadDenyReason(v))
    }
}

impl DenyReason {
    /// The number that stands for this reason on the wire.
    pub fn code(self) -> (v: u8)
        ensures
            v == reason_code(self),
    {
        match self {
            DenyReason::BadRoomCode => 0,
            DenyReason::RoomFull => 1,
            DenyReason::VersionMismatch => 2,
        }
    }
}

impl TryFromSpecImpl<u8> for DenyReason {
    open spec fn obeys_try_from_spec() -> bool {
        true
    }

    open spec fn try_from_spec(v: u8) -> Result<Self, ParseError> {
        reason_of_code(v)
    }
}

impl TryFrom<u8> for DenyReason {
    type Error = ParseError;

    fn try_from(v: u8) -> (r: Result<Self, ParseError>) {
        match v {
            0 => Ok(DenyReason::BadRoomCode),
            1 => Ok(DenyReason::RoomFull),
            2 => Ok(DenyReason::VersionMismatch),
            other => Err(ParseError::BadDenyReason(other)),
        }
    }
}

#[derive(Debug, Clone, Copy, PartialEq, Eq, Structural)]
pub struct Header {
    pub ptype: PacketType,
    pub session_id: u16,
    pub sender_id: u16,
    pub seq: u16,
}

/// The eight bytes of a header.
pub open spec fn header_bytes(h: Header) -> Seq<u8> {
    seq![MAGIC, (PROTOCOL_VERSION * 16 + type_code(h.ptype)) as u8]
        + bytes::be_bytes(h.session_id as nat, 2)
        + bytes::be_bytes(h.sender_id as nat, 2)
        + bytes::be_bytes(h.seq as nat, 2)
}

/// The header at the front of a datagram, and the body behind it.
pub open spec fn header_of(d: Seq<u8>) -> Result<(Header, Seq<u8>), ParseError> {
    if d.len() < HEADER_LEN {
        Err(ParseError::Truncated)
    } else if d[0] != MAGIC {
        Err(ParseError::BadMagic)
    } else if d[1] / 16 != PROTOCOL_VERSION {
        Err(ParseError::BadVersion(d[1] / 16))
    } else {
        match type_of_code(d[1] % 16) {
            Err(e) => Err(e),
            Ok(ptype) => Ok(
                (
                    Header {
                        ptype,
                        session_id: bytes::be_value(d.subrange(2, 4)) as u16,
                        sender_id: bytes::be_value(d.subrange(4, 6)) as u16,
                        seq: bytes::be_value(d.subrange(6, 8)) as u16,
                    },
                    d.skip(HEADER_LEN as int),
                ),
            ),
        }
    }
}

impl Header {
    pub fn write(&self, out: &mut [u8]) -> (n: usize)
        requires
            old(out)@.len() >= HEADER_LEN,
        ensures
            n == HEADER_LEN,
            header_bytes(*self).len() == HEADER_LEN,
            final(out)@ == bytes::overwrite(old(out)@, 0, header_bytes(*self)),
    {
        let ghost before = out@;
        out[0] = MAGIC;
        out[1] = PROTOCOL_VERSION * 16 + self.ptype.code();
        let ghost lead = seq![MAGIC, (PROTOCOL_VERSION * 16 + type_code(self.ptype)) as u8];
        assert(out@ =~= bytes::overwrite(before, 0, lead));
        let n: usize = put_uint(out, 2, self.session_id as u64, 2);
        let n: usize = put_uint(out, n, self.sender_id as u64, 2);
        let n: usize = put_uint(out, n, self.seq as u64, 2);
        proof {
            lemma_header_len(*self);
            let a = bytes::be_bytes(self.session_id as nat, 2);
            let b = bytes::be_bytes(self.sender_id as nat, 2);
            let c = bytes::be_bytes(self.seq as nat, 2);
            bytes::lemma_be_bytes_len(self.session_id as nat, 2);
            bytes::lemma_be_bytes_len(self.sender_id as nat, 2);
            bytes::lemma_be_bytes_len(self.seq as nat, 2);
            bytes::lemma_overwrite_append(before, 0, lead, 2, a);
            bytes::lemma_overwrite_append(before, 0, lead + a, 4, b);
            bytes::lemma_overwrite_append(before, 0, lead + a + b, 6, c);
        }
        n
    }

    pub fn parse(buf: &[u8]) -> (r: Result<(Header, &[u8]), ParseError>)
        ensures
            match (r, header_of(buf@)) {
                (Ok((h, body)), Ok((vh, vbody))) => h == vh && body@ == vbody,
                (Err(e), Err(ve)) => e == ve,
                _ => false,
            },
    {
        if buf.len() < HEADER_LEN {
            return Err(ParseError::Truncated);
        }
        if buf[0] != MAGIC {
            return Err(ParseError::BadMagic);
        }
        let version: u8 = buf[1] / 16;
        if version != PROTOCOL_VERSION {
            return Err(ParseError::BadVersion(version));
        }
        match PacketType::try_from(buf[1] % 16) {
            Err(e) => Err(e),
            Ok(ptype) => {
                proof {
                    bytes::lemma_pow256();
                }
                let header = Header {
                    ptype,
                    session_id: get_uint(buf, 2, 2) as u16,
                    sender_id: get_uint(buf, 4, 2) as u16,
                    seq: get_uint(buf, 6, 2) as u16,
                };
                Ok((header, &buf[HEADER_LEN..buf.len()]))
            },
        }
    }
}

pub proof fn lemma_header_len(h: Header)
    ensures
        header_bytes(h).len() == HEADER_LEN,
{
    bytes::lemma_be_bytes_len(h.session_id as nat, 2);
    bytes::lemma_be_bytes_len(h.sender_id as nat, 2);
    bytes::lemma_be_bytes_len(h.seq as nat, 2);
}

/// A header and the body behind it come back from the bytes of the header
/// followed by the body.
pub proof fn law_header_round_trip(h: Header, body: Seq<u8>)
    ensures
        header_of(header_bytes(h) + body) == Ok::<_, ParseError>((h, body)),
{
    lemma_header_len(h);
    bytes::lemma_pow256();
    let d = header_bytes(h) + body;
    let a = bytes::be_bytes(h.session_id as nat, 2);
    let b = bytes::be_bytes(h.sender_id as nat, 2);
    let c = bytes::be_bytes(h.seq as nat, 2);
    bytes::lemma_be_bytes_len(h.session_id as nat, 2);
    bytes::lemma_be_bytes_len(h.sender_id as nat, 2);
    bytes::lemma_be_bytes_len(h.seq as nat, 2);
    bytes::lemma_be_value_of_bytes(h.session_id as nat, 2);
    bytes::lemma_be_value_of_bytes(h.sender_id as nat, 2);
    bytes::lemma_be_value_of_bytes(h.seq as nat, 2);
    assert(d.subrange(2, 4) =~= a);
    assert(d.subrange(4, 6) =~= b);
    assert(d.subrange(6, 8) =~= c);
    assert(d.skip(HEADER_LEN as int) =~= body);
}

/// A datagram whose header is accepted consists of the bytes of that header
/// and the body.
pub proof fn law_header_is_canonical(d: Seq<u8>)
    requires
        header_of(d) is Ok,
    ensures
        d == header_bytes(header_of(d)->Ok_0.0) + header_of(d)->Ok_0.1,
{
    let (h, body) = header_of(d)->Ok_0;
    bytes::lemma_pow256();
    bytes::lemma_be_bytes_of_value(d.subrange(2, 4));
    bytes::lemma_be_bytes_of_value(d.subrange(4, 6));
    bytes::lemma_be_bytes_of_value(d.subrange(6, 8));
    lemma_header_len(h);
    assert(d =~= header_bytes(h) + body);
}

// The functions below write one field after another. `base` is what the buffer
// held before the first of them, `done` what has been written from its start.
fn append_uint(
    out: &mut [u8],
    at: usize,
    v: u64,
    width: usize,
    Ghost(base): Ghost<Seq<u8>>,
    Ghost(done): Ghost<Seq<u8>>,
) -> (end: usize)
    requires
        old(out)@ == bytes::overwrite(base, 0, done),
        at == done.len(),
        at + width <= base.len(),
    ensures
        final(out)@ == bytes::overwrite(base, 0, done + bytes::be_bytes(v as nat, width as nat)),
        end == (done + bytes::be_bytes(v as nat, width as nat)).len(),
        end == at + width,
{
    proof {
        bytes::lemma_be_bytes_len(v as nat, width as nat);
        bytes::lemma_overwrite_append(
            base,
            0,
            done,
            at as int,
            bytes::be_bytes(v as nat, width as nat),
        );
    }
    put_uint(out, at, v, width)
}

fn append_byte(
    out: &mut [u8],
    at: usize,
    v: u8,
    Ghost(base): Ghost<Seq<u8>>,
    Ghost(done): Ghost<Seq<u8>>,
) -> (end: usize)
    requires
        old(out)@ == bytes::overwrite(base, 0, done),
        at == done.len(),
        at + 1 <= base.len(),
    ensures
        final(out)@ == bytes::overwrite(base, 0, done + seq![v]),
        end == at + 1,
{
    proof {
        bytes::lemma_be_bytes_one(v);
    }
    append_uint(out, at, v as u64, 1, Ghost(base), Ghost(done))
}

fn append_slice(
    out: &mut [u8],
    at: usize,
    v: &[u8],
    Ghost(base): Ghost<Seq<u8>>,
    Ghost(done): Ghost<Seq<u8>>,
) -> (end: usize)
    requires
        old(out)@ == bytes::overwrite(base, 0, done),
        at == done.len(),
        at + v@.len() <= base.len(),
    ensures
        final(out)@ == bytes::overwrite(base, 0, done + v@),
        end == at + v@.len(),
{
    proof {
        bytes::lemma_overwrite_append(base, 0, done, at as int, v@);
    }
    put_slice(out, at, v)
}

// ---------------------------------------------------------------------------
// Audio packets
// ---------------------------------------------------------------------------
#[derive(Debug, Clone, Copy, PartialEq, Eq)]
pub struct AudioPacket<'a> {
    /// Sample clock of the first sample in this frame, in the sender's clock.
    pub timestamp: u32,
    pub codec: Codec,
    pub payload: &'a [u8],
    /// Re-encoded copy of the *previous* frame, if the sender enabled
    /// redundancy (RFC 2198-style). Lets the receiver repair a single loss
    /// with zero added latency.
    pub redundant: Option<&'a [u8]>,
}

/// An audio packet as a mathematical value.
#[verifier::ext_equal]
pub struct AudioView {
    pub timestamp: u32,
    pub codec: Codec,
    pub payload: Seq<u8>,
    pub redundant: Option<Seq<u8>>,
}

impl<'a> View for AudioPacket<'a> {
    type V = AudioView;

    open spec fn view(&self) -> AudioView {
        AudioView {
            timestamp: self.timestamp,
            codec: self.codec,
            payload: self.payload@,
            redundant: match self.redundant {
                None => None,
                Some(r) => Some(r@),
            },
        }
    }
}

/// The fixed part of an audio body.
pub open spec fn audio_head(a: AudioView) -> Seq<u8> {
    bytes::be_bytes(a.timestamp as nat, 4) + seq![
        codec_code(a.codec),
        if a.redundant is Some {
            AUDIO_FLAG_REDUNDANCY
        } else {
            0
        },
    ] + bytes::be_bytes(a.payload.len(), 2)
}

/// The part of an audio body behind the payload.
pub open spec fn audio_tail(a: AudioView) -> Seq<u8> {
    match a.redundant {
        None => Seq::empty(),
        Some(r) => bytes::be_bytes(r.len(), 2) + r,
    }
}

/// The body of an audio packet. The two length fields hold the low 16 bits of
/// the lengths.
pub open spec fn audio_bytes(a: AudioView) -> Seq<u8> {
    audio_head(a) + a.payload + audio_tail(a)
}

/// The redundant frame behind the payload of an audio body.
pub open spec fn redundant_of(flagged: bool, tail: Seq<u8>) -> Result<Option<Seq<u8>>, ParseError> {
    if !flagged {
        if tail.len() != 0 {
            Err(ParseError::TrailingBytes)
        } else {
            Ok(None)
        }
    } else if tail.len() < 2 {
        Err(ParseError::Truncated)
    } else {
        let rlen = bytes::be_value(tail.subrange(0, 2));
        if tail.len() - 2 < rlen {
            Err(ParseError::BadLength)
        } else if tail.len() - 2 > rlen {
            Err(ParseError::TrailingBytes)
        } else {
            Ok(Some(tail.skip(2)))
        }
    }
}

/// The audio packet that a body holds.
pub open spec fn audio_of(body: Seq<u8>) -> Result<AudioView, ParseError> {
    if body.len() < AUDIO_HEADER_LEN {
        Err(ParseError::Truncated)
    } else {
        match codec_of_code(body[4]) {
            Err(e) => Err(e),
            Ok(codec) => {
                let plen = bytes::be_value(body.subrange(6, 8));
                let rest = body.skip(AUDIO_HEADER_LEN as int);
                if rest.len() < plen {
                    Err(ParseError::BadLength)
                } else {
                    match redundant_of(body[5] % 2 == 1, rest.skip(plen as int)) {
                        Err(e) => Err(e),
                        Ok(redundant) => Ok(
                            AudioView {
                                timestamp: bytes::be_value(body.subrange(0, 4)) as u32,
                                codec,
                                payload: rest.take(plen as int),
                                redundant,
                            },
                        ),
                    }
                }
            },
        }
    }
}

pub proof fn lemma_audio_len(a: AudioView)
    ensures
        audio_head(a).len() == AUDIO_HEADER_LEN,
        audio_tail(a).len() == match a.redundant {
            None => 0,
            Some(r) => 2 + r.len(),
        },
        audio_bytes(a).len() == AUDIO_HEADER_LEN + a.payload.len() + audio_tail(a).len(),
{
    bytes::lemma_be_bytes_len(a.timestamp as nat, 4);
    bytes::lemma_be_bytes_len(a.payload.len(), 2);
    if let Some(r) = a.redundant {
        bytes::lemma_be_bytes_len(r.len(), 2);
    }
}

impl<'a> AudioPacket<'a> {
    /// Serializes the audio body after `header` into `out`.
    /// Returns the total datagram length.
    pub fn write(&self, header: &Header, out: &mut [u8]) -> (n: usize)
        requires
            HEADER_LEN + audio_bytes(self@).len() <= old(out)@.len(),
        ensures
            n == HEADER_LEN + audio_bytes(self@).len(),
            n == (header_bytes(*header) + audio_bytes(self@)).len(),
            final(out)@ == bytes::overwrite(
                old(out)@,
                0,
                header_bytes(*header) + audio_bytes(self@),
            ),
    {
        proof {
            lemma_audio_len(self@);
            lemma_header_len(*header);
            bytes::lemma_be_bytes_len(self.timestamp as nat, 4);
            bytes::lemma_be_bytes_len(self.payload@.len(), 2);
        }
        let ghost base = out@;
        let flag: u8 = if self.redundant.is_some() {
            AUDIO_FLAG_REDUNDANCY
        } else {
            0
        };
        let ghost d0 = header_bytes(*header);
        let ghost d1 = d0 + bytes::be_bytes(self.timestamp as nat, 4);
        let ghost d2 = d1 + seq![codec_code(self.codec)];
        let ghost d3 = d2 + seq![flag];
        let ghost d4 = d3 + bytes::be_bytes(self.payload@.len(), 2);
        let ghost d5 = d4 + self.payload@;
        let n: usize = header.write(out);
        let n: usize = append_uint(out, n, self.timestamp as u64, 4, Ghost(base), Ghost(d0));
        let n: usize = append_byte(out, n, self.codec.code(), Ghost(base), Ghost(d1));
        let n: usize = append_byte(out, n, flag, Ghost(base), Ghost(d2));
        let n: usize = append_uint(out, n, self.payload.len() as u64, 2, Ghost(base), Ghost(d3));
        let n: usize = append_slice(out, n, self.payload, Ghost(base), Ghost(d4));
        match self.redundant {
            None => {
                assert(d5 =~= d0 + audio_bytes(self@));
                n
            },
            Some(red) => {
                proof {
                    bytes::lemma_be_bytes_len(red@.len(), 2);
                }
                let ghost d6 = d5 + bytes::be_bytes(red@.len(), 2);
                let n: usize = append_uint(out, n, red.len() as u64, 2, Ghost(base), Ghost(d5));
                let n: usize = append_slice(out, n, red, Ghost(base), Ghost(d6));
                assert(d6 + red@ =~= d0 + audio_bytes(self@));
                n
            },
        }
    }

    /// Parses the body that follows a `PacketType::Audio` header.
    pub fn parse(body: &'a [u8]) -> (r: Result<AudioPacket<'a>, ParseError>)
        ensures
            match (r, audio_of(body@)) {
                (Ok(a), Ok(v)) => a@ == v,
                (Err(e), Err(ve)) => e == ve,
                _ => false,
            },
    {
        if body.len() < AUDIO_HEADER_LEN {
            return Err(ParseError::Truncated);
        }
        proof {
            bytes::lemma_pow256();
        }
        let timestamp: u32 = get_uint(body, 0, 4) as u32;
        let codec = match Codec::try_from(body[4]) {
            Err(e) => {
                return Err(e);
            },
            Ok(codec) => codec,
        };
        let flags: u8 = body[5];
        let plen: usize = get_uint(body, 6, 2) as usize;
        let rest = &body[AUDIO_HEADER_LEN..body.len()];
        if rest.len() < plen {
            return Err(ParseError::BadLength);
        }
        let payload = &rest[0..plen];
        let tail = &rest[plen..rest.len()];
        let redundant = if flags % 2 == 1 {
            if tail.len() < 2 {
                return Err(ParseError::Truncated);
            }
            let rlen: usize = get_uint(tail, 0, 2) as usize;
            let red = &tail[2..tail.len()];
            if red.len() < rlen {
                return Err(ParseError::BadLength);
            }
            if red.len() > rlen {
                return Err(ParseError::TrailingBytes);
            }
            Some(red)
        } else {
            if tail.len() != 0 {
                return Err(ParseError::TrailingBytes);
            }
            None
        };
        Ok(AudioPacket { timestamp, codec, payload, redundant })
    }
}

/// An audio packet whose frames fit their 16-bit length fields comes back from
/// its bytes.
pub proof fn law_audio_round_trip(a: AudioView)
    requires
        a.payload.len() <= 0xFFFF,
        a.redundant matches Some(r) ==> r.len() <= 0xFFFF,
    ensures
        audio_of(audio_bytes(a)) == Ok::<_, ParseError>(a),
{
    lemma_audio_len(a);
    bytes::lemma_pow256();
    let body = audio_bytes(a);
    let plen = a.payload.len();
    bytes::lemma_be_bytes_len(a.timestamp as nat, 4);
    bytes::lemma_be_bytes_len(plen, 2);
    bytes::lemma_be_value_of_bytes(a.timestamp as nat, 4);
    bytes::lemma_be_value_of_bytes(plen, 2);
    assert(body.subrange(0, 4) =~= bytes::be_bytes(a.timestamp as nat, 4));
    assert(body.subrange(6, 8) =~= bytes::be_bytes(plen, 2));
    let rest = body.skip(AUDIO_HEADER_LEN as int);
    assert(rest.take(plen as int) =~= a.payload);
    let tail = rest.skip(plen as int);
    assert(tail =~= audio_tail(a));
    if let Some(r) = a.redundant {
        bytes::lemma_be_bytes_len(r.len(), 2);
        bytes::lemma_be_value_of_bytes(r.len(), 2);
        assert(tail.subrange(0, 2) =~= bytes::be_bytes(r.len(), 2));
        assert(tail.skip(2) =~= r);
    }
}

// ---------------------------------------------------------------------------
// Control packets
// ---------------------------------------------------------------------------
#[derive(Debug, PartialEq, Eq)]
pub struct PlayerInfo {
    pub id: u16,
    pub name: String,
}

/// A roster entry as a mathematical value.
#[verifier::ext_equal]
pub struct PlayerView {
    pub id: u16,
    pub name: Seq<char>,
}

impl View for PlayerInfo {
    type V = PlayerView;

    open spec fn view(&self) -> PlayerView {
        PlayerView { id: self.id, name: self.name@ }
    }
}

impl Clone for PlayerInfo {
    fn clone(&self) -> (p: Self)
        ensures
            p@ == self@,
    {
        PlayerInfo { id: self.id, name: self.name.clone() }
    }
}

/// A list of players as a mathematical value.
pub open spec fn players_view(players: Seq<PlayerInfo>) -> Seq<PlayerView> {
    Seq::new(players.len(), |i: int| players[i]@)
}

/// A copy of a list of players.
pub fn clone_players(players: &Vec<PlayerInfo>) -> (copy: Vec<PlayerInfo>)
    ensures
        players_view(copy@) == players_view(players@),
{
    let mut copy: Vec<PlayerInfo> = Vec::new();
    let mut i: usize = 0;
    while i < players.len()
        invariant
            i <= players@.len(),
            copy@.len() == i,
            forall|j: int| 0 <= j < i ==> #[trigger] copy@[j]@ == players@[j]@,
        decreases players@.len() - i,
    {
        copy.push(players[i].clone());
        i = i + 1;
    }
    assert(players_view(copy@) =~= players_view(players@));
    copy
}

#[derive(Debug, PartialEq, Eq)]
pub enum Control {
    Hello {
        proto_version: u8,
        room_code: [u8; ROOM_CODE_LEN],
        name: String,
        /// Bitmask of `Codec` values the client can use (bit N = codec N).
        codec_mask: u8,
        /// Bitmask of supported frame sizes (bit 0 = 2.5 ms, bit 1 = 5 ms).
        frame_mask: u8,
    },
    Welcome {
        assigned_id: u16,
        session_id: u16,
        sample_rate: u32,
        frame_samples: u16,
        codec: Codec,
        roster: Vec<PlayerInfo>,
    },
    Deny { reason: DenyReason },
    Ping {
        /// Sender's transmit time, microseconds on its own clock.
        t1_us: u64,
    },
    Pong {
        t1_us: u64,
        /// Receive and re-transmit times on the responder's clock.
        t2_us: u64,
        t3_us: u64,
    },
    Keepalive,
    Roster { players: Vec<PlayerInfo> },
    Bye,
    Ack {
        /// Sequence number and type of the control packet being acknowledged.
        acked_seq: u16,
        acked_type: u8,
    },
}

/// A control packet as a mathematical value.
#[verifier::ext_equal]
pub enum ControlView {
    Hello {
        proto_version: u8,
        room_code: Seq<u8>,
        name: Seq<char>,
        codec_mask: u8,
        frame_mask: u8,
    },
    Welcome {
        assigned_id: u16,
        session_id: u16,
        sample_rate: u32,
        frame_samples: u16,
        codec: Codec,
        roster: Seq<PlayerView>,
    },
    Deny { reason: DenyReason },
    Ping { t1_us: u64 },
    Pong { t1_us: u64, t2_us: u64, t3_us: u64 },
    Keepalive,
    Roster { players: Seq<PlayerView> },
    Bye,
    Ack { acked_seq: u16, acked_type: u8 },
}

impl View for Control {
    type V = ControlView;

    open spec fn view(&self) -> ControlView {
        match *self {
            Control::Hello { proto_version, room_code, name, codec_mask, frame_mask } => {
                ControlView::Hello {
                    proto_version,
                    room_code: room_code@,
                    name: name@,
                    codec_mask,
                    frame_mask,
                }
            },
            Control::Welcome {
                assigned_id,
                session_id,
                sample_rate,
                frame_samples,
                codec,
                roster,
            } => {
                ControlView::Welcome {
                    assigned_id,
                    session_id,
                    sample_rate,
                    frame_samples,
                    codec,
                    roster: players_view(roster@),
                }
            },
            Control::Deny { reason } => ControlView::Deny { reason },
            Control::Ping { t1_us } => ControlView::Ping { t1_us },
            Control::Pong { t1_us, t2_us, t3_us } => ControlView::Pong { t1_us, t2_us, t3_us },
            Control::Keepalive => ControlView::Keepalive,
            Control::Roster { players } => ControlView::Roster { players: players_view(players@) },
            Control::Bye => ControlView::Bye,
            Control::Ack { acked_seq, acked_type } => ControlView::Ack { acked_seq, acked_type },
        }
    }
}

impl Clone for Control {
    fn clone(&self) -> (c: Self)
        ensures
            c@ == self@,
    {
        match self {
            Control::Hello { proto_version, room_code, name, codec_mask, frame_mask } => {
                Control::Hello {
                    proto_version: *proto_version,
                    room_code: *room_code,
                    name: name.clone(),
                    codec_mask: *codec_mask,
                    frame_mask: *frame_mask,
                }
            },
            Control::Welcome {
                assigned_id,
                session_id,
                sample_rate,
                frame_samples,
                codec,
                roster,
            } => {
                Control::Welcome {
                    assigned_id: *assigned_id,
                    session_id: *session_id,
                    sample_rate: *sample_rate,
                    frame_samples: *frame_samples,
                    codec: *codec,
                    roster: clone_players(roster),
                }
            },
            Control::Deny { reason } => Control::Deny { reason: *reason },
            Control::Ping { t1_us } => Control::Ping { t1_us: *t1_us },
            Control::Pong { t1_us, t2_us, t3_us } => {
                Control::Pong { t1_us: *t1_us, t2_us: *t2_us, t3_us: *t3_us }
            },
            Control::Keepalive => Control::Keepalive,
            Control::Roster { players } => Control::Roster { players: clone_players(players) },
            Control::Bye => Control::Bye,
            Control::Ack { acked_seq, acked_type } => {
                Control::Ack { acked_seq: *acked_seq, acked_type: *acked_type }
            },
        }
    }
}

/// The packet type that carries a control value.
pub open spec fn control_type(c: ControlView) -> PacketType {
    match c {
        ControlView::Hello { .. } => PacketType::Hello,
        ControlView::Welcome { .. } => PacketType::Welcome,
        ControlView::Deny { .. } => PacketType::Deny,
        ControlView::Ping { .. } => PacketType::Ping,
        ControlView::Pong { .. } => PacketType::Pong,
        ControlView::Keepalive => PacketType::Keepalive,
        ControlView::Roster { .. } => PacketType::Roster,
        ControlView::Bye => PacketType::Bye,
        ControlView::Ack { .. } => PacketType::Ack,
    }
}

/// The largest char boundary of the UTF-8 string `b` that is at most `n`.
pub open spec fn boundary_below(b: Seq<u8>, n: nat) -> nat
    decreases n,
{
    if n == 0 || utf8::is_char_boundary(b, n as int) {
        n
    } else {
        boundary_below(b, (n - 1) as nat)
    }
}

/// The UTF-8 bytes of a name that go on the wire: as many whole chars as fit
/// into `MAX_NAME_LEN` bytes.
pub open spec fn clipped_bytes(name: Seq<char>) -> Seq<u8> {
    let b = utf8::encode_utf8(name);
    let limit = if b.len() < MAX_NAME_LEN {
        b.len()
    } else {
        MAX_NAME_LEN as nat
    };
    b.take(boundary_below(b, limit) as int)
}

/// The name that a reader gets when `name` is sent.
pub open spec fn clipped(name: Seq<char>) -> Seq<char> {
    utf8::decode_utf8(clipped_bytes(name))
}

/// A name on the wire: its length in bytes, then the bytes.
pub open spec fn name_field(name: Seq<char>) -> Seq<u8> {
    seq![clipped_bytes(name).len() as u8] + clipped_bytes(name)
}

/// The entries of a roster on the wire, without the count in front.
pub open spec fn player_entries(players: Seq<PlayerView>) -> Seq<u8>
    decreases players.len(),
{
    if players.len() == 0 {
        Seq::empty()
    } else {
        player_entries(players.drop_last()) + bytes::be_bytes(players.last().id as nat, 2)
            + name_field(players.last().name)
    }
}

/// A roster on the wire: the low byte of the number of players, then one entry
/// for each.
pub open spec fn players_field(players: Seq<PlayerView>) -> Seq<u8> {
    bytes::be_bytes(players.len(), 1) + player_entries(players)
}

/// The body of a control packet.
pub open spec fn control_bytes(c: ControlView) -> Seq<u8> {
    match c {
        ControlView::Hello { proto_version, room_code, name, codec_mask, frame_mask } => {
            seq![proto_version] + room_code + name_field(name) + seq![codec_mask, frame_mask]
        },
        ControlView::Welcome {
            assigned_id,
            session_id,
            sample_rate,
            frame_samples,
            codec,
            roster,
        } => {
            bytes::be_bytes(assigned_id as nat, 2) + bytes::be_bytes(session_id as nat, 2)
                + bytes::be_bytes(sample_rate as nat, 4) + bytes::be_bytes(frame_samples as nat, 2)
                + seq![codec_code(codec)] + players_field(roster)
        },
        ControlView::Deny { reason } => seq![reason_code(reason)],
        ControlView::Ping { t1_us } => bytes::be_bytes(t1_us as nat, 8),
        ControlView::Pong { t1_us, t2_us, t3_us } => {
            bytes::be_bytes(t1_us as nat, 8) + bytes::be_bytes(t2_us as nat, 8) + bytes::be_bytes(
                t3_us as nat,
                8,
            )
        },
        ControlView::Keepalive => Seq::empty(),
        ControlView::Roster { players } => players_field(players),
        ControlView::Bye => Seq::empty(),
        ControlView::Ack { acked_seq, acked_type } => {
            bytes::be_bytes(acked_seq as nat, 2) + seq![acked_type]
        },
    }
}

pub proof fn lemma_boundary_below(b: Seq<u8>, n: nat)
    requires
        utf8::valid_utf8(b),
    ensures
        boundary_below(b, n) <= n,
        utf8::is_char_boundary(b, boundary_below(b, n) as int),
    decreases n,
{
    if n == 0 || utf8::is_char_boundary(b, n as int) {
    } else {
        lemma_boundary_below(b, (n - 1) as nat);
    }
}

pub proof fn lemma_clipped_len(name: Seq<char>)
    ensures
        clipped_bytes(name).len() <= MAX_NAME_LEN,
        clipped_bytes(name).len() <= utf8::encode_utf8(name).len(),
        name_field(name).len() == 1 + clipped_bytes(name).len(),
{
    let b = utf8::encode_utf8(name);
    utf8::encode_utf8_valid_utf8(name);
    let limit = if b.len() < MAX_NAME_LEN {
        b.len()
    } else {
        MAX_NAME_LEN as nat
    };
    lemma_boundary_below(b, limit);
}

/// Truncates on a char boundary so the reader always gets valid UTF-8.
fn append_name(
    out: &mut [u8],
    at: usize,
    name: &str,
    Ghost(base): Ghost<Seq<u8>>,
    Ghost(done): Ghost<Seq<u8>>,
) -> (end: usize)
    requires
        old(out)@ == bytes::overwrite(base, 0, done),
        at == done.len(),
        at + name_field(name@).len() <= base.len(),
    ensures
        final(out)@ == bytes::overwrite(base, 0, done + name_field(name@)),
        end == at + name_field(name@).len(),
{
    let all = name.as_bytes();
    let ghost b = utf8::encode_utf8(name@);
    assert(all@ == b);
    let limit: usize = if all.len() < MAX_NAME_LEN {
        all.len()
    } else {
        MAX_NAME_LEN
    };
    let mut n: usize = limit;
    while n > 0 && !name.is_char_boundary(n)
        invariant
            n <= limit,
            b == utf8::encode_utf8(name@),
            boundary_below(b, n as nat) == boundary_below(b, limit as nat),
        decreases n,
    {
        n = n - 1;
    }
    proof {
        lemma_clipped_len(name@);
        assert(clipped_bytes(name@) == b.take(n as int));
    }
    let end: usize = append_byte(out, at, n as u8, Ghost(base), Ghost(done));
    let ghost done2 = done + seq![n as u8];
    let end: usize = append_slice(out, end, &all[0..n], Ghost(base), Ghost(done2));
    assert(done2 + clipped_bytes(name@) =~= done + name_field(name@));
    end
}

proof fn lemma_player_entries_prefix(players: Seq<PlayerView>, i: int)
    requires
        0 <= i < players.len(),
    ensures
        player_entries(players.take(i + 1)) == player_entries(players.take(i)) + bytes::be_bytes(
            players[i].id as nat,
            2,
        ) + name_field(players[i].name),
        player_entries(players.take(i + 1)).len() == player_entries(players.take(i)).len() + 2
            + name_field(players[i].name).len(),
{
    assert(players.take(i + 1).drop_last() =~= players.take(i));
    bytes::lemma_be_bytes_len(players[i].id as nat, 2);
}

proof fn lemma_player_entries_len(players: Seq<PlayerView>, i: int)
    requires
        0 <= i <= players.len(),
    ensures
        player_entries(players.take(i)).len() <= player_entries(players).len(),
    decreases players.len() - i,
{
    if i < players.len() {
        lemma_player_entries_prefix(players, i);
        lemma_player_entries_len(players, i + 1);
    } else {
        assert(players.take(i) =~= players);
    }
}

fn append_players(
    out: &mut [u8],
    at: usize,
    players: &Vec<PlayerInfo>,
    Ghost(base): Ghost<Seq<u8>>,
    Ghost(done): Ghost<Seq<u8>>,
) -> (end: usize)
    requires
        old(out)@ == bytes::overwrite(base, 0, done),
        at == done.len(),
        at + players_field(players_view(players@)).len() <= base.len(),
    ensures
        final(out)@ == bytes::overwrite(base, 0, done + players_field(players_view(players@))),
        end == at + players_field(players_view(players@)).len(),
{
    let ghost pv = players_view(players@);
    proof {
        bytes::lemma_be_bytes_len(pv.len(), 1);
    }
    let mut n: usize = append_uint(out, at, players.len() as u64, 1, Ghost(base), Ghost(done));
    let ghost start = done + bytes::be_bytes(pv.len(), 1);
    let mut i: usize = 0;
    assert(start + player_entries(pv.take(0)) =~= start);
    while i < players.len()
        invariant
            i <= players@.len(),
            pv == players_view(players@),
            n == (start + player_entries(pv.take(i as int))).len(),
            out@ == bytes::overwrite(base, 0, start + player_entries(pv.take(i as int))),
            start.len() + player_entries(pv).len() <= base.len(),
        decreases players@.len() - i,
    {
        let ghost so_far = start + player_entries(pv.take(i as int));
        let ghost id = bytes::be_bytes(pv[i as int].id as nat, 2);
        proof {
            lemma_player_entries_prefix(pv, i as int);
            lemma_player_entries_len(pv, i + 1);
            bytes::lemma_be_bytes_len(pv[i as int].id as nat, 2);
        }
        n = append_uint(out, n, players[i].id as u64, 2, Ghost(base), Ghost(so_far));
        n = append_name(out, n, players[i].name.as_str(), Ghost(base), Ghost(so_far + id));
        assert(so_far + id + name_field(pv[i as int].name) =~= start + player_entries(
            pv.take(i + 1),
        ));
        i = i + 1;
    }
    assert(pv.take(i as int) =~= pv);
    assert(start + player_entries(pv) =~= done + players_field(pv));
    n
}

impl Control {
    pub fn packet_type(&self) -> (t: PacketType)
        ensures
            t == control_type(self@),
    {
        match self {
            Control::Hello { .. } => PacketType::Hello,
            Control::Welcome { .. } => PacketType::Welcome,
            Control::Deny { .. } => PacketType::Deny,
            Control::Ping { .. } => PacketType::Ping,
            Control::Pong { .. } => PacketType::Pong,
            Control::Keepalive => PacketType::Keepalive,
            Control::Roster { .. } => PacketType::Roster,
            Control::Bye => PacketType::Bye,
            Control::Ack { .. } => PacketType::Ack,
        }
    }

    /// Serializes header + body into `out`, returning the datagram length.
    pub fn write(&self, header: &Header, out: &mut [u8]) -> (n: usize)
        requires
            header.ptype == control_type(self@),
            HEADER_LEN + control_bytes(self@).len() <= old(out)@.len(),
        ensures
            n == HEADER_LEN + control_bytes(self@).len(),
            n == (header_bytes(*header) + control_bytes(self@)).len(),
            final(out)@ == bytes::overwrite(
                old(out)@,
                0,
                header_bytes(*header) + control_bytes(self@),
            ),
    {
        let ghost base = out@;
        let ghost h = header_bytes(*header);
        let ghost body = control_bytes(self@);
        let n: usize = header.write(out);
        match self {
            Control::Hello { proto_version, room_code, name, codec_mask, frame_mask } => {
                let ghost d1 = h + seq![*proto_version];
                let ghost d2 = d1 + room_code@;
                let ghost d3 = d2 + name_field(name@);
                let ghost d4 = d3 + seq![*codec_mask];
                let n: usize = append_byte(out, n, *proto_version, Ghost(base), Ghost(h));
                let n: usize = append_slice(out, n, room_code.as_slice(), Ghost(base), Ghost(d1));
                let n: usize = append_name(out, n, name.as_str(), Ghost(base), Ghost(d2));
                let n: usize = append_byte(out, n, *codec_mask, Ghost(base), Ghost(d3));
                let n: usize = append_byte(out, n, *frame_mask, Ghost(base), Ghost(d4));
                assert(d4 + seq![*frame_mask] =~= h + body);
                n
            },
            Control::Welcome {
                assigned_id,
                session_id,
                sample_rate,
                frame_samples,
                codec,
                roster,
            } => {
                let ghost d1 = h + bytes::be_bytes(*assigned_id as nat, 2);
                let ghost d2 = d1 + bytes::be_bytes(*session_id as nat, 2);
                let ghost d3 = d2 + bytes::be_bytes(*sample_rate as nat, 4);
                let ghost d4 = d3 + bytes::be_bytes(*frame_samples as nat, 2);
                let ghost d5 = d4 + seq![codec_code(*codec)];
                proof {
                    bytes::lemma_be_bytes_len(*assigned_id as nat, 2);
                    bytes::lemma_be_bytes_len(*session_id as nat, 2);
                    bytes::lemma_be_bytes_len(*sample_rate as nat, 4);
                    bytes::lemma_be_bytes_len(*frame_samples as nat, 2);
                    assert(d5 + players_field(players_view(roster@)) =~= h + body);
                }
                let n: usize = append_uint(out, n, *assigned_id as u64, 2, Ghost(base), Ghost(h));
                let n: usize = append_uint(out, n, *session_id as u64, 2, Ghost(base), Ghost(d1));
                let n: usize = append_uint(out, n, *sample_rate as u64, 4, Ghost(base), Ghost(d2));
                let n: usize = append_uint(
                    out,
                    n,
                    *frame_samples as u64,
                    2,
                    Ghost(base),
                    Ghost(d3),
                );
                let n: usize = append_byte(out, n, codec.code(), Ghost(base), Ghost(d4));
                append_players(out, n, roster, Ghost(base), Ghost(d5))
            },
            Control::Deny { reason } => {
                append_byte(out, n, reason.code(), Ghost(base), Ghost(h))
            },
            Control::Ping { t1_us } => {
                proof {
                    bytes::lemma_be_bytes_len(*t1_us as nat, 8);
                }
                append_uint(out, n, *t1_us, 8, Ghost(base), Ghost(h))
            },
            Control::Pong { t1_us, t2_us, t3_us } => {
                let ghost d1 = h + bytes::be_bytes(*t1_us as nat, 8);
                let ghost d2 = d1 + bytes::be_bytes(*t2_us as nat, 8);
                proof {
                    bytes::lemma_be_bytes_len(*t1_us as nat, 8);
                    bytes::lemma_be_bytes_len(*t2_us as nat, 8);
                    bytes::lemma_be_bytes_len(*t3_us as nat, 8);
                    assert(d2 + bytes::be_bytes(*t3_us as nat, 8) =~= h + body);
                }
                let n: usize = append_uint(out, n, *t1_us, 8, Ghost(base), Ghost(h));
                let n: usize = append_uint(out, n, *t2_us, 8, Ghost(base), Ghost(d1));
                append_uint(out, n, *t3_us, 8, Ghost(base), Ghost(d2))
            },
            Control::Keepalive | Control::Bye => {
                assert(h + body =~= h);
                n
            },
            Control::Roster { players } => {
                append_players(out, n, players, Ghost(base), Ghost(h))
            },
            Control::Ack { acked_seq, acked_type } => {
                let ghost d1 = h + bytes::be_bytes(*acked_seq as nat, 2);
                proof {
                    bytes::lemma_be_bytes_len(*acked_seq as nat, 2);
                    assert(d1 + seq![*acked_type] =~= h + body);
                }
                let n: usize = append_uint(out, n, *acked_seq as u64, 2, Ghost(base), Ghost(h));
                append_byte(out, n, *acked_type, Ghost(base), Ghost(d1))
            },
        }
    }
}

// ---------------------------------------------------------------------------
// Reading control bodies
// ---------------------------------------------------------------------------
/// The first `n` bytes of `s`, and what is behind them.
pub open spec fn take_bytes(s: Seq<u8>, n: nat) -> Result<(Seq<u8>, Seq<u8>), ParseError> {
    if s.len() < n {
        Err(ParseError::Truncated)
    } else {
        Ok((s.take(n as int), s.skip(n as int)))
    }
}

/// The number in the first `n` bytes of `s`, and what is behind them.
pub open spec fn take_uint(s: Seq<u8>, n: nat) -> Result<(nat, Seq<u8>), ParseError> {
    if s.len() < n {
        Err(ParseError::Truncated)
    } else {
        Ok((bytes::be_value(s.take(n as int)), s.skip(n as int)))
    }
}

/// The name at the front of `s`, and what is behind it.
pub open spec fn take_name(s: Seq<u8>) -> Result<(Seq<char>, Seq<u8>), ParseError> {
    match take_uint(s, 1) {
        Err(e) => Err(e),
        Ok((n, s)) => {
            if n > MAX_NAME_LEN {
                Err(ParseError::OutOfRange)
            } else if s.len() < n {
                Err(ParseError::Truncated)
            } else if !utf8::valid_utf8(s.take(n as int)) {
                Err(ParseError::BadString)
            } else {
                Ok((utf8::decode_utf8(s.take(n as int)), s.skip(n as int)))
            }
        },
    }
}

/// The `n` roster entries at the front of `s`, and what is behind them.
pub open spec fn take_entries(s: Seq<u8>, n: nat) -> Result<(Seq<PlayerView>, Seq<u8>), ParseError>
    decreases n,
{
    if n == 0 {
        Ok((Seq::empty(), s))
    } else {
        match take_entries(s, (n - 1) as nat) {
            Err(e) => Err(e),
            Ok((players, s)) => match take_uint(s, 2) {
                Err(e) => Err(e),
                Ok((id, s)) => match take_name(s) {
                    Err(e) => Err(e),
                    Ok((name, s)) => Ok((players.push(PlayerView { id: id as u16, name }), s)),
                },
            },
        }
    }
}

/// The roster at the front of `s`, and what is behind it.
pub open spec fn take_players(s: Seq<u8>) -> Result<(Seq<PlayerView>, Seq<u8>), ParseError> {
    match take_uint(s, 1) {
        Err(e) => Err(e),
        Ok((n, s)) => {
            if n > MAX_CLIENTS + 1 {
                Err(ParseError::OutOfRange)
            } else {
                take_entries(s, n)
            }
        },
    }
}

/// A control value that was read, provided that nothing is left behind it.
pub open spec fn finished(c: ControlView, rest: Seq<u8>) -> Result<ControlView, ParseError> {
    if rest.len() == 0 {
        Ok(c)
    } else {
        Err(ParseError::TrailingBytes)
    }
}

pub open spec fn hello_of(s: Seq<u8>) -> Result<ControlView, ParseError> {
    match take_uint(s, 1) {
        Err(e) => Err(e),
        Ok((v, s)) => match take_bytes(s, ROOM_CODE_LEN as nat) {
            Err(e) => Err(e),
            Ok((room_code, s)) => match take_name(s) {
                Err(e) => Err(e),
                Ok((name, s)) => match take_uint(s, 1) {
                    Err(e) => Err(e),
                    Ok((cm, s)) => match take_uint(s, 1) {
                        Err(e) => Err(e),
                        Ok((fm, s)) => finished(
                            ControlView::Hello {
                                proto_version: v as u8,
                                room_code,
                                name,
                                codec_mask: cm as u8,
                                frame_mask: fm as u8,
                            },
                            s,
                        ),
                    },
                },
            },
        },
    }
}

pub open spec fn welcome_of(s: Seq<u8>) -> Result<ControlView, ParseError> {
    match take_uint(s, 2) {
        Err(e) => Err(e),
        Ok((id, s)) => match take_uint(s, 2) {
            Err(e) => Err(e),
            Ok((session, s)) => match take_uint(s, 4) {
                Err(e) => Err(e),
                Ok((rate, s)) => match take_uint(s, 2) {
                    Err(e) => Err(e),
                    Ok((frame, s)) => match take_uint(s, 1) {
                        Err(e) => Err(e),
                        Ok((c, s)) => match codec_of_code(c as u8) {
                            Err(e) => Err(e),
                            Ok(codec) => match take_players(s) {
                                Err(e) => Err(e),
                                Ok((roster, s)) => finished(
                                    ControlView::Welcome {
                                        assigned_id: id as u16,
                                        session_id: session as u16,
                                        sample_rate: rate as u32,
                                        frame_samples: frame as u16,
                                        codec,
                                        roster,
                                    },
                                    s,
                                ),
                            },
                        },
                    },
                },
            },
        },
    }
}

pub open spec fn deny_of(s: Seq<u8>) -> Result<ControlView, ParseError> {
    match take_uint(s, 1) {
        Err(e) => Err(e),
        Ok((r, s)) => match reason_of_code(r as u8) {
            Err(e) => Err(e),
            Ok(reason) => finished(ControlView::Deny { reason }, s),
        },
    }
}

pub open spec fn ping_of(s: Seq<u8>) -> Result<ControlView, ParseError> {
    match take_uint(s, 8) {
        Err(e) => Err(e),
        Ok((t1, s)) => finished(ControlView::Ping { t1_us: t1 as u64 }, s),
    }
}

pub open spec fn pong_of(s: Seq<u8>) -> Result<ControlView, ParseError> {
    match take_uint(s, 8) {
        Err(e) => Err(e),
        Ok((t1, s)) => match take_uint(s, 8) {
            Err(e) => Err(e),
            Ok((t2, s)) => match take_uint(s, 8) {
                Err(e) => Err(e),
                Ok((t3, s)) => finished(
                    ControlView::Pong { t1_us: t1 as u64, t2_us: t2 as u64, t3_us: t3 as u64 },
                    s,
                ),
            },
        },
    }
}

pub open spec fn roster_of(s: Seq<u8>) -> Result<ControlView, ParseError> {
    match take_players(s) {
        Err(e) => Err(e),
        Ok((players, s)) => finished(ControlView::Roster { players }, s),
    }
}

pub open spec fn ack_of(s: Seq<u8>) -> Result<ControlView, ParseError> {
    match take_uint(s, 2) {
        Err(e) => Err(e),
        Ok((acked_seq, s)) => match take_uint(s, 1) {
            Err(e) => Err(e),
            Ok((t, s)) => finished(
                ControlView::Ack { acked_seq: acked_seq as u16, acked_type: t as u8 },
                s,
            ),
        },
    }
}

/// The control value that a body holds behind a header of type `t`.
pub open spec fn control_of(t: PacketType, body: Seq<u8>) -> Result<ControlView, ParseError> {
    match t {
        PacketType::Audio => Err(ParseError::BadType(type_code(t))),
        PacketType::Hello => hello_of(body),
        PacketType::Welcome => welcome_of(body),
        PacketType::Deny => deny_of(body),
        PacketType::Ping => ping_of(body),
        PacketType::Pong => pong_of(body),
        PacketType::Keepalive => finished(ControlView::Keepalive, body),
        PacketType::Roster => roster_of(body),
        PacketType::Bye => finished(ControlView::Bye, body),
        PacketType::Ack => ack_of(body),
    }
}

/// The string that a byte slice spells, by `std::str::from_utf8`, or nothing
/// where that reports an error: it accepts exactly the valid UTF-8 and hands
/// back the same bytes as a string.
#[verifier::external_body]
fn str_from_utf8(b: &[u8]) -> (r: Option<&str>)
    ensures
        r is Some <==> utf8::valid_utf8(b@),
        r matches Some(s) ==> utf8::encode_utf8(s@) == b@,
{
    std::str::from_utf8(b).ok()
}

struct Reader<'a> {
    buf: &'a [u8],
    pos: usize,
}

impl<'a> Reader<'a> {
    spec fn wf(self) -> bool {
        self.pos <= self.buf@.len()
    }

    spec fn rest(self) -> Seq<u8> {
        self.buf@.skip(self.pos as int)
    }

    fn new(buf: &'a [u8]) -> (r: Self)
        ensures
            r.wf(),
            r.rest() == buf@,
    {
        let r = Reader { buf, pos: 0 };
        assert(r.rest() =~= buf@);
        r
    }

    fn bytes(&mut self, n: usize) -> (r: Result<&'a [u8], ParseError>)
        requires
            old(self).wf(),
        ensures
            final(self).wf(),
            match (r, take_bytes(old(self).rest(), n as nat)) {
                (Ok(b), Ok((vb, rest))) => b@ == vb && final(self).rest() == rest,
                (Err(e), Err(ve)) => e == ve,
                _ => false,
            },
    {
        if self.buf.len() - self.pos < n {
            return Err(ParseError::Truncated);
        }
        let s = &self.buf[self.pos..self.pos + n];
        let ghost before = self.rest();
        self.pos = self.pos + n;
        proof {
            assert(s@ =~= before.take(n as int));
            assert(self.rest() =~= before.skip(n as int));
        }
        Ok(s)
    }

    fn uint(&mut self, width: usize) -> (r: Result<u64, ParseError>)
        requires
            old(self).wf(),
            width <= 8,
        ensures
            final(self).wf(),
            match (r, take_uint(old(self).rest(), width as nat)) {
                (Ok(v), Ok((n, rest))) => v == n && v < bytes::pow256(width as nat)
                    && final(self).rest() == rest,
                (Err(e), Err(ve)) => e == ve,
                _ => false,
            },
    {
        match self.bytes(width) {
            Err(e) => Err(e),
            Ok(b) => {
                assert(b@.subrange(0, width as int) =~= b@);
                Ok(get_uint(b, 0, width))
            },
        }
    }

    fn name(&mut self) -> (r: Result<String, ParseError>)
        requires
            old(self).wf(),
        ensures
            final(self).wf(),
            match (r, take_name(old(self).rest())) {
                (Ok(s), Ok((name, rest))) => s@ == name && final(self).rest() == rest,
                (Err(e), Err(ve)) => e == ve,
                _ => false,
            },
    {
        let n: usize = match self.uint(1) {
            Err(e) => {
                return Err(e);
            },
            Ok(n) => {
                proof {
                    bytes::lemma_pow256();
                }
                n as usize
            },
        };
        if n > MAX_NAME_LEN {
            return Err(ParseError::OutOfRange);
        }
        let b = match self.bytes(n) {
            Err(e) => {
                return Err(e);
            },
            Ok(b) => b,
        };
        match str_from_utf8(b) {
            None => Err(ParseError::BadString),
            Some(s) => {
                proof {
                    utf8::encode_utf8_decode_utf8(s@);
                }
                Ok(s.to_owned())
            },
        }
    }

    fn players(&mut self) -> (r: Result<Vec<PlayerInfo>, ParseError>)
        requires
            old(self).wf(),
        ensures
            final(self).wf(),
            match (r, take_players(old(self).rest())) {
                (Ok(p), Ok((players, rest))) => players_view(p@) == players && final(self).rest()
                    == rest,
                (Err(e), Err(ve)) => e == ve,
                _ => false,
            },
    {
        let n: usize = match self.uint(1) {
            Err(e) => {
                return Err(e);
            },
            Ok(n) => {
                proof {
                    bytes::lemma_pow256();
                }
                n as usize
            },
        };
        if n > MAX_CLIENTS + 1 {
            return Err(ParseError::OutOfRange);
        }
        let ghost start = self.rest();
        let mut players: Vec<PlayerInfo> = Vec::with_capacity(n);
        let mut i: usize = 0;
        assert(players_view(players@) =~= Seq::empty());
        while i < n
            invariant
                i <= n,
                self.wf(),
                n <= MAX_CLIENTS + 1,
                take_players(old(self).rest()) == take_entries(start, n as nat),
                take_entries(start, i as nat) == Ok::<_, ParseError>(
                    (players_view(players@), self.rest()),
                ),
            decreases n - i,
        {
            proof {
                lemma_take_entries_stops(start, (i + 1) as nat, n as nat);
                bytes::lemma_pow256();
            }
            let id: u16 = match self.uint(2) {
                Err(e) => {
                    return Err(e);
                },
                Ok(id) => id as u16,
            };
            let name = match self.name() {
                Err(e) => {
                    return Err(e);
                },
                Ok(name) => name,
            };
            let ghost before = players_view(players@);
            let ghost entry = PlayerView { id, name: name@ };
            players.push(PlayerInfo { id, name });
            assert(players_view(players@) =~= before.push(entry));
            i = i + 1;
        }
        Ok(players)
    }

    fn finish(self) -> (r: Result<(), ParseError>)
        requires
            self.wf(),
        ensures
            self.rest().len() == 0 ==> r is Ok,
            self.rest().len() != 0 ==> r == Err::<(), _>(ParseError::TrailingBytes),
    {
        if self.pos == self.buf.len() {
            Ok(())
        } else {
            Err(ParseError::TrailingBytes)
        }
    }
}

proof fn lemma_take_entries_stops(s: Seq<u8>, i: nat, n: nat)
    requires
        i <= n,
    ensures
        take_entries(s, i) matches Err(e) ==> take_entries(s, n) == Err::<
            (Seq<PlayerView>, Seq<u8>),
            _,
        >(e),
    decreases n,
{
    if i < n {
        lemma_take_entries_stops(s, i, (n - 1) as nat);
    }
}

impl Control {
    /// Parses the body that follows a control-type header.
    pub fn parse(ptype: PacketType, body: &[u8]) -> (r: Result<Control, ParseError>)
        ensures
            match (r, control_of(ptype, body@)) {
                (Ok(c), Ok(v)) => c@ == v,
                (Err(e), Err(ve)) => e == ve,
                _ => false,
            },
    {
        proof {
            bytes::lemma_pow256();
        }
        let mut r = Reader::new(body);
        let control = match ptype {
            PacketType::Audio => {
                return Err(ParseError::BadType(ptype.code()));
            },
            PacketType::Hello => {
                let proto_version: u8 = r.uint(1)? as u8;
                let b = r.bytes(ROOM_CODE_LEN)?;
                let room_code = [b[0], b[1], b[2], b[3], b[4], b[5]];
                assert(room_code@ =~= b@);
                let name = r.name()?;
                let codec_mask: u8 = r.uint(1)? as u8;
                let frame_mask: u8 = r.uint(1)? as u8;
                Control::Hello { proto_version, room_code, name, codec_mask, frame_mask }
            },
            PacketType::Welcome => {
                let assigned_id: u16 = r.uint(2)? as u16;
                let session_id: u16 = r.uint(2)? as u16;
                let sample_rate: u32 = r.uint(4)? as u32;
                let frame_samples: u16 = r.uint(2)? as u16;
                let codec = Codec::try_from(r.uint(1)? as u8)?;
                let roster = r.players()?;
                Control::Welcome {
                    assigned_id,
                    session_id,
                    sample_rate,
                    frame_samples,
                    codec,
                    roster,
                }
            },
            PacketType::Deny => {
                let reason = DenyReason::try_from(r.uint(1)? as u8)?;
                Control::Deny { reason }
            },
            PacketType::Ping => {
                let t1_us: u64 = r.uint(8)?;
                Control::Ping { t1_us }
            },
            PacketType::Pong => {
                let t1_us: u64 = r.uint(8)?;
                let t2_us: u64 = r.uint(8)?;
                let t3_us: u64 = r.uint(8)?;
                Control::Pong { t1_us, t2_us, t3_us }
            },
            PacketType::Keepalive => Control::Keepalive,
            PacketType::Roster => {
                let players = r.players()?;
                Control::Roster { players }
            },
            PacketType::Bye => Control::Bye,
            PacketType::Ack => {
                let acked_seq: u16 = r.uint(2)? as u16;
                let acked_type: u8 = r.uint(1)? as u8;
                Control::Ack { acked_seq, acked_type }
            },
        };
        r.finish()?;
        Ok(control)
    }
}

/// A fully parsed datagram.
#[derive(Debug, Clone, PartialEq)]
pub enum Payload<'a> {
    Audio(AudioPacket<'a>),
    Control(Control),
}

/// What a datagram carries, as a mathematical value.
#[verifier::ext_equal]
pub enum PayloadView {
    Audio(AudioView),
    Control(ControlView),
}

impl<'a> View for Payload<'a> {
    type V = PayloadView;

    open spec fn view(&self) -> PayloadView {
        match *self {
            Payload::Audio(a) => PayloadView::Audio(a@),
            Payload::Control(c) => PayloadView::Control(c@),
        }
    }
}

/// The header and the value that a datagram carries.
pub open spec fn datagram_of(d: Seq<u8>) -> Result<(Header, PayloadView), ParseError> {
    match header_of(d) {
        Err(e) => Err(e),
        Ok((header, body)) => {
            if header.ptype == PacketType::Audio {
                match audio_of(body) {
                    Err(e) => Err(e),
                    Ok(a) => Ok((header, PayloadView::Audio(a))),
                }
            } else {
                match control_of(header.ptype, body) {
                    Err(e) => Err(e),
                    Ok(c) => Ok((header, PayloadView::Control(c))),
                }
            }
        },
    }
}

/// Parses a whole datagram. This is the single entry point the receive
/// thread uses; it accepts or rejects any input, and never panics.
pub fn parse_datagram(datagram: &[u8]) -> (r: Result<(Header, Payload<'_>), ParseError>)
    ensures
        match (r, datagram_of(datagram@)) {
            (Ok((h, p)), Ok((vh, vp))) => h == vh && p@ == vp,
            (Err(e), Err(ve)) => e == ve,
            _ => false,
        },
{
    let (header, body) = Header::parse(datagram)?;
    let payload = match header.ptype {
        PacketType::Audio => Payload::Audio(AudioPacket::parse(body)?),
        ptype => Payload::Control(Control::parse(ptype, body)?),
    };
    Ok((header, payload))
}

/// Key identifying a reliable control packet awaiting acknowledgement.
#[derive(Debug, Clone, Copy, PartialEq, Eq, Hash, Structural)]
pub struct AckKey {
    pub seq: u16,
    pub ptype: u8,
}

/// Whether a packet is sent again until it is answered.
pub open spec fn sent_reliably(ptype: PacketType) -> bool {
    ptype == PacketType::Hello || ptype == PacketType::Welcome
}

/// The two packets of the handshake are sent again until they are answered;
/// audio and all other control packets are sent once.
pub proof fn law_only_the_handshake_is_reliable(c: ControlView)
    ensures
        sent_reliably(control_type(c)) <==> c is Hello || c is Welcome,
        !sent_reliably(PacketType::Audio),
{
}

/// Whether this control type is sent reliably. HELLO retransmits until its
/// implicit ack (WELCOME/DENY) arrives; WELCOME retransmits until ACKed.
/// Everything else is best-effort: a lost ROSTER only staleness the name
/// list until the next join/leave, and BYE is repeated blindly on shutdown.
pub fn is_reliable(ptype: PacketType) -> (r: bool)
    ensures
        r == (ptype == PacketType::Hello || ptype == PacketType::Welcome),
        r == sent_reliably(ptype),
{
    matches!(ptype, PacketType::Hello | PacketType::Welcome)
}

/// What is remembered after a control packet came in, and whether it is accepted:
/// the first one, and any that is newer than the last that was.
pub open spec fn accepted_after(last: Option<u16>, incoming: u16) -> (Option<u16>, bool) {
    match last {
        Some(prev) if crate::seq::ring_diff(incoming, prev) <= 0 => (last, false),
        _ => (Some(incoming), true),
    }
}

/// The first packet is accepted, and from then on those that are up to 32767
/// ahead of the last one that was. The same one again is refused, and so is
/// every older one; what is refused is not remembered.
pub proof fn law_only_newer_packets_are_accepted(prev: u16, k: int)
    requires
        0 < k <= 0x7FFF,
    ensures
        accepted_after(None, prev) == (Some(prev), true),
        accepted_after(Some(prev), prev) == (Some(prev), false),
        accepted_after(Some(prev), crate::seq::ring_add(prev, k)) == (
            Some(crate::seq::ring_add(prev, k)),
            true,
        ),
        accepted_after(Some(crate::seq::ring_add(prev, k)), prev) == (
            Some(crate::seq::ring_add(prev, k)),
            false,
        ),
{
}

/// Stale-sequence filtering used by receivers: accept a control packet only if
/// its seq is newer than the last one seen from that sender (per type),
/// tolerating the first packet.
pub fn accept_control_seq(last: &mut Option<u16>, incoming: u16) -> (accepted: bool)
    ensures
        (*final(last), accepted) == accepted_after(*old(last), incoming),
        accepted == (*old(last) matches Some(prev) ==> crate::seq::ring_diff(incoming, prev) > 0),
        *final(last) == if accepted {
            Some(incoming)
        } else {
            *old(last)
        },
{
    match *last {
        None => {
            *last = Some(incoming);
            true
        },
        Some(prev) => {
            if crate::seq::newer_than(incoming, prev) {
                *last = Some(incoming);
                true
            } else {
                false
            }
        },
    }
}

} // verus!
