//! Protocol definitions: priorities, message and encoding types, the
//! 10-byte message header, the 4-byte fixed-channel header and the framing
//! of an encoded message with or without a trailing checksum.

use vstd::prelude::*;

use crate::bytes::{be16, be24, be32, copy_range, from_be24, get_be16, get_be32, lemma_be16_roundtrip, lemma_be24_roundtrip, lemma_be16_of_bytes, lemma_be24_of_bytes, lemma_be32_of_bytes, lemma_be32_roundtrip, push_all, push_be32, read_be16, read_be32};
use crate::error::DecodeError;
use crate::hashing::{xxh32, xxh32_digest};

verus! {

/// Checksum size in bytes (xxHash32).
pub const CHECKSUM_SIZE: usize = 4;

/// Priority levels for data classification.
#[derive(Debug, Clone, Copy, PartialEq, Eq, Structural, PartialOrd, Ord, Hash, Default)]
pub enum Priority {
    /// Critical - immediate transmission with acknowledgment required
    P1Critical,
    /// Important - immediate transmission
    P2Important,
    /// Normal - standard transmission
    #[default]
    P3Normal,
    /// Deferred - stored locally, sent on request
    P4Deferred,
    /// Disposable - never sent spontaneously
    P5Disposable,
}

impl Priority {
    /// The wire code of a priority (0 for P1 up to 4 for P5).
    pub open spec fn spec_to_u8(self) -> u8 {
        match self {
            Priority::P1Critical => 0,
            Priority::P2Important => 1,
            Priority::P3Normal => 2,
            Priority::P4Deferred => 3,
            Priority::P5Disposable => 4,
        }
    }

    /// The priority whose wire code is `value`, if any.
    pub open spec fn spec_from_u8(value: u8) -> Option<Priority> {
        if value == 0 {
            Some(Priority::P1Critical)
        } else if value == 1 {
            Some(Priority::P2Important)
        } else if value == 2 {
            Some(Priority::P3Normal)
        } else if value == 3 {
            Some(Priority::P4Deferred)
        } else if value == 4 {
            Some(Priority::P5Disposable)
        } else {
            None
        }
    }

    /// Wire code of this priority.
    pub fn to_u8(&self) -> (r: u8)
        ensures
            r == self.spec_to_u8(),
    {
        match self {
            Priority::P1Critical => 0,
            Priority::P2Important => 1,
            Priority::P3Normal => 2,
            Priority::P4Deferred => 3,
            Priority::P5Disposable => 4,
        }
    }

    /// Check if this priority level should be transmitted immediately.
    pub fn should_transmit(&self) -> (r: bool)
        ensures
            r == (self.spec_to_u8() <= 2),
    {
        match self {
            Priority::P1Critical | Priority::P2Important | Priority::P3Normal => true,
            _ => false,
        }
    }

    /// Check if this priority requires acknowledgment.
    pub fn requires_ack(&self) -> (r: bool)
        ensures
            r == (*self == Priority::P1Critical),
    {
        match self {
            Priority::P1Critical => true,
            _ => false,
        }
    }

    /// Convert from u8.
    pub fn from_u8(value: u8) -> (r: Option<Self>)
        ensures
            r == Self::spec_from_u8(value),
    {
        match value {
            0 => Some(Priority::P1Critical),
            1 => Some(Priority::P2Important),
            2 => Some(Priority::P3Normal),
            3 => Some(Priority::P4Deferred),
            4 => Some(Priority::P5Disposable),
            _ => None,
        }
    }

    /// Text of this priority ("P1-CRITICAL" ... "P5-DISPOSABLE").
    pub fn as_str(&self) -> (r: &'static str)
        ensures
            r@ == self.spec_name(),
    {
        match self {
            Priority::P1Critical => "P1-CRITICAL",
            Priority::P2Important => "P2-IMPORTANT",
            Priority::P3Normal => "P3-NORMAL",
            Priority::P4Deferred => "P4-DEFERRED",
            Priority::P5Disposable => "P5-DISPOSABLE",
        }
    }

    /// The text of a priority.
    pub open spec fn spec_name(self) -> Seq<char> {
        match self {
            Priority::P1Critical => "P1-CRITICAL"@,
            Priority::P2Important => "P2-IMPORTANT"@,
            Priority::P3Normal => "P3-NORMAL"@,
            Priority::P4Deferred => "P4-DEFERRED"@,
            Priority::P5Disposable => "P5-DISPOSABLE"@,
        }
    }
}

/// Decoding the wire code of a priority gives the priority back, and the
/// codes that decode are exactly those below 5, each the code of what it
/// decodes to.
pub proof fn lemma_priority_code_roundtrip(p: Priority, v: u8)
    ensures
        Priority::spec_from_u8(p.spec_to_u8()) == Some(p),
        Priority::spec_from_u8(v).is_some() <==> v < 5,
        Priority::spec_from_u8(v) matches Some(q) ==> q.spec_to_u8() == v,
{
}

/// Message types in the protocol.
#[derive(Debug, Clone, Copy, PartialEq, Eq, Structural, Hash, Default)]
pub enum MessageType {
    /// Encoded data payload
    #[default]
    Data,
    /// Context synchronization
    Sync,
    /// Request from receiver
    Request,
    /// Response to request
    Response,
    /// Acknowledgment
    Ack,
    /// Negative acknowledgment
    Nack,
    /// Keep-alive heartbeat
    Heartbeat,
    /// Fixed-channel data frame (its wire format uses `CompactHeader`)
    DataFixedChannel,
}

impl MessageType {
    /// The wire code of a message type (0 to 7).
    pub open spec fn spec_to_u8(self) -> u8 {
        match self {
            MessageType::Data => 0,
            MessageType::Sync => 1,
            MessageType::Request => 2,
            MessageType::Response => 3,
            MessageType::Ack => 4,
            MessageType::Nack => 5,
            MessageType::Heartbeat => 6,
            MessageType::DataFixedChannel => 7,
        }
    }

    /// The message type whose wire code is `value`, if any.
    pub open spec fn spec_from_u8(value: u8) -> Option<MessageType> {
        if value == 0 {
            Some(MessageType::Data)
        } else if value == 1 {
            Some(MessageType::Sync)
        } else if value == 2 {
            Some(MessageType::Request)
        } else if value == 3 {
            Some(MessageType::Response)
        } else if value == 4 {
            Some(MessageType::Ack)
        } else if value == 5 {
            Some(MessageType::Nack)
        } else if value == 6 {
            Some(MessageType::Heartbeat)
        } else if value == 7 {
            Some(MessageType::DataFixedChannel)
        } else {
            None
        }
    }

    /// Wire code of this message type.
    pub fn to_u8(&self) -> (r: u8)
        ensures
            r == self.spec_to_u8(),
    {
        match self {
            MessageType::Data => 0,
            MessageType::Sync => 1,
            MessageType::Request => 2,
            MessageType::Response => 3,
            MessageType::Ack => 4,
            MessageType::Nack => 5,
            MessageType::Heartbeat => 6,
            MessageType::DataFixedChannel => 7,
        }
    }

    /// Convert from u8.
    pub fn from_u8(value: u8) -> (r: Option<Self>)
        ensures
            r == Self::spec_from_u8(value),
    {
        match value {
            0 => Some(MessageType::Data),
            1 => Some(MessageType::Sync),
            2 => Some(MessageType::Request),
            3 => Some(MessageType::Response),
            4 => Some(MessageType::Ack),
            5 => Some(MessageType::Nack),
            6 => Some(MessageType::Heartbeat),
            7 => Some(MessageType::DataFixedChannel),
            _ => None,
        }
    }
}

/// Decoding the wire code of a message type gives it back; exactly the codes
/// below 8 decode, each to the type whose code it is.
pub proof fn lemma_message_type_code_roundtrip(t: MessageType, v: u8)
    ensures
        MessageType::spec_from_u8(t.spec_to_u8()) == Some(t),
        MessageType::spec_from_u8(v).is_some() <==> v < 8,
        MessageType::spec_from_u8(v) matches Some(q) ==> q.spec_to_u8() == v,
{
}

/// Marker byte for a regular fixed-channel data frame.
pub const COMPACT_MARKER_DATA: u8 = 0xA1;

/// Marker byte for a fixed-channel keyframe frame.
pub const COMPACT_MARKER_KEYFRAME: u8 = 0xA2;

/// Whether a byte is a fixed-channel marker: `Some(true)` for the keyframe
/// marker, `Some(false)` for the data marker, `None` for any other byte.
pub fn classify_compact_marker(byte: u8) -> (r: Option<bool>)
    ensures
        r == (if byte == COMPACT_MARKER_DATA {
            Some(false)
        } else if byte == COMPACT_MARKER_KEYFRAME {
            Some(true)
        } else {
            None::<bool>
        }),
{
    if byte == COMPACT_MARKER_DATA {
        Some(false)
    } else if byte == COMPACT_MARKER_KEYFRAME {
        Some(true)
    } else {
        None
    }
}

/// 4-byte fixed-channel header: sequence and truncated context version,
/// both big-endian on the wire.
#[derive(Debug, Clone, Copy, PartialEq, Eq, Structural)]
pub struct CompactHeader {
    /// Frame sequence number
    pub sequence: u16,
    /// Context version (low 16 bits of the encoder's version)
    pub context_version: u16,
}

impl CompactHeader {
    /// Size of the compact header on the wire (excludes the marker byte).
    pub const SIZE: usize = 4;

    /// The four wire bytes of this header.
    pub open spec fn spec_bytes(self) -> Seq<u8> {
        be16(self.sequence) + be16(self.context_version)
    }

    /// The header that four bytes encode.
    pub open spec fn spec_read(s: Seq<u8>) -> CompactHeader {
        CompactHeader { sequence: read_be16(s, 0), context_version: read_be16(s, 2) }
    }

    /// Create a new compact header.
    pub fn new(sequence: u16, context_version: u16) -> (r: Self)
        ensures
            r.sequence == sequence,
            r.context_version == context_version,
    {
        CompactHeader { sequence, context_version }
    }

    /// Serialize the header into `buf[..4]`; fails, leaving `buf` as it was,
    /// when `buf` holds fewer than 4 bytes.
    pub fn write(&self, buf: &mut [u8]) -> (r: core::result::Result<usize, DecodeError>)
        ensures
            old(buf)@.len() < 4 ==> r == Err::<usize, DecodeError>(
                DecodeError::BufferTooShort { needed: 4, available: old(buf)@.len() as usize },
            ) && final(buf)@ == old(buf)@,
            old(buf)@.len() >= 4 ==> r == Ok::<usize, DecodeError>(4) && final(buf)@ == self.spec_bytes()
                + old(buf)@.subrange(4, old(buf)@.len() as int),
    {
        if buf.len() < 4 {
            return Err(DecodeError::BufferTooShort { needed: 4, available: buf.len() });
        }
        buf[0] = (self.sequence / 256) as u8;
        buf[1] = (self.sequence % 256) as u8;
        buf[2] = (self.context_version / 256) as u8;
        buf[3] = (self.context_version % 256) as u8;
        assert(buf@ =~= self.spec_bytes() + old(buf)@.subrange(4, old(buf)@.len() as int));
        Ok(4)
    }

    /// Parse a header from `buf[..4]`.
    pub fn read(buf: &[u8]) -> (r: core::result::Result<Self, DecodeError>)
        ensures
            buf@.len() < 4 ==> r == Err::<CompactHeader, DecodeError>(
                DecodeError::BufferTooShort { needed: 4, available: buf@.len() as usize },
            ),
            buf@.len() >= 4 ==> r == Ok::<CompactHeader, DecodeError>(Self::spec_read(buf@)),
    {
        if buf.len() < 4 {
            return Err(DecodeError::BufferTooShort { needed: 4, available: buf.len() });
        }
        Ok(CompactHeader { sequence: get_be16(buf, 0), context_version: get_be16(buf, 2) })
    }
}

/// Reading the bytes written for a compact header gives the header back.
pub proof fn lemma_compact_header_roundtrip(h: CompactHeader, rest: Seq<u8>)
    ensures
        (h.spec_bytes() + rest).len() == 4 + rest.len(),
        CompactHeader::spec_read(h.spec_bytes() + rest) == h,
{
    lemma_be16_roundtrip(h.sequence);
    lemma_be16_roundtrip(h.context_version);
}

/// The forward distance from `last` to `incoming` on the ring of `u16`.
pub open spec fn ring_forward_distance(incoming: u16, last: u16) -> int {
    if incoming >= last {
        incoming - last
    } else {
        incoming + 65536 - last
    }
}

/// Whether `incoming` is a forward step of at most `max_forward_jump` from
/// `last`, counting around the `u16` ring.
pub open spec fn spec_ctx_version_compatible(incoming: u16, last: u16, max_forward_jump: u16) -> bool {
    ring_forward_distance(incoming, last) <= max_forward_jump
}

/// Check whether an incoming u16 context version is a compatible successor
/// of the locally tracked `last` version: any forward step of at most
/// `max_forward_jump`, wrapping past 65535 included, is compatible.
pub fn ctx_version_compatible(incoming: u16, last: u16, max_forward_jump: u16) -> (r: bool)
    ensures
        r == spec_ctx_version_compatible(incoming, last, max_forward_jump),
{
    let forward = incoming.wrapping_sub(last);
    forward <= max_forward_jump
}

/// Every forward step of at most `max_forward_jump` from `last`, wrapping
/// past 65535 or not, is compatible; a step that is not such a forward
/// step is not.
pub proof fn lemma_ctx_version_forward_steps(last: u16, step: u16, max_forward_jump: u16)
    ensures
        spec_ctx_version_compatible(((last + step) % 65536) as u16, last, max_forward_jump)
            <==> step <= max_forward_jump,
{
}

/// Encoding types for data compression.
#[derive(Debug, Clone, Copy, PartialEq, Eq, Structural, PartialOrd, Ord, Hash, Default)]
pub enum EncodingType {
    /// Raw float64, big-endian (8 bytes)
    #[default]
    Raw64,
    /// Raw float32, big-endian (4 bytes)
    Raw32,
    /// Delta encoded as i8 (1 byte)
    Delta8,
    /// Delta encoded as i16 big-endian (2 bytes)
    Delta16,
    /// Delta encoded as i32 big-endian (4 bytes)
    Delta32,
    /// Reference to dictionary pattern
    Pattern,
    /// Pattern reference with delta8 adjustment
    PatternDelta,
    /// Same value as previous (0 bytes)
    Repeated,
    /// Exact predicted value (0 bytes)
    Interpolated,
    /// Multiple values in one message
    Multi,
}

impl EncodingType {
    /// The wire code of an encoding type.
    pub open spec fn spec_to_u8(self) -> u8 {
        match self {
            EncodingType::Raw64 => 0x00,
            EncodingType::Raw32 => 0x01,
            EncodingType::Delta8 => 0x10,
            EncodingType::Delta16 => 0x11,
            EncodingType::Delta32 => 0x12,
            EncodingType::Pattern => 0x20,
            EncodingType::PatternDelta => 0x21,
            EncodingType::Repeated => 0x30,
            EncodingType::Interpolated => 0x31,
            EncodingType::Multi => 0x40,
        }
    }

    /// The encoding type whose wire code is `value`, if any.
    pub open spec fn spec_from_u8(value: u8) -> Option<EncodingType> {
        if value == 0x00 {
            Some(EncodingType::Raw64)
        } else if value == 0x01 {
            Some(EncodingType::Raw32)
        } else if value == 0x10 {
            Some(EncodingType::Delta8)
        } else if value == 0x11 {
            Some(EncodingType::Delta16)
        } else if value == 0x12 {
            Some(EncodingType::Delta32)
        } else if value == 0x20 {
            Some(EncodingType::Pattern)
        } else if value == 0x21 {
            Some(EncodingType::PatternDelta)
        } else if value == 0x30 {
            Some(EncodingType::Repeated)
        } else if value == 0x31 {
            Some(EncodingType::Interpolated)
        } else if value == 0x40 {
            Some(EncodingType::Multi)
        } else {
            None
        }
    }

    /// The typical payload size of an encoding type (excluding header).
    pub open spec fn spec_typical_size(self) -> usize {
        match self {
            EncodingType::Raw64 => 8,
            EncodingType::Raw32 => 4,
            EncodingType::Delta8 => 1,
            EncodingType::Delta16 => 2,
            EncodingType::Delta32 => 4,
            EncodingType::Pattern => 2,
            EncodingType::PatternDelta => 3,
            EncodingType::Repeated => 0,
            EncodingType::Interpolated => 0,
            EncodingType::Multi => 0,
        }
    }

    /// Wire code of this encoding type.
    pub fn to_u8(&self) -> (r: u8)
        ensures
            r == self.spec_to_u8(),
    {
        match self {
            EncodingType::Raw64 => 0x00,
            EncodingType::Raw32 => 0x01,
            EncodingType::Delta8 => 0x10,
            EncodingType::Delta16 => 0x11,
            EncodingType::Delta32 => 0x12,
            EncodingType::Pattern => 0x20,
            EncodingType::PatternDelta => 0x21,
            EncodingType::Repeated => 0x30,
            EncodingType::Interpolated => 0x31,
            EncodingType::Multi => 0x40,
        }
    }

    /// Convert from u8.
    pub fn from_u8(value: u8) -> (r: Option<Self>)
        ensures
            r == Self::spec_from_u8(value),
    {
        match value {
            0x00 => Some(EncodingType::Raw64),
            0x01 => Some(EncodingType::Raw32),
            0x10 => Some(EncodingType::Delta8),
            0x11 => Some(EncodingType::Delta16),
            0x12 => Some(EncodingType::Delta32),
            0x20 => Some(EncodingType::Pattern),
            0x21 => Some(EncodingType::PatternDelta),
            0x30 => Some(EncodingType::Repeated),
            0x31 => Some(EncodingType::Interpolated),
            0x40 => Some(EncodingType::Multi),
            _ => None,
        }
    }

    /// Get the typical size of this encoding (excluding header).
    pub fn typical_size(&self) -> (r: usize)
        ensures
            r == self.spec_typical_size(),
    {
        match self {
            EncodingType::Raw64 => 8,
            EncodingType::Raw32 => 4,
            EncodingType::Delta8 => 1,
            EncodingType::Delta16 => 2,
            EncodingType::Delta32 => 4,
            EncodingType::Pattern => 2,
            EncodingType::PatternDelta => 3,
            EncodingType::Repeated => 0,
            EncodingType::Interpolated => 0,
            EncodingType::Multi => 0,
        }
    }
}

/// Decoding the wire code of an encoding type gives it back, and every code
/// that decodes is the code of what it decodes to.
pub proof fn lemma_encoding_type_code_roundtrip(e: EncodingType, v: u8)
    ensures
        EncodingType::spec_from_u8(e.spec_to_u8()) == Some(e),
        EncodingType::spec_from_u8(v) matches Some(q) ==> q.spec_to_u8() == v,
{
}

/// Header size in bytes.
pub const HEADER_SIZE: usize = 10;

/// Message header (10 bytes on the wire).
#[derive(Debug, Clone, PartialEq, Eq, Structural)]
pub struct MessageHeader {
    /// Protocol version (2 bits in the header byte)
    pub version: u8,
    /// Message type (3 bits in the header byte)
    pub message_type: MessageType,
    /// Priority level (3 bits in the header byte)
    pub priority: Priority,
    /// Sequence number (wraps every 65 536 frames)
    pub sequence: u16,
    /// Timestamp (Unix seconds)
    pub timestamp: u32,
    /// Context version used for encoding (serialized as u24)
    pub context_version: u32,
}

/// The triple that a header byte decodes to: version, message type and
/// priority.
pub open spec fn spec_decode_header_byte(byte: u8) -> (u8, Option<MessageType>, Option<Priority>) {
    (
        (byte / 64) as u8,
        MessageType::spec_from_u8(((byte / 8) % 8) as u8),
        Priority::spec_from_u8((byte % 8) as u8),
    )
}

/// The header that the first 10 bytes of `s` encode, if they encode one.
pub open spec fn spec_parse_header(s: Seq<u8>) -> Option<MessageHeader> {
    if s.len() < 10 {
        None
    } else {
        let (version, t, p) = spec_decode_header_byte(s[0]);
        match (t, p) {
            (Some(t), Some(p)) => Some(
                MessageHeader {
                    version,
                    message_type: t,
                    priority: p,
                    sequence: read_be16(s, 1),
                    timestamp: read_be32(s, 3),
                    context_version: from_be24(s[7], s[8], s[9]),
                },
            ),
            _ => None,
        }
    }
}

impl MessageHeader {
    /// Header size in bytes.
    pub const SIZE: usize = 10;

    /// The header byte: version (2 bits), type (3 bits), priority (3 bits).
    pub open spec fn spec_header_byte(self) -> u8 {
        ((self.version % 4) * 64 + self.message_type.spec_to_u8() * 8 + self.priority.spec_to_u8()) as u8
    }

    /// The 10 wire bytes of this header.
    pub open spec fn spec_bytes(self) -> Seq<u8> {
        seq![self.spec_header_byte()] + be16(self.sequence) + be32(self.timestamp) + be24(
            self.context_version % 16777216,
        )
    }

    /// A header that survives the wire unchanged: its version fits in 2 bits
    /// and its context version in 24.
    pub open spec fn is_canonical(self) -> bool {
        self.version < 4 && self.context_version < 16777216
    }

    /// A header of the current protocol version with every counter at zero.
    pub open spec fn spec_new(message_type: MessageType, priority: Priority) -> MessageHeader {
        MessageHeader {
            version: crate::PROTOCOL_VERSION,
            message_type,
            priority,
            sequence: 0,
            timestamp: 0,
            context_version: 0,
        }
    }

    /// Create a new header with default values.
    pub fn new(message_type: MessageType, priority: Priority) -> (r: Self)
        ensures
            r == Self::spec_new(message_type, priority),
    {
        MessageHeader {
            version: crate::PROTOCOL_VERSION,
            message_type,
            priority,
            sequence: 0,
            timestamp: 0,
            context_version: 0,
        }
    }

    /// Encode the header byte (version + type + priority).
    pub fn encode_header_byte(&self) -> (r: u8)
        ensures
            r == self.spec_header_byte(),
    {
        (self.version % 4) * 64 + self.message_type.to_u8() * 8 + self.priority.to_u8()
    }

    /// Decode the header byte.
    pub fn decode_header_byte(byte: u8) -> (r: (u8, Option<MessageType>, Option<Priority>))
        ensures
            r == spec_decode_header_byte(byte),
    {
        let version = byte / 64;
        let msg_type = MessageType::from_u8((byte / 8) % 8);
        let priority = Priority::from_u8(byte % 8);
        (version, msg_type, priority)
    }

    /// Serialize header to bytes.
    pub fn to_bytes(&self) -> (r: [u8; 10])
        ensures
            r@ == self.spec_bytes(),
    {
        let cv = self.context_version % 16777216;
        let r = [
            self.encode_header_byte(),
            (self.sequence / 256) as u8,
            (self.sequence % 256) as u8,
            (self.timestamp / 16777216) as u8,
            ((self.timestamp / 65536) % 256) as u8,
            ((self.timestamp / 256) % 256) as u8,
            (self.timestamp % 256) as u8,
            ((cv / 65536) % 256) as u8,
            ((cv / 256) % 256) as u8,
            (cv % 256) as u8,
        ];
        assert(r@ =~= self.spec_bytes());
        r
    }

    /// Deserialize header from bytes.
    pub fn from_bytes(bytes: &[u8]) -> (r: Option<Self>)
        ensures
            r == spec_parse_header(bytes@),
    {
        if bytes.len() < 10 {
            return None;
        }
        let (version, msg_type, priority) = Self::decode_header_byte(bytes[0]);
        let msg_type = match msg_type {
            Some(t) => t,
            None => return None,
        };
        let priority = match priority {
            Some(p) => p,
            None => return None,
        };
        let sequence = get_be16(bytes, 1);
        let timestamp = get_be32(bytes, 3);
        let context_version = (bytes[7] as u32) * 65536 + (bytes[8] as u32) * 256 + (bytes[9] as u32);
        Some(MessageHeader { version, message_type: msg_type, priority, sequence, timestamp, context_version })
    }
}

impl Default for MessageHeader {
    fn default() -> (r: Self)
        ensures
            r == MessageHeader::spec_new(MessageType::Data, Priority::P3Normal),
    {
        Self::new(MessageType::Data, Priority::P3Normal)
    }
}

/// Decoding a header byte gives back the version modulo 4, the message type
/// and the priority that were encoded.
pub proof fn lemma_header_byte_roundtrip(h: MessageHeader)
    ensures
        spec_decode_header_byte(h.spec_header_byte()) == (
            h.version % 4,
            Some(h.message_type),
            Some(h.priority),
        ),
{
}

/// Parsing the bytes of a canonical header gives the header back, whatever
/// follows it.
pub proof fn lemma_header_roundtrip(h: MessageHeader, rest: Seq<u8>)
    requires
        h.is_canonical(),
    ensures
        h.spec_bytes().len() == 10,
        spec_parse_header(h.spec_bytes() + rest) == Some(h),
{
    lemma_header_byte_roundtrip(h);
    lemma_be16_roundtrip(h.sequence);
    lemma_be32_roundtrip(h.timestamp);
    lemma_be24_roundtrip(h.context_version);
    let s = h.spec_bytes() + rest;
    assert(s[1] == be16(h.sequence)[0]);
    assert(s[2] == be16(h.sequence)[1]);
    assert(s[3] == be32(h.timestamp)[0]);
    assert(s[4] == be32(h.timestamp)[1]);
    assert(s[5] == be32(h.timestamp)[2]);
    assert(s[6] == be32(h.timestamp)[3]);
    assert(s[7] == be24(h.context_version)[0]);
    assert(s[8] == be24(h.context_version)[1]);
    assert(s[9] == be24(h.context_version)[2]);
}

/// A header parsed from bytes is canonical, and writing it back gives
/// exactly the 10 bytes it was parsed from.
pub proof fn lemma_parsed_header_is_exact(s: Seq<u8>)
    requires
        spec_parse_header(s).is_some(),
    ensures
        spec_parse_header(s).unwrap().is_canonical(),
        spec_parse_header(s).unwrap().spec_bytes() == s.subrange(0, 10),
{
    let h = spec_parse_header(s).unwrap();
    lemma_message_type_code_roundtrip(h.message_type, ((s[0] / 8) % 8) as u8);
    lemma_priority_code_roundtrip(h.priority, (s[0] % 8) as u8);
    let b: int = s[0] as int;
    assert((b / 64) % 4 * 64 + ((b / 8) % 8) * 8 + b % 8 == b && b / 64 < 4) by (nonlinear_arith)
        requires
            0 <= b < 256,
    ;
    assert(h.spec_header_byte() == s[0]);
    lemma_be16_of_bytes(s[1], s[2]);
    lemma_be32_of_bytes(s[3], s[4], s[5], s[6]);
    lemma_be24_of_bytes(s[7], s[8], s[9]);
    assert(h.spec_bytes() =~= s.subrange(0, 10));
}

/// The position of the first byte of `s`, from `i` on, whose high bit is
/// clear: where a varint that starts at `i` ends.
pub open spec fn varint_end_from(s: Seq<u8>, i: nat) -> Option<nat>
    decreases s.len() - i,
{
    if i >= s.len() {
        None
    } else if s[i as int] < 128 {
        Some(i)
    } else {
        varint_end_from(s, i + 1)
    }
}

/// The encoding type announced by a data payload: the byte right after the
/// leading source-id varint.
pub open spec fn spec_payload_encoding_type(payload: Seq<u8>) -> Option<EncodingType> {
    match varint_end_from(payload, 0) {
        Some(j) => if j + 1 < payload.len() {
            EncodingType::spec_from_u8(payload[j + 1 as int])
        } else {
            None
        },
        None => None,
    }
}

/// The header and payload that a frame without checksum encodes.
pub open spec fn spec_parse_message(s: Seq<u8>) -> Option<(MessageHeader, Seq<u8>)> {
    match spec_parse_header(s) {
        Some(h) => Some((h, s.subrange(10, s.len() as int))),
        None => None,
    }
}

/// The bytes of a frame with checksum: the frame, then the big-endian
/// xxHash32 (seed 0) of the frame.
pub open spec fn spec_checked_frame(h: MessageHeader, payload: Seq<u8>) -> Seq<u8> {
    let frame = h.spec_bytes() + payload;
    frame + be32(xxh32_digest(frame, 0))
}

/// The outcome of reading a frame with checksum.
pub open spec fn spec_parse_checked(s: Seq<u8>) -> core::result::Result<(MessageHeader, Seq<u8>), DecodeError> {
    if s.len() < 14 {
        Err(DecodeError::BufferTooShort { needed: 14, available: s.len() as usize })
    } else {
        let body = s.subrange(0, s.len() - 4);
        match spec_parse_message(body) {
            None => Err(DecodeError::InvalidHeader),
            Some((h, p)) => {
                let expected = read_be32(s, s.len() - 4);
                let actual = xxh32_digest(body, 0);
                if actual != expected {
                    Err(DecodeError::InvalidChecksum { expected, actual })
                } else {
                    Ok((h, p))
                }
            },
        }
    }
}

/// An encoded message ready for transmission.
#[derive(Debug, Clone, PartialEq)]
pub struct EncodedMessage {
    /// Message header
    pub header: MessageHeader,
    /// Encoded payload
    pub payload: Vec<u8>,
}

impl EncodedMessage {
    /// The wire bytes of this message, without checksum.
    pub open spec fn spec_bytes(&self) -> Seq<u8> {
        self.header.spec_bytes() + self.payload@
    }

    /// Create a new encoded message.
    pub fn new(header: MessageHeader, payload: Vec<u8>) -> (r: Self)
        ensures
            r.header == header,
            r.payload@ == payload@,
    {
        EncodedMessage { header, payload }
    }

    /// Total size of the message in bytes.
    pub fn len(&self) -> (r: usize)
        requires
            self.payload@.len() + 10 <= usize::MAX,
        ensures
            r == 10 + self.payload@.len(),
    {
        10 + self.payload.len()
    }

    /// Check if the message is empty (no payload).
    pub fn is_empty(&self) -> (r: bool)
        ensures
            r == (self.payload@.len() == 0),
    {
        self.payload.len() == 0
    }

    /// The encoding type of a data payload: the byte after the source-id
    /// varint.
    pub fn encoding_type(&self) -> (r: Option<EncodingType>)
        ensures
            r == spec_payload_encoding_type(self.payload@),
    {
        let n = self.payload.len();
        let mut pos: usize = 0;
        while pos < n
            invariant
                n == self.payload@.len(),
                pos <= n,
                varint_end_from(self.payload@, 0) == varint_end_from(self.payload@, pos as nat),
            decreases n - pos,
        {
            let byte = self.payload[pos];
            if byte < 128 {
                if pos + 1 < n {
                    return EncodingType::from_u8(self.payload[pos + 1]);
                }
                return None;
            }
            pos = pos + 1;
        }
        None
    }

    /// Serialize the entire message to bytes.
    pub fn to_bytes(&self) -> (r: Vec<u8>)
        ensures
            r@ == self.spec_bytes(),
    {
        let head = self.header.to_bytes();
        let mut bytes: Vec<u8> = Vec::new();
        push_all(&mut bytes, &head);
        push_all(&mut bytes, self.payload.as_slice());
        bytes
    }

    /// Deserialize message from bytes.
    pub fn from_bytes(bytes: &[u8]) -> (r: Option<Self>)
        ensures
            match r {
                Some(m) => spec_parse_message(bytes@) == Some((m.header, m.payload@)),
                None => spec_parse_message(bytes@).is_none(),
            },
    {
        if bytes.len() < 10 {
            return None;
        }
        let header = match MessageHeader::from_bytes(bytes) {
            Some(h) => h,
            None => return None,
        };
        let payload = copy_range(bytes, 10, bytes.len());
        Some(EncodedMessage { header, payload })
    }

    /// Compute the checksum of the message (header + payload).
    pub fn compute_checksum(&self) -> (r: u32)
        ensures
            r == xxh32_digest(self.spec_bytes(), 0),
    {
        let data = self.to_bytes();
        xxh32(data.as_slice(), 0)
    }

    /// Serialize message with checksum appended.
    pub fn to_bytes_with_checksum(&self) -> (r: Vec<u8>)
        ensures
            r@ == spec_checked_frame(self.header, self.payload@),
    {
        let mut bytes = self.to_bytes();
        let checksum = self.compute_checksum();
        push_be32(&mut bytes, checksum);
        bytes
    }

    /// Deserialize message from bytes with checksum verification.
    pub fn from_bytes_with_checksum(bytes: &[u8]) -> (r: core::result::Result<Self, DecodeError>)
        ensures
            match r {
                Ok(m) => spec_parse_checked(bytes@) == Ok::<(MessageHeader, Seq<u8>), DecodeError>(
                    (m.header, m.payload@),
                ),
                Err(e) => spec_parse_checked(bytes@) == Err::<(MessageHeader, Seq<u8>), DecodeError>(e),
            },
    {
        let n = bytes.len();
        if n < 14 {
            return Err(DecodeError::BufferTooShort { needed: 14, available: n });
        }
        let checksum_offset = n - 4;
        let expected = get_be32(bytes, checksum_offset);
        let body = &bytes[0..checksum_offset];
        let message = match Self::from_bytes(body) {
            Some(m) => m,
            None => return Err(DecodeError::InvalidHeader),
        };
        proof {
            lemma_parsed_header_is_exact(body@);
            assert(message.spec_bytes() =~= body@);
        }
        let actual = message.compute_checksum();
        if actual != expected {
            return Err(DecodeError::InvalidChecksum { expected, actual });
        }
        Ok(message)
    }
}

/// Reading the bytes written for a message with a canonical header gives
/// the header and payload back.
pub proof fn lemma_message_roundtrip(h: MessageHeader, payload: Seq<u8>)
    requires
        h.is_canonical(),
    ensures
        spec_parse_message(h.spec_bytes() + payload) == Some((h, payload)),
{
    lemma_header_roundtrip(h, payload);
    assert((h.spec_bytes() + payload).subrange(10, (h.spec_bytes() + payload).len() as int) =~= payload);
}

/// Reading a frame with checksum written for a message with a canonical
/// header gives the header and payload back.
pub proof fn lemma_checked_frame_roundtrip(h: MessageHeader, payload: Seq<u8>)
    requires
        h.is_canonical(),
    ensures
        spec_parse_checked(spec_checked_frame(h, payload)) == Ok::<(MessageHeader, Seq<u8>), DecodeError>(
            (h, payload),
        ),
{
    let frame = h.spec_bytes() + payload;
    let digest = xxh32_digest(frame, 0);
    let s = spec_checked_frame(h, payload);
    lemma_header_roundtrip(h, payload);
    lemma_message_roundtrip(h, payload);
    lemma_be32_roundtrip(digest);
    assert(s.subrange(0, s.len() - 4) =~= frame);
    assert(s[s.len() - 4] == be32(digest)[0]);
    assert(s[s.len() - 3] == be32(digest)[1]);
    assert(s[s.len() - 2] == be32(digest)[2]);
    assert(s[s.len() - 1] == be32(digest)[3]);
}

} // verus!
