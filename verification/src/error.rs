//! Error types of the library.

use vstd::prelude::*;
use crate::text::{decimal, hex, zero_pad, push_decimal, push_hex_padded};

verus! {

/// Main error type of the library.
#[derive(Debug, Clone, PartialEq)]
pub enum AlecError {
    /// Encoding error
    Encode(EncodeError),
    /// Decoding error
    Decode(DecodeError),
    /// Context error
    Context(ContextError),
    /// Channel error
    Channel(ChannelError),
    /// Protocol error
    Protocol(String),
}

/// Result type of the library's fallible operations.
pub type Result<T> = core::result::Result<T, AlecError>;

/// Errors during encoding.
#[derive(Debug, Clone, PartialEq)]
pub enum EncodeError {
    /// Value is not a valid number (NaN, Inf)
    InvalidValue(String),
    /// Buffer too small
    BufferTooSmall { needed: usize, available: usize },
    /// Payload too large
    PayloadTooLarge { size: usize, max: usize },
    /// Context version mismatch
    ContextMismatch { expected: u32, actual: u32 },
}

/// Errors during decoding.
#[derive(Debug, Clone, PartialEq)]
pub enum DecodeError {
    /// Invalid checksum
    InvalidChecksum { expected: u32, actual: u32 },
    /// Context mismatch (cannot decode without the right context)
    ContextMismatch { expected: u32, actual: u32 },
    /// Malformed message
    MalformedMessage { offset: usize, reason: String },
    /// Unknown pattern reference
    UnknownPattern { pattern_id: u32 },
    /// Unknown encoding type
    UnknownEncodingType(u8),
    /// Unknown message type
    UnknownMessageType(u8),
    /// Buffer too short
    BufferTooShort { needed: usize, available: usize },
    /// Invalid header
    InvalidHeader,
}

/// Errors of the shared context.
#[derive(Debug, Clone, PartialEq)]
pub enum ContextError {
    /// Hash mismatch during sync
    HashMismatch { expected: u64, actual: u64 },
    /// Version gap too large
    VersionGapTooLarge { from: u32, to: u32 },
    /// Dictionary full
    DictionaryFull { max: usize },
    /// Pattern too large
    PatternTooLarge { size: usize, max: usize },
    /// Sync failed
    SyncFailed { reason: String },
    /// Memory limit exceeded
    MemoryLimitExceeded { used: usize, limit: usize },
}

/// Errors of a communication channel.
#[derive(Debug, Clone, PartialEq)]
pub enum ChannelError {
    /// Connection timeout
    Timeout { timeout_ms: u64 },
    /// Disconnected
    Disconnected { reason: String },
    /// Buffer full
    BufferFull,
    /// Transmission error
    TransmissionError { retries: u8 },
    /// Rate limited
    RateLimited { retry_after_ms: u64 },
}

impl From<EncodeError> for AlecError {
    fn from(e: EncodeError) -> (r: Self) {
        AlecError::Encode(e)
    }
}

impl vstd::std_specs::convert::FromSpecImpl<EncodeError> for AlecError {
    open spec fn obeys_from_spec() -> bool {
        true
    }

    open spec fn from_spec(e: EncodeError) -> AlecError {
        AlecError::Encode(e)
    }
}

impl From<DecodeError> for AlecError {
    fn from(e: DecodeError) -> (r: Self) {
        AlecError::Decode(e)
    }
}

impl vstd::std_specs::convert::FromSpecImpl<DecodeError> for AlecError {
    open spec fn obeys_from_spec() -> bool {
        true
    }

    open spec fn from_spec(e: DecodeError) -> AlecError {
        AlecError::Decode(e)
    }
}

impl From<ContextError> for AlecError {
    fn from(e: ContextError) -> (r: Self) {
        AlecError::Context(e)
    }
}

impl vstd::std_specs::convert::FromSpecImpl<ContextError> for AlecError {
    open spec fn obeys_from_spec() -> bool {
        true
    }

    open spec fn from_spec(e: ContextError) -> AlecError {
        AlecError::Context(e)
    }
}

impl From<ChannelError> for AlecError {
    fn from(e: ChannelError) -> (r: Self) {
        AlecError::Channel(e)
    }
}

impl vstd::std_specs::convert::FromSpecImpl<ChannelError> for AlecError {
    open spec fn obeys_from_spec() -> bool {
        true
    }

    open spec fn from_spec(e: ChannelError) -> AlecError {
        AlecError::Channel(e)
    }
}

/// The text of an `EncodeError`.
pub open spec fn encode_error_text(e: EncodeError) -> Seq<char> {
    match e {
        EncodeError::InvalidValue(s) => "Invalid value: "@ + s@,
        EncodeError::BufferTooSmall { needed, available } => "Buffer too small: need "@ + decimal(
            needed as nat,
        ) + " bytes, have "@ + decimal(available as nat),
        EncodeError::PayloadTooLarge { size, max } => "Payload too large: "@ + decimal(size as nat)
            + " bytes exceeds maximum "@ + decimal(max as nat),
        EncodeError::ContextMismatch { expected, actual } => "Context version mismatch: expected "@
            + decimal(expected as nat) + ", got "@ + decimal(actual as nat),
    }
}

/// The text of a `DecodeError`.
pub open spec fn decode_error_text(e: DecodeError) -> Seq<char> {
    match e {
        DecodeError::InvalidChecksum { expected, actual } => "Invalid checksum: expected "@
            + zero_pad(hex(expected as nat), 8) + ", got "@ + zero_pad(hex(actual as nat), 8),
        DecodeError::ContextMismatch { expected, actual } => "Context mismatch: expected version "@
            + decimal(expected as nat) + ", message has "@ + decimal(actual as nat),
        DecodeError::MalformedMessage { offset, reason } => "Malformed message at offset "@
            + decimal(offset as nat) + ": "@ + reason@,
        DecodeError::UnknownPattern { pattern_id } => "Unknown pattern ID: "@ + decimal(
            pattern_id as nat,
        ),
        DecodeError::UnknownEncodingType(t) => "Unknown encoding type: 0x"@ + zero_pad(
            hex(t as nat),
            2,
        ),
        DecodeError::UnknownMessageType(t) => "Unknown message type: "@ + decimal(t as nat),
        DecodeError::BufferTooShort { needed, available } => "Buffer too short: need at least "@
            + decimal(needed as nat) + " bytes, got "@ + decimal(available as nat),
        DecodeError::InvalidHeader => "Invalid header"@,
    }
}

/// The text of a `ContextError`.
pub open spec fn context_error_text(e: ContextError) -> Seq<char> {
    match e {
        ContextError::HashMismatch { expected, actual } => "Hash mismatch: expected "@ + zero_pad(
            hex(expected as nat),
            16,
        ) + ", got "@ + zero_pad(hex(actual as nat), 16),
        ContextError::VersionGapTooLarge { from, to } => "Version gap too large: from "@ + decimal(
            from as nat,
        ) + " to "@ + decimal(to as nat),
        ContextError::DictionaryFull { max } => "Dictionary full: maximum "@ + decimal(max as nat)
            + " patterns reached"@,
        ContextError::PatternTooLarge { size, max } => "Pattern too large: "@ + decimal(size as nat)
            + " bytes exceeds maximum "@ + decimal(max as nat),
        ContextError::SyncFailed { reason } => "Synchronization failed: "@ + reason@,
        ContextError::MemoryLimitExceeded { used, limit } => "Memory limit exceeded: "@ + decimal(
            used as nat,
        ) + " bytes exceeds "@ + decimal(limit as nat),
    }
}

/// The text of a `ChannelError`.
pub open spec fn channel_error_text(e: ChannelError) -> Seq<char> {
    match e {
        ChannelError::Timeout { timeout_ms } => "Connection timeout after "@ + decimal(
            timeout_ms as nat,
        ) + "ms"@,
        ChannelError::Disconnected { reason } => "Disconnected: "@ + reason@,
        ChannelError::BufferFull => "Send buffer full"@,
        ChannelError::TransmissionError { retries } => "Transmission error after "@ + decimal(
            retries as nat,
        ) + " retries"@,
        ChannelError::RateLimited { retry_after_ms } => "Rate limited: retry after "@ + decimal(
            retry_after_ms as nat,
        ) + "ms"@,
    }
}

/// The text of an `AlecError`: the kind of failure, then the inner error's text.
pub open spec fn alec_error_text(e: AlecError) -> Seq<char> {
    match e {
        AlecError::Encode(inner) => "Encoding error: "@ + encode_error_text(inner),
        AlecError::Decode(inner) => "Decoding error: "@ + decode_error_text(inner),
        AlecError::Context(inner) => "Context error: "@ + context_error_text(inner),
        AlecError::Channel(inner) => "Channel error: "@ + channel_error_text(inner),
        AlecError::Protocol(s) => "Protocol error: "@ + s@,
    }
}

impl EncodeError {
    /// Appends the human-readable text of this error.
    pub fn write_message(&self, out: &mut String)
        ensures
            final(out)@ == old(out)@ + encode_error_text(*self),
    {
        let ghost start = out@;
        match self {
            EncodeError::InvalidValue(s) => {
                out.append("Invalid value: ");
                out.append(s.as_str());
            },
            EncodeError::BufferTooSmall { needed, available } => {
                out.append("Buffer too small: need ");
                push_decimal(out, *needed as u64);
                out.append(" bytes, have ");
                push_decimal(out, *available as u64);
            },
            EncodeError::PayloadTooLarge { size, max } => {
                out.append("Payload too large: ");
                push_decimal(out, *size as u64);
                out.append(" bytes exceeds maximum ");
                push_decimal(out, *max as u64);
            },
            EncodeError::ContextMismatch { expected, actual } => {
                out.append("Context version mismatch: expected ");
                push_decimal(out, *expected as u64);
                out.append(", got ");
                push_decimal(out, *actual as u64);
            },
        }
        assert(out@ =~= start + encode_error_text(*self));
    }

    /// The human-readable text of this error.
    pub fn message(&self) -> (r: String)
        ensures
            r@ == encode_error_text(*self),
    {
        let mut out = String::new();
        self.write_message(&mut out);
        assert(out@ =~= encode_error_text(*self));
        out
    }
}

impl DecodeError {
    /// Appends the human-readable text of this error.
    pub fn write_message(&self, out: &mut String)
        ensures
            final(out)@ == old(out)@ + decode_error_text(*self),
    {
        let ghost start = out@;
        match self {
            DecodeError::InvalidChecksum { expected, actual } => {
                out.append("Invalid checksum: expected ");
                push_hex_padded(out, *expected as u64, 8);
                out.append(", got ");
                push_hex_padded(out, *actual as u64, 8);
            },
            DecodeError::ContextMismatch { expected, actual } => {
                out.append("Context mismatch: expected version ");
                push_decimal(out, *expected as u64);
                out.append(", message has ");
                push_decimal(out, *actual as u64);
            },
            DecodeError::MalformedMessage { offset, reason } => {
                out.append("Malformed message at offset ");
                push_decimal(out, *offset as u64);
                out.append(": ");
                out.append(reason.as_str());
            },
            DecodeError::UnknownPattern { pattern_id } => {
                out.append("Unknown pattern ID: ");
                push_decimal(out, *pattern_id as u64);
            },
            DecodeError::UnknownEncodingType(t) => {
                out.append("Unknown encoding type: 0x");
                push_hex_padded(out, *t as u64, 2);
            },
            DecodeError::UnknownMessageType(t) => {
                out.append("Unknown message type: ");
                push_decimal(out, *t as u64);
            },
            DecodeError::BufferTooShort { needed, available } => {
                out.append("Buffer too short: need at least ");
                push_decimal(out, *needed as u64);
                out.append(" bytes, got ");
                push_decimal(out, *available as u64);
            },
            DecodeError::InvalidHeader => {
                out.append("Invalid header");
            },
        }
        assert(out@ =~= start + decode_error_text(*self));
    }

    /// The human-readable text of this error.
    pub fn message(&self) -> (r: String)
        ensures
            r@ == decode_error_text(*self),
    {
        let mut out = String::new();
        self.write_message(&mut out);
        assert(out@ =~= decode_error_text(*self));
        out
    }
}

impl ContextError {
    /// Appends the human-readable text of this error.
    pub fn write_message(&self, out: &mut String)
        ensures
            final(out)@ == old(out)@ + context_error_text(*self),
    {
        let ghost start = out@;
        match self {
            ContextError::HashMismatch { expected, actual } => {
                out.append("Hash mismatch: expected ");
                push_hex_padded(out, *expected, 16);
                out.append(", got ");
                push_hex_padded(out, *actual, 16);
            },
            ContextError::VersionGapTooLarge { from, to } => {
                out.append("Version gap too large: from ");
                push_decimal(out, *from as u64);
                out.append(" to ");
                push_decimal(out, *to as u64);
            },
            ContextError::DictionaryFull { max } => {
                out.append("Dictionary full: maximum ");
                push_decimal(out, *max as u64);
                out.append(" patterns reached");
            },
            ContextError::PatternTooLarge { size, max } => {
                out.append("Pattern too large: ");
                push_decimal(out, *size as u64);
                out.append(" bytes exceeds maximum ");
                push_decimal(out, *max as u64);
            },
            ContextError::SyncFailed { reason } => {
                out.append("Synchronization failed: ");
                out.append(reason.as_str());
            },
            ContextError::MemoryLimitExceeded { used, limit } => {
                out.append("Memory limit exceeded: ");
                push_decimal(out, *used as u64);
                out.append(" bytes exceeds ");
                push_decimal(out, *limit as u64);
            },
        }
        assert(out@ =~= start + context_error_text(*self));
    }

    /// The human-readable text of this error.
    pub fn message(&self) -> (r: String)
        ensures
            r@ == context_error_text(*self),
    {
        let mut out = String::new();
        self.write_message(&mut out);
        assert(out@ =~= context_error_text(*self));
        out
    }
}

impl ChannelError {
    /// Appends the human-readable text of this error.
    pub fn write_message(&self, out: &mut String)
        ensures
            final(out)@ == old(out)@ + channel_error_text(*self),
    {
        let ghost start = out@;
        match self {
            ChannelError::Timeout { timeout_ms } => {
                out.append("Connection timeout after ");
                push_decimal(out, *timeout_ms);
                out.append("ms");
            },
            ChannelError::Disconnected { reason } => {
                out.append("Disconnected: ");
                out.append(reason.as_str());
            },
            ChannelError::BufferFull => {
                out.append("Send buffer full");
            },
            ChannelError::TransmissionError { retries } => {
                out.append("Transmission error after ");
                push_decimal(out, *retries as u64);
                out.append(" retries");
            },
            ChannelError::RateLimited { retry_after_ms } => {
                out.append("Rate limited: retry after ");
                push_decimal(out, *retry_after_ms);
                out.append("ms");
            },
        }
        assert(out@ =~= start + channel_error_text(*self));
    }

    /// The human-readable text of this error.
    pub fn message(&self) -> (r: String)
        ensures
            r@ == channel_error_text(*self),
    {
        let mut out = String::new();
        self.write_message(&mut out);
        assert(out@ =~= channel_error_text(*self));
        out
    }
}

impl AlecError {
    /// The human-readable text of this error, as its `Display` shows it.
    pub fn message(&self) -> (r: String)
        ensures
            r@ == alec_error_text(*self),
    {
        let mut out = String::new();
        match self {
            AlecError::Encode(inner) => {
                out.append("Encoding error: ");
                inner.write_message(&mut out);
            },
            AlecError::Decode(inner) => {
                out.append("Decoding error: ");
                inner.write_message(&mut out);
            },
            AlecError::Context(inner) => {
                out.append("Context error: ");
                inner.write_message(&mut out);
            },
            AlecError::Channel(inner) => {
                out.append("Channel error: ");
                inner.write_message(&mut out);
            },
            AlecError::Protocol(s) => {
                out.append("Protocol error: ");
                out.append(s.as_str());
            },
        }
        assert(out@ =~= alec_error_text(*self));
        out
    }
}

} // verus!
