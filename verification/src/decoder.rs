//! Decoder: reads the framing of data payloads (source-id varint, encoding
//! byte, raw value bytes, multi-value entries) and tracks the sequence
//! numbers it has seen.

use vstd::prelude::*;

use crate::bytes::{be32, from_be32, get_be16, get_be32, get_be64, lemma_be32_roundtrip, read_be16, read_be32, read_be64};
use crate::encoder::{multi_entries, multi_entry, multi_payload, varint_bytes};
use crate::error::{AlecError, DecodeError, Result};
use crate::protocol::{
    classify_compact_marker, ctx_version_compatible, spec_ctx_version_compatible, spec_parse_checked,
    spec_parse_message, varint_end_from, CompactHeader, EncodedMessage, EncodingType, MessageHeader,
    COMPACT_MARKER_DATA, COMPACT_MARKER_KEYFRAME,
};

verus! {

broadcast use vstd::string::group_string_axioms;

/// 128 to the power `k`.
pub open spec fn pow128(k: nat) -> nat
    decreases k,
{
    if k == 0 {
        1
    } else {
        128 * pow128((k - 1) as nat)
    }
}

/// The sum of the 7-bit groups of the first `n` bytes of `s`, each at its
/// place value.
pub open spec fn varint_acc(s: Seq<u8>, n: nat) -> nat
    decreases n,
{
    if n == 0 {
        0
    } else {
        varint_acc(s, (n - 1) as nat) + ((s[n - 1] % 128) as nat) * pow128((n - 1) as nat)
    }
}

/// The value a varint of `n` bytes at the start of `s` decodes to: its
/// groups summed, kept to 32 bits.
pub open spec fn varint_value(s: Seq<u8>, n: nat) -> u32 {
    (varint_acc(s, n) % 4294967296) as u32
}

/// How reading a varint at the start of a buffer ends.
pub enum VarintRead {
    /// A value and the number of bytes it took
    Value(u32, usize),
    /// The buffer ended before the varint did; the varint needs this many bytes at least
    Truncated(usize),
    /// Five bytes all carried a continuation bit
    TooLong,
}

/// The outcome of reading a varint at the start of `s`: a value when a
/// byte without continuation bit comes within the first five; too long
/// when the first five all carry one; truncated when the buffer ends first.
pub open spec fn spec_read_varint(s: Seq<u8>) -> VarintRead {
    match varint_end_from(s, 0) {
        Some(j) if j < 5 => VarintRead::Value(varint_value(s, j + 1), (j + 1) as usize),
        _ => if s.len() >= 5 {
            VarintRead::TooLong
        } else {
            VarintRead::Truncated((s.len() + 1) as usize)
        },
    }
}

/// The reason carried by a varint that is too long.
pub open spec fn varint_too_long_reason() -> Seq<char> {
    "Varint too long"@
}

/// What reading a varint returns, error included.
pub open spec fn varint_result_matches(s: Seq<u8>, r: Result<(u32, usize)>) -> bool {
    match spec_read_varint(s) {
        VarintRead::Value(v, n) => r == Ok::<(u32, usize), AlecError>((v, n)),
        VarintRead::Truncated(needed) => r == Err::<(u32, usize), AlecError>(
            AlecError::Decode(DecodeError::BufferTooShort { needed, available: s.len() as usize }),
        ),
        VarintRead::TooLong => r matches Err(AlecError::Decode(DecodeError::MalformedMessage { offset, reason }))
            && offset == 5 && reason@ == varint_too_long_reason(),
    }
}

/// Shifting the start of a varint walk is the same as searching from a
/// later index.
proof fn lemma_varint_end_shift(s: Seq<u8>, rest: Seq<u8>, i: nat)
    requires
        i <= s.len(),
        forall|k: int| i <= k < s.len() ==> s[k] >= 128,
    ensures
        varint_end_from(s + rest, i) == (match varint_end_from(rest, 0) {
            Some(j) => Some((s.len() + j) as nat),
            None => None::<nat>,
        }),
    decreases s.len() - i,
{
    if i < s.len() {
        lemma_varint_end_shift(s, rest, i + 1);
    } else {
        lemma_varint_end_offset(s, rest, 0);
    }
}

/// Searching `s + rest` from `s.len() + k` is searching `rest` from `k`.
proof fn lemma_varint_end_offset(s: Seq<u8>, rest: Seq<u8>, k: nat)
    ensures
        varint_end_from(s + rest, s.len() + k) == (match varint_end_from(rest, k) {
            Some(j) => Some((s.len() + j) as nat),
            None => None::<nat>,
        }),
    decreases rest.len() - k,
{
    if k < rest.len() {
        lemma_varint_end_offset(s, rest, k + 1);
    }
}

/// The accumulated groups of the first `n` bytes depend only on those bytes.
proof fn lemma_varint_acc_prefix(s: Seq<u8>, t: Seq<u8>, n: nat)
    requires
        n <= s.len(),
        n <= t.len(),
        forall|k: int| 0 <= k < n ==> s[k] == t[k],
    ensures
        varint_acc(s, n) == varint_acc(t, n),
    decreases n,
{
    if n > 0 {
        lemma_varint_acc_prefix(s, t, (n - 1) as nat);
    }
}

/// Groups of a byte sequence that starts with one byte: the first group
/// plus 128 times the groups of what follows.
proof fn lemma_varint_acc_cons(b: u8, s: Seq<u8>, n: nat)
    requires
        n <= s.len(),
    ensures
        varint_acc(seq![b] + s, n + 1) == (b % 128) as nat + 128 * varint_acc(s, n),
    decreases n,
{
    let t = seq![b] + s;
    if n == 0 {
        assert(t[0] == b);
        assert(pow128(0) == 1);
        assert(varint_acc(t, 1) == varint_acc(t, 0) + ((t[0] % 128) as nat) * pow128(0));
    } else {
        lemma_varint_acc_cons(b, s, (n - 1) as nat);
        assert(t[n as int] == s[n - 1]);
        let a = (s[n - 1] % 128) as nat;
        let p = pow128((n - 1) as nat);
        assert(pow128(n) == 128 * p);
        assert(a * (128 * p) == 128 * (a * p)) by (nonlinear_arith);
        assert(varint_acc(t, n + 1) == varint_acc(t, n) + a * pow128(n));
        assert(varint_acc(s, n) == varint_acc(s, (n - 1) as nat) + a * p);
    }
}

/// The varint of `v` has at most five bytes, its last byte is its only one
/// without continuation bit, and its groups sum to `v`.
proof fn lemma_varint_bytes_shape(v: u32)
    ensures
        1 <= varint_bytes(v).len() <= 5,
        varint_bytes(v).len() == 1 <==> v < 128,
        varint_end_from(varint_bytes(v), 0) == Some((varint_bytes(v).len() - 1) as nat),
        varint_acc(varint_bytes(v), varint_bytes(v).len()) == v,
        v < 128 ==> varint_bytes(v).len() == 1,
        v >= 128 ==> varint_bytes(v).len() == varint_bytes(v / 128).len() + 1,
        v < 16384 ==> varint_bytes(v).len() <= 2,
        v < 2097152 ==> varint_bytes(v).len() <= 3,
        v < 268435456 ==> varint_bytes(v).len() <= 4,
    decreases v,
{
    let s = varint_bytes(v);
    if v < 128 {
        assert(s[0] == v as u8);
        assert(pow128(0) == 1);
        assert(varint_acc(s, 1) == varint_acc(s, 0) + ((s[0] % 128) as nat) * pow128(0));
    } else {
        let t = varint_bytes(v / 128);
        lemma_varint_bytes_shape(v / 128);
        let b = ((v % 128) + 128) as u8;
        assert(s == seq![b] + t);
        lemma_varint_end_shift(seq![b], t, 0);
        lemma_varint_acc_cons(b, t, t.len());
        assert((b % 128) as nat == v % 128);
        assert(varint_acc(t, t.len()) == v / 128);
        assert(v % 128 + 128 * (v / 128) == v);
        assert(s.len() == t.len() + 1);
        assert(varint_acc(seq![b] + t, t.len() + 1) == v);
    }
}

/// Reading the varint of `v`, whatever follows it, gives `v` back and the
/// number of bytes written.
pub proof fn lemma_varint_roundtrip(v: u32, rest: Seq<u8>)
    ensures
        spec_read_varint(varint_bytes(v) + rest) == VarintRead::Value(v, varint_bytes(v).len() as usize),
{
    let s = varint_bytes(v);
    let t = s + rest;
    lemma_varint_bytes_shape(v);
    let n = (s.len() - 1) as nat;
    assert forall|k: int| 0 <= k < n implies s[k] >= 128 by {
        if s[k] < 128 {
            lemma_varint_end_first(s, k as nat);
        }
    }
    lemma_varint_end_shift(s.subrange(0, n as int), s.subrange(n as int, s.len() as int) + rest, 0);
    assert(s.subrange(0, n as int) + (s.subrange(n as int, s.len() as int) + rest) =~= t);
    assert((s.subrange(n as int, s.len() as int) + rest)[0] == s[n as int]);
    assert(s[n as int] < 128) by {
        lemma_varint_end_found(s, 0);
    }
    lemma_varint_acc_prefix(s, t, s.len());
}

/// A found varint end is a byte without continuation bit.
proof fn lemma_varint_end_found(s: Seq<u8>, i: nat)
    ensures
        varint_end_from(s, i) matches Some(j) ==> i <= j < s.len() && s[j as int] < 128 && forall|k: int|
            i <= k < j ==> s[k] >= 128,
    decreases s.len() - i,
{
    if i < s.len() && s[i as int] >= 128 {
        lemma_varint_end_found(s, i + 1);
    }
}

/// The search from `0` stops at the first byte without continuation bit.
proof fn lemma_varint_end_first(s: Seq<u8>, k: nat)
    requires
        k < s.len(),
        s[k as int] < 128,
    ensures
        varint_end_from(s, 0) matches Some(j) && j <= k,
{
    lemma_varint_end_found(s, 0);
    lemma_varint_end_upto(s, 0, k);
}

proof fn lemma_varint_end_upto(s: Seq<u8>, i: nat, k: nat)
    requires
        i <= k < s.len(),
        s[k as int] < 128,
    ensures
        varint_end_from(s, i) matches Some(j) && j <= k,
    decreases k - i,
{
    if s[i as int] >= 128 {
        lemma_varint_end_upto(s, i + 1, k);
    }
}

/// A raw value read from a data payload, before any context is applied.
#[derive(Debug, Clone, Copy, PartialEq, Eq, Structural)]
pub enum RawValue {
    /// Bits of a big-endian f64
    F64Bits(u64),
    /// Bits of a big-endian f32
    F32Bits(u32),
    /// A scaled integer delta to add to the prediction
    Delta(i32),
    /// Same as the last value of the source
    Repeated,
    /// Exactly the predicted value
    Interpolated,
    /// A dictionary pattern reference
    PatternRef(u32),
    /// A dictionary pattern reference with a scaled delta
    PatternRefDelta(u32, i8),
}

/// The signed value of a byte read as two's complement.
pub open spec fn i8_of(b: u8) -> i8 {
    (if b < 128 {
        b as int
    } else {
        b - 256
    }) as i8
}

/// The signed value of a big-endian `u16` read as two's complement.
pub open spec fn i16_of(v: u16) -> i32 {
    (if v < 32768 {
        v as int
    } else {
        v - 65536
    }) as i32
}

/// The signed value of a big-endian `u32` read as two's complement.
pub open spec fn i32_of(v: u32) -> i32 {
    (if v < 2147483648 {
        v as int
    } else {
        v - 4294967296
    }) as i32
}

/// The number of value bytes an encoding needs before any varint: 8 for
/// Raw64, 4 for Raw32 and Delta32, 2 for Delta16, 1 for Delta8, 0 else.
pub open spec fn fixed_value_len(e: EncodingType) -> nat {
    match e {
        EncodingType::Raw64 => 8,
        EncodingType::Raw32 => 4,
        EncodingType::Delta8 => 1,
        EncodingType::Delta16 => 2,
        EncodingType::Delta32 => 4,
        _ => 0,
    }
}

/// The raw value that fixed-size value bytes encode.
pub open spec fn spec_fixed_raw_value(e: EncodingType, data: Seq<u8>) -> RawValue {
    match e {
        EncodingType::Raw64 => RawValue::F64Bits(read_be64(data, 0)),
        EncodingType::Raw32 => RawValue::F32Bits(read_be32(data, 0)),
        EncodingType::Delta8 => RawValue::Delta(i8_of(data[0]) as i32),
        EncodingType::Delta16 => RawValue::Delta(i16_of(read_be16(data, 0))),
        EncodingType::Delta32 => RawValue::Delta(i32_of(read_be32(data, 0))),
        EncodingType::Repeated => RawValue::Repeated,
        _ => RawValue::Interpolated,
    }
}

/// Outcome of fixed-size value bytes: too short, or the raw value.
pub open spec fn fixed_value_result_matches(e: EncodingType, data: Seq<u8>, r: Result<RawValue>) -> bool {
    if data.len() < fixed_value_len(e) {
        r == Err::<RawValue, AlecError>(
            AlecError::Decode(
                DecodeError::BufferTooShort {
                    needed: fixed_value_len(e) as usize,
                    available: data.len() as usize,
                },
            ),
        )
    } else {
        r == Ok::<RawValue, AlecError>(spec_fixed_raw_value(e, data))
    }
}

/// Decoder for messages.
#[derive(Debug, Clone)]
pub struct Decoder {
    /// Whether to verify checksums on incoming messages
    verify_checksum: bool,
    /// Last decoded sequence number
    last_sequence: Option<u16>,
    /// Sequence observed on the most recent fixed-channel frame
    last_fixed_sequence: Option<u16>,
    /// Context version observed on the most recent fixed-channel frame
    last_fixed_ctx_version: Option<u16>,
}

impl Decoder {
    /// Whether checksums are verified.
    pub closed spec fn spec_verify_checksum(&self) -> bool {
        self.verify_checksum
    }

    /// The last decoded sequence number.
    pub closed spec fn spec_last_sequence(&self) -> Option<u16> {
        self.last_sequence
    }

    /// The sequence of the last fixed-channel frame.
    pub closed spec fn spec_last_fixed_sequence(&self) -> Option<u16> {
        self.last_fixed_sequence
    }

    /// The context version of the last fixed-channel frame.
    pub closed spec fn spec_last_fixed_ctx_version(&self) -> Option<u16> {
        self.last_fixed_ctx_version
    }

    /// Nothing decoded yet.
    pub open spec fn is_fresh(&self) -> bool {
        &&& self.spec_last_sequence().is_none()
        &&& self.spec_last_fixed_sequence().is_none()
        &&& self.spec_last_fixed_ctx_version().is_none()
    }

    /// Create a new decoder.
    pub fn new() -> (r: Self)
        ensures
            r.is_fresh(),
            !r.spec_verify_checksum(),
    {
        Decoder {
            verify_checksum: false,
            last_sequence: None,
            last_fixed_sequence: None,
            last_fixed_ctx_version: None,
        }
    }

    /// Create a decoder with checksum verification enabled.
    pub fn with_checksum_verification() -> (r: Self)
        ensures
            r.is_fresh(),
            r.spec_verify_checksum(),
    {
        Decoder {
            verify_checksum: true,
            last_sequence: None,
            last_fixed_sequence: None,
            last_fixed_ctx_version: None,
        }
    }

    /// Check if checksum verification is enabled.
    pub fn checksum_verification_enabled(&self) -> (r: bool)
        ensures
            r == self.spec_verify_checksum(),
    {
        self.verify_checksum
    }

    /// Reset decoder state.
    pub fn reset(&mut self)
        ensures
            final(self).is_fresh(),
            final(self).spec_verify_checksum() == old(self).spec_verify_checksum(),
    {
        self.last_sequence = None;
        self.last_fixed_sequence = None;
        self.last_fixed_ctx_version = None;
    }

    /// Get the last decoded sequence number.
    pub fn last_sequence(&self) -> (r: Option<u16>)
        ensures
            r == self.spec_last_sequence(),
    {
        self.last_sequence
    }

    /// Last sequence recorded on the fixed-channel path.
    pub fn last_fixed_sequence(&self) -> (r: Option<u16>)
        ensures
            r == self.spec_last_fixed_sequence(),
    {
        self.last_fixed_sequence
    }

    /// Advance the fixed-path sequence and context-version trackers as if a
    /// frame with these header values had just been decoded.
    pub fn record_fixed_frame(&mut self, sequence: u16, context_version: u16)
        ensures
            final(self).spec_last_fixed_sequence() == Some(sequence),
            final(self).spec_last_fixed_ctx_version() == Some(context_version),
            final(self).spec_last_sequence() == old(self).spec_last_sequence(),
            final(self).spec_verify_checksum() == old(self).spec_verify_checksum(),
    {
        self.last_fixed_sequence = Some(sequence);
        self.last_fixed_ctx_version = Some(context_version);
    }

    /// Decode a varint from the start of the buffer: the value and the
    /// number of bytes it took.
    pub fn decode_varint(&self, buffer: &[u8]) -> (r: Result<(u32, usize)>)
        ensures
            varint_result_matches(buffer@, r),
    {
        let n = buffer.len();
        let mut acc: u64 = 0;
        let mut mult: u64 = 1;
        let mut offset: usize = 0;
        loop
            invariant
                n == buffer@.len(),
                offset <= 4,
                offset <= n,
                mult == pow128(offset as nat),
                acc == varint_acc(buffer@, offset as nat),
                acc < mult,
                varint_end_from(buffer@, 0) == varint_end_from(buffer@, offset as nat),
            decreases 5 - offset,
        {
            if offset >= n {
                return Err(AlecError::Decode(DecodeError::BufferTooShort { needed: offset + 1, available: n }));
            }
            let byte = buffer[offset];
            proof {
                assert(pow128((offset + 1) as nat) == 128 * pow128(offset as nat));
                assert(acc + ((byte % 128) as nat) * mult < 128 * mult) by (nonlinear_arith)
                    requires
                        acc < mult,
                        byte % 128 < 128,
                ;
                assert(mult <= 268435456) by {
                    reveal_with_fuel(pow128, 5);
                    assert(pow128(1) == 128);
                    assert(pow128(2) == 16384);
                    assert(pow128(3) == 2097152);
                    assert(pow128(4) == 268435456);
                }
            }
            acc = acc + ((byte % 128) as u64) * mult;
            offset = offset + 1;
            proof {
                if byte >= 128 {
                    assert(varint_end_from(buffer@, (offset - 1) as nat) == varint_end_from(buffer@, offset as nat));
                    lemma_varint_end_found(buffer@, offset as nat);
                } else {
                    assert(varint_end_from(buffer@, (offset - 1) as nat) == Some((offset - 1) as nat));
                }
            }
            if byte < 128 {
                return Ok((((acc % 4294967296) as u32), offset));
            }
            if offset >= 5 {
                return Err(
                    AlecError::Decode(
                        DecodeError::MalformedMessage { offset, reason: "Varint too long".to_string() },
                    ),
                );
            }
            mult = mult * 128;
        }
    }

    /// Read the framing of a data message: record its sequence number, then
    /// read the source id and the encoding type; returns the source id, the
    /// encoding type and the offset of the value bytes in the payload.
    pub fn read_data_frame(&mut self, message: &EncodedMessage) -> (r: Result<(u32, EncodingType, usize)>)
        ensures
            final(self).spec_last_sequence() == Some(message.header.sequence),
            final(self).spec_last_fixed_sequence() == old(self).spec_last_fixed_sequence(),
            final(self).spec_last_fixed_ctx_version() == old(self).spec_last_fixed_ctx_version(),
            final(self).spec_verify_checksum() == old(self).spec_verify_checksum(),
            data_frame_result_matches(message.payload@, r),
    {
        self.last_sequence = Some(message.header.sequence);
        let payload = message.payload.as_slice();
        if payload.len() == 0 {
            return Err(AlecError::Decode(DecodeError::BufferTooShort { needed: 1, available: 0 }));
        }
        let (source_id, offset) = match self.decode_varint(payload) {
            Ok(x) => x,
            Err(e) => return Err(e),
        };
        if offset >= payload.len() {
            return Err(
                AlecError::Decode(DecodeError::BufferTooShort { needed: offset + 1, available: payload.len() }),
            );
        }
        let encoding_byte = payload[offset];
        match EncodingType::from_u8(encoding_byte) {
            Some(e) => Ok((source_id, e, offset + 1)),
            None => Err(AlecError::Decode(DecodeError::UnknownEncodingType(encoding_byte))),
        }
    }

    /// Read the fixed-size value bytes of an encoding that needs no
    /// dictionary lookup (Raw64, Raw32, Delta8/16/32, Repeated,
    /// Interpolated).
    pub fn read_fixed_value(&self, encoding: EncodingType, data: &[u8]) -> (r: Result<RawValue>)
        requires
            !(encoding is Pattern || encoding is PatternDelta || encoding is Multi),
        ensures
            fixed_value_result_matches(encoding, data@, r),
    {
        let needed: usize = match encoding {
            EncodingType::Raw64 => 8,
            EncodingType::Raw32 => 4,
            EncodingType::Delta8 => 1,
            EncodingType::Delta16 => 2,
            EncodingType::Delta32 => 4,
            _ => 0,
        };
        if data.len() < needed {
            return Err(AlecError::Decode(DecodeError::BufferTooShort { needed, available: data.len() }));
        }
        match encoding {
            EncodingType::Raw64 => Ok(RawValue::F64Bits(get_be64(data, 0))),
            EncodingType::Raw32 => Ok(RawValue::F32Bits(get_be32(data, 0))),
            EncodingType::Delta8 => {
                let b = data[0];
                let d: i8 = if b < 128 {
                    b as i8
                } else {
                    (b as i16 - 256) as i8
                };
                Ok(RawValue::Delta(d as i32))
            },
            EncodingType::Delta16 => {
                let v = get_be16(data, 0);
                let d: i32 = if v < 32768 {
                    v as i32
                } else {
                    v as i32 - 65536
                };
                Ok(RawValue::Delta(d))
            },
            EncodingType::Delta32 => {
                let v = get_be32(data, 0);
                let d: i32 = if v < 2147483648 {
                    v as i32
                } else {
                    (v as i64 - 4294967296) as i32
                };
                Ok(RawValue::Delta(d))
            },
            EncodingType::Repeated => Ok(RawValue::Repeated),
            _ => Ok(RawValue::Interpolated),
        }
    }

    /// Read the bytes of a pattern reference (Pattern or PatternDelta):
    /// the pattern-id varint, and for PatternDelta the delta byte after it.
    pub fn read_pattern_value(&self, encoding: EncodingType, data: &[u8]) -> (r: Result<RawValue>)
        requires
            encoding is Pattern || encoding is PatternDelta,
        ensures
            pattern_value_result_matches(encoding, data@, r),
    {
        let (pattern_id, offset) = match self.decode_varint(data) {
            Ok(x) => x,
            Err(e) => return Err(e),
        };
        match encoding {
            EncodingType::Pattern => Ok(RawValue::PatternRef(pattern_id)),
            _ => {
                if offset >= data.len() {
                    return Err(
                        AlecError::Decode(DecodeError::BufferTooShort { needed: offset + 1, available: data.len() }),
                    );
                }
                let b = data[offset];
                let d: i8 = if b < 128 {
                    b as i8
                } else {
                    (b as i16 - 256) as i8
                };
                Ok(RawValue::PatternRefDelta(pattern_id, d))
            },
        }
    }

    /// Read the bytes of a frame from the wire: with checksum verification
    /// when the decoder verifies checksums, else as a plain frame (an
    /// unreadable header is an invalid header).
    pub fn parse_frame(&self, bytes: &[u8]) -> (r: Result<EncodedMessage>)
        ensures
            self.spec_verify_checksum() ==> match r {
                Ok(m) => spec_parse_checked(bytes@) == Ok::<(MessageHeader, Seq<u8>), DecodeError>(
                    (m.header, m.payload@),
                ),
                Err(e) => e is Decode && spec_parse_checked(bytes@) == Err::<(MessageHeader, Seq<u8>), DecodeError>(
                    e->Decode_0,
                ),
            },
            !self.spec_verify_checksum() ==> match r {
                Ok(m) => spec_parse_message(bytes@) == Some((m.header, m.payload@)),
                Err(e) => e == AlecError::Decode(DecodeError::InvalidHeader) && spec_parse_message(
                    bytes@,
                ).is_none(),
            },
    {
        if self.verify_checksum {
            match EncodedMessage::from_bytes_with_checksum(bytes) {
                Ok(m) => Ok(m),
                Err(e) => Err(AlecError::Decode(e)),
            }
        } else {
            match EncodedMessage::from_bytes(bytes) {
                Some(m) => Ok(m),
                None => Err(AlecError::Decode(DecodeError::InvalidHeader)),
            }
        }
    }

    /// Read the head of a multi-value payload: the source-id varint, the
    /// Multi code and the count; returns the count and the offset of the
    /// first entry.
    pub fn read_multi_header(&self, payload: &[u8]) -> (r: Result<(usize, usize)>)
        ensures
            multi_header_result_matches(payload@, r),
    {
        let (_source_id, offset) = match self.decode_varint(payload) {
            Ok(x) => x,
            Err(e) => return Err(e),
        };
        if offset >= payload.len() {
            return Err(
                AlecError::Decode(DecodeError::BufferTooShort { needed: offset + 1, available: payload.len() }),
            );
        }
        let encoding = payload[offset];
        if encoding != 0x40 {
            return Err(
                AlecError::Decode(
                    DecodeError::MalformedMessage { offset, reason: "Expected Multi encoding".to_string() },
                ),
            );
        }
        let offset = offset + 1;
        if offset >= payload.len() {
            return Err(
                AlecError::Decode(DecodeError::BufferTooShort { needed: offset + 1, available: payload.len() }),
            );
        }
        let count = payload[offset] as usize;
        Ok((count, offset + 1))
    }

    /// Read one entry of a multi-value payload at `offset`: the name id
    /// (one byte), the encoding byte and the value bytes; returns the name
    /// id, the raw value and the offset of the next entry.
    pub fn read_multi_entry(&self, payload: &[u8], offset: usize) -> (r: Result<(u8, RawValue, usize)>)
        requires
            offset <= payload@.len() < usize::MAX,
        ensures
            multi_entry_result_matches(payload@, offset, r),
    {
        let n = payload.len();
        if offset >= n {
            return Err(AlecError::Decode(DecodeError::BufferTooShort { needed: offset + 1, available: n }));
        }
        let name_id = payload[offset];
        let offset = offset + 1;
        if offset >= n {
            return Err(AlecError::Decode(DecodeError::BufferTooShort { needed: offset + 1, available: n }));
        }
        let enc_byte = payload[offset];
        let offset = offset + 1;
        let enc = match EncodingType::from_u8(enc_byte) {
            Some(e) => e,
            None => return Err(AlecError::Decode(DecodeError::UnknownEncodingType(enc_byte))),
        };
        match enc {
            EncodingType::Pattern | EncodingType::PatternDelta | EncodingType::Multi => Err(
                AlecError::Decode(
                    DecodeError::MalformedMessage {
                        offset,
                        reason: "Unsupported encoding in multi frame".to_string(),
                    },
                ),
            ),
            _ => {
                let rest = &payload[offset..n];
                let v = match self.read_fixed_value(enc, rest) {
                    Ok(v) => v,
                    Err(e) => return Err(e),
                };
                let size: usize = match enc {
                    EncodingType::Raw64 => 8,
                    EncodingType::Raw32 => 4,
                    EncodingType::Delta8 => 1,
                    EncodingType::Delta16 => 2,
                    EncodingType::Delta32 => 4,
                    _ => 0,
                };
                Ok((name_id, v, offset + size))
            },
        }
    }
}

/// What reading a pattern reference returns.
pub open spec fn pattern_value_result_matches(encoding: EncodingType, data: Seq<u8>, r: Result<RawValue>) -> bool {
    match spec_read_varint(data) {
        VarintRead::Value(id, offset) => if encoding is Pattern {
            r == Ok::<RawValue, AlecError>(RawValue::PatternRef(id))
        } else if offset >= data.len() {
            r == Err::<RawValue, AlecError>(
                AlecError::Decode(
                    DecodeError::BufferTooShort { needed: (offset + 1) as usize, available: data.len() as usize },
                ),
            )
        } else {
            r == Ok::<RawValue, AlecError>(RawValue::PatternRefDelta(id, i8_of(data[offset as int])))
        },
        _ => r is Err && varint_result_matches(data, Err(r->Err_0)),
    }
}

/// The reason carried when a multi payload does not carry the Multi code.
pub open spec fn expected_multi_reason() -> Seq<char> {
    "Expected Multi encoding"@
}

/// The reason carried when a multi entry uses an encoding it cannot hold.
pub open spec fn unsupported_multi_reason() -> Seq<char> {
    "Unsupported encoding in multi frame"@
}

/// What reading the head of a multi-value payload returns.
pub open spec fn multi_header_result_matches(payload: Seq<u8>, r: Result<(usize, usize)>) -> bool {
    match spec_read_varint(payload) {
        VarintRead::Value(_, offset) => if offset >= payload.len() {
            r == Err::<(usize, usize), AlecError>(
                AlecError::Decode(
                    DecodeError::BufferTooShort { needed: (offset + 1) as usize, available: payload.len() as usize },
                ),
            )
        } else if payload[offset as int] != 0x40 {
            r matches Err(AlecError::Decode(DecodeError::MalformedMessage { offset: o, reason }))
                && o == offset && reason@ == expected_multi_reason()
        } else if offset + 1 >= payload.len() {
            r == Err::<(usize, usize), AlecError>(
                AlecError::Decode(
                    DecodeError::BufferTooShort { needed: (offset + 2) as usize, available: payload.len() as usize },
                ),
            )
        } else {
            r == Ok::<(usize, usize), AlecError>(
                (payload[offset + 1] as usize, (offset + 2) as usize),
            )
        },
        _ => r is Err && varint_result_matches(payload, Err(r->Err_0)),
    }
}

/// What reading one entry of a multi-value payload at `offset` returns.
pub open spec fn multi_entry_result_matches(payload: Seq<u8>, offset: usize, r: Result<(u8, RawValue, usize)>) -> bool {
    let n = payload.len();
    if offset >= n {
        r == Err::<(u8, RawValue, usize), AlecError>(
            AlecError::Decode(DecodeError::BufferTooShort { needed: (offset + 1) as usize, available: n as usize }),
        )
    } else if offset + 1 >= n {
        r == Err::<(u8, RawValue, usize), AlecError>(
            AlecError::Decode(DecodeError::BufferTooShort { needed: (offset + 2) as usize, available: n as usize }),
        )
    } else {
        let enc_byte = payload[offset + 1];
        match EncodingType::spec_from_u8(enc_byte) {
            None => r == Err::<(u8, RawValue, usize), AlecError>(
                AlecError::Decode(DecodeError::UnknownEncodingType(enc_byte)),
            ),
            Some(e) => if e is Pattern || e is PatternDelta || e is Multi {
                r matches Err(AlecError::Decode(DecodeError::MalformedMessage { offset: o, reason }))
                    && o == offset + 2 && reason@ == unsupported_multi_reason()
            } else {
                let rest = payload.subrange(offset + 2, n as int);
                if rest.len() < fixed_value_len(e) {
                    r == Err::<(u8, RawValue, usize), AlecError>(
                        AlecError::Decode(
                            DecodeError::BufferTooShort {
                                needed: fixed_value_len(e) as usize,
                                available: rest.len() as usize,
                            },
                        ),
                    )
                } else {
                    r == Ok::<(u8, RawValue, usize), AlecError>(
                        (payload[offset as int], spec_fixed_raw_value(e, rest), (offset + 2 + fixed_value_len(e)) as usize),
                    )
                }
            },
        }
    }
}

/// What reading the framing of a data payload returns: the source id, the
/// encoding type and the value offset, or the first error met.
pub open spec fn data_frame_result_matches(payload: Seq<u8>, r: Result<(u32, EncodingType, usize)>) -> bool {
    if payload.len() == 0 {
        r == Err::<(u32, EncodingType, usize), AlecError>(
            AlecError::Decode(DecodeError::BufferTooShort { needed: 1, available: 0 }),
        )
    } else {
        match spec_read_varint(payload) {
            VarintRead::Value(source_id, offset) => if offset >= payload.len() {
                r == Err::<(u32, EncodingType, usize), AlecError>(
                    AlecError::Decode(
                        DecodeError::BufferTooShort { needed: (offset + 1) as usize, available: payload.len() as usize },
                    ),
                )
            } else {
                match EncodingType::spec_from_u8(payload[offset as int]) {
                    Some(e) => r == Ok::<(u32, EncodingType, usize), AlecError>(
                        (source_id, e, (offset + 1) as usize),
                    ),
                    None => r == Err::<(u32, EncodingType, usize), AlecError>(
                        AlecError::Decode(DecodeError::UnknownEncodingType(payload[offset as int])),
                    ),
                }
            },
            _ => r is Err && varint_result_matches(payload, Err(r->Err_0)),
        }
    }
}

impl Default for Decoder {
    fn default() -> (r: Self)
        ensures
            r.is_fresh(),
            !r.spec_verify_checksum(),
    {
        Self::new()
    }
}

/// The entries of a multi-value frame are six bytes each, entry `i` at
/// offset `6 * i`.
proof fn lemma_multi_entries_at(values: Seq<(u8, u32)>, i: int)
    requires
        0 <= i < values.len(),
    ensures
        multi_entries(values).len() == 6 * values.len(),
        multi_entries(values).subrange(6 * i, 6 * i + 6) == multi_entry(values[i].0, values[i].1),
    decreases values.len(),
{
    let init = values.drop_last();
    lemma_be32_roundtrip(values.last().1);
    if i < values.len() - 1 {
        lemma_multi_entries_at(init, i);
        assert(multi_entries(values).subrange(6 * i, 6 * i + 6) =~= multi_entries(init).subrange(6 * i, 6 * i + 6));
    } else {
        if init.len() > 0 {
            lemma_multi_entries_at(init, 0);
        } else {
            assert(multi_entries(init) =~= Seq::<u8>::empty());
        }
        assert(multi_entries(values).subrange(6 * i, 6 * i + 6) =~= multi_entry(values[i].0, values[i].1));
    }
}

/// What `encode_multi` writes, the multi readers give back: the head
/// gives the count and the offset of the first entry, and entry `i`, read
/// where entry `i - 1` ended, gives the name id and the f32 bits written,
/// and the offset of the next entry.
pub proof fn lemma_multi_roundtrip(source_id: u32, values: Seq<(u8, u32)>, i: int)
    requires
        values.len() < 256,
        0 <= i < values.len(),
    ensures
        ({
            let p = multi_payload(source_id, values);
            let o = varint_bytes(source_id).len() + 2;
            &&& multi_header_result_matches(p, Ok((values.len() as usize, o as usize)))
            &&& multi_entry_result_matches(
                p,
                (o + 6 * i) as usize,
                Ok((values[i].0, RawValue::F32Bits(values[i].1), (o + 6 * i + 6) as usize)),
            )
        }),
{
    let v = varint_bytes(source_id);
    let rest = seq![0x40u8, (values.len() % 256) as u8] + multi_entries(values);
    let p = multi_payload(source_id, values);
    assert(p =~= v + rest);
    lemma_varint_roundtrip(source_id, rest);
    lemma_multi_entries_at(values, i);
    let o = v.len() + 2;
    assert(p[v.len() as int] == 0x40u8);
    assert(p[v.len() + 1int] == values.len() as u8);
    let k = o + 6 * i;
    let entry = multi_entry(values[i].0, values[i].1);
    assert forall|j: int| 0 <= j < 6 implies p[k + j] == entry[j] by {
        assert(p[k + j] == multi_entries(values)[6 * i + j]);
        assert(multi_entries(values).subrange(6 * i, 6 * i + 6)[j] == multi_entries(values)[6 * i + j]);
    }
    assert(entry[0] == values[i].0 && entry[1] == 0x01u8);
    assert(p[k + 0] == entry[0]);
    assert(p[k + 1] == entry[1]);
    assert(p[k] == values[i].0);
    assert(p[k + 1] == 0x01u8);
    assert(p[k + 2] == entry[2] && p[k + 3] == entry[3] && p[k + 4] == entry[4] && p[k + 5] == entry[5]);
    assert(entry[2] == be32(values[i].1)[0] && entry[3] == be32(values[i].1)[1] && entry[4] == be32(values[i].1)[2]
        && entry[5] == be32(values[i].1)[3]);
    assert(p.len() == o + 6 * values.len());
    assert(EncodingType::spec_from_u8(0x01u8) == Some(EncodingType::Raw32));
    let tail = p.subrange(k + 2, p.len() as int);
    lemma_be32_roundtrip(values[i].1);
    assert(tail[0] == be32(values[i].1)[0] && tail[1] == be32(values[i].1)[1] && tail[2] == be32(values[i].1)[2]
        && tail[3] == be32(values[i].1)[3]) by {
        assert(tail[0] == p[k + 2] && tail[1] == p[k + 3] && tail[2] == p[k + 4] && tail[3] == p[k + 5]);
    }
    assert(read_be32(tail, 0) == values[i].1);
    lemma_varint_bytes_shape(source_id);
    assert(multi_header_result_matches(p, Ok((values.len() as usize, o as usize))));
    assert(tail.len() >= fixed_value_len(EncodingType::Raw32));
    assert(spec_fixed_raw_value(EncodingType::Raw32, tail) == RawValue::F32Bits(values[i].1));
}

/// Largest forward step of the context version that a fixed-channel frame
/// may take without being flagged as a mismatch.
pub const FIXED_CTX_MAX_JUMP: u16 = 256;

/// Outcome of reading a fixed-channel frame.
#[derive(Debug, Clone, Copy, PartialEq, Eq, Structural)]
pub struct FixedFrameInfo {
    /// True if the frame was a keyframe (marker 0xA2).
    pub keyframe: bool,
    /// Sequence number from the compact header.
    pub sequence: u16,
    /// Low-u16 context version from the compact header.
    pub context_version: u16,
    /// Number of frames missing between the previous frame and this one,
    /// clipped to 255 (0 means contiguous or first frame).
    pub gap_size: u8,
    /// True if the header's context version is not a compatible successor
    /// of the tracked one (never on a keyframe).
    pub context_mismatch: bool,
}

/// How one channel of a fixed-channel frame is written: two bits of the
/// bitmap, 0 for repeated (no bytes), 1 for an 8-bit delta, 2 for a 16-bit
/// delta, 3 for the four bytes of an f32.
#[derive(Debug, Clone, Copy, PartialEq, Eq, Structural)]
pub enum FixedEncoding {
    Repeated,
    Delta8,
    Delta16,
    Raw32,
}

/// The channel encoding that two bitmap bits stand for.
pub open spec fn fixed_encoding_of(code: int) -> FixedEncoding {
    if code == 0 {
        FixedEncoding::Repeated
    } else if code == 1 {
        FixedEncoding::Delta8
    } else if code == 2 {
        FixedEncoding::Delta16
    } else {
        FixedEncoding::Raw32
    }
}

/// The value bytes a channel encoding takes.
pub open spec fn fixed_encoding_size(e: FixedEncoding) -> nat {
    match e {
        FixedEncoding::Repeated => 0,
        FixedEncoding::Delta8 => 1,
        FixedEncoding::Delta16 => 2,
        FixedEncoding::Raw32 => 4,
    }
}

/// Bytes of the bitmap of `n` channels: two bits each, four per byte.
pub open spec fn fixed_bitmap_len(n: nat) -> nat {
    (n + 3) / 4
}

/// 4 to the power `k`, for `k < 4`.
pub open spec fn pow4(k: int) -> int {
    if k == 0 {
        1
    } else if k == 1 {
        4
    } else if k == 2 {
        16
    } else {
        64
    }
}

/// The encoding of channel `i` of a fixed-channel frame: the bits
/// `2 * (i % 4)` and up of bitmap byte `i / 4`, which follows the marker and
/// the compact header.
pub open spec fn fixed_channel_encoding(input: Seq<u8>, i: int) -> FixedEncoding {
    fixed_encoding_of((input[5 + i / 4] as int / pow4(i % 4)) % 4)
}

/// The value bytes of the first `k` channels.
pub open spec fn fixed_data_len(input: Seq<u8>, k: nat) -> nat
    decreases k,
{
    if k == 0 {
        0
    } else {
        fixed_data_len(input, (k - 1) as nat) + fixed_encoding_size(fixed_channel_encoding(input, k - 1))
    }
}

/// The raw value of a channel written with encoding `e` at `off`.
pub open spec fn fixed_raw(e: FixedEncoding, input: Seq<u8>, off: int) -> RawValue {
    let rest = input.subrange(off, input.len() as int);
    match e {
        FixedEncoding::Repeated => RawValue::Repeated,
        FixedEncoding::Delta8 => spec_fixed_raw_value(EncodingType::Delta8, rest),
        FixedEncoding::Delta16 => spec_fixed_raw_value(EncodingType::Delta16, rest),
        FixedEncoding::Raw32 => spec_fixed_raw_value(EncodingType::Raw32, rest),
    }
}

/// The raw values of the first `k` channels, whose value bytes start at
/// `start`.
pub open spec fn fixed_raws(input: Seq<u8>, start: int, k: nat) -> Seq<RawValue>
    decreases k,
{
    if k == 0 {
        Seq::empty()
    } else {
        fixed_raws(input, start, (k - 1) as nat).push(
            fixed_raw(
                fixed_channel_encoding(input, k - 1),
                input,
                start + fixed_data_len(input, (k - 1) as nat),
            ),
        )
    }
}

/// Frames missing before sequence `seq`, given the last tracked one:
/// none on the first frame or a repeat, else one less than the forward
/// distance, clipped to 255.
pub open spec fn fixed_gap(last: Option<u16>, seq: u16) -> u8 {
    match last {
        None => 0,
        Some(p) => {
            let g = (seq - p) % 65536;
            if g == 0 {
                0
            } else if g - 1 > 255 {
                255
            } else {
                (g - 1) as u8
            }
        },
    }
}

/// The reason carried when a fixed-channel read is asked for no channel.
pub open spec fn no_channel_reason() -> Seq<char> {
    "channel_count must be > 0"@
}

/// The reason carried when the marker is not a fixed-channel marker.
pub open spec fn not_fixed_reason() -> Seq<char> {
    "not a fixed-channel ALEC frame"@
}

/// The reason carried when more channels are asked for than the format
/// holds.
pub open spec fn too_many_channels_reason() -> Seq<char> {
    "channel_count > 64 not supported by fixed wire format"@
}

/// What reading a fixed-channel frame of `n` channels into an output of
/// `output_len` values returns, given the tracked sequence and context
/// version: the first error met, or the frame's information and the raw
/// value of each channel.
pub open spec fn fixed_frame_result_matches(
    input: Seq<u8>,
    n: usize,
    output_len: usize,
    last_seq: Option<u16>,
    last_cv: Option<u16>,
    r: Result<(FixedFrameInfo, Vec<RawValue>)>,
) -> bool {
    let bl = fixed_bitmap_len(n as nat);
    if n == 0 {
        r matches Err(AlecError::Decode(DecodeError::MalformedMessage { offset: o, reason })) && o == 0
            && reason@ == no_channel_reason()
    } else if output_len < n {
        r == Err::<(FixedFrameInfo, Vec<RawValue>), AlecError>(
            AlecError::Decode(DecodeError::BufferTooShort { needed: n, available: output_len }),
        )
    } else if input.len() < 5 + bl {
        r == Err::<(FixedFrameInfo, Vec<RawValue>), AlecError>(
            AlecError::Decode(
                DecodeError::BufferTooShort { needed: (5 + bl) as usize, available: input.len() as usize },
            ),
        )
    } else if input[0] != COMPACT_MARKER_DATA && input[0] != COMPACT_MARKER_KEYFRAME {
        r matches Err(AlecError::Decode(DecodeError::MalformedMessage { offset: o, reason })) && o == 0
            && reason@ == not_fixed_reason()
    } else if n > 64 {
        r matches Err(AlecError::Decode(DecodeError::MalformedMessage { offset: o, reason })) && o == 0
            && reason@ == too_many_channels_reason()
    } else if input.len() < 5 + bl + fixed_data_len(input, n as nat) {
        r == Err::<(FixedFrameInfo, Vec<RawValue>), AlecError>(
            AlecError::Decode(
                DecodeError::BufferTooShort {
                    needed: (5 + bl + fixed_data_len(input, n as nat)) as usize,
                    available: input.len() as usize,
                },
            ),
        )
    } else {
        let keyframe = input[0] == COMPACT_MARKER_KEYFRAME;
        let seq = read_be16(input, 1);
        let cv = read_be16(input, 3);
        r matches Ok((info, raws)) && info == (FixedFrameInfo {
            keyframe,
            sequence: seq,
            context_version: cv,
            gap_size: fixed_gap(last_seq, seq),
            context_mismatch: !keyframe && (last_cv matches Some(v) && !spec_ctx_version_compatible(
                cv,
                v,
                FIXED_CTX_MAX_JUMP,
            )),
        }) && raws@ == fixed_raws(input, (5 + bl) as int, n as nat)
    }
}

/// The value bytes of the first channels never exceed those of more
/// channels, nor four bytes a channel.
proof fn lemma_fixed_data_len_grows(input: Seq<u8>, i: nat, k: nat)
    requires
        i <= k,
    ensures
        fixed_data_len(input, i) <= fixed_data_len(input, k),
        fixed_data_len(input, k) <= 4 * k,
    decreases k,
{
    if k > 0 {
        lemma_fixed_data_len_grows(input, if i == k { (k - 1) as nat } else { i }, (k - 1) as nat);
    }
}

impl Decoder {
    /// The encoding of channel `i`, read from its two bitmap bits.
    fn channel_encoding(input: &[u8], i: usize) -> (r: FixedEncoding)
        requires
            5 + i / 4 < input@.len(),
        ensures
            r == fixed_channel_encoding(input@, i as int),
    {
        let byte = input[5 + i / 4];
        let div: u8 = if i % 4 == 0 {
            1
        } else if i % 4 == 1 {
            4
        } else if i % 4 == 2 {
            16
        } else {
            64
        };
        let code = (byte / div) % 4;
        if code == 0 {
            FixedEncoding::Repeated
        } else if code == 1 {
            FixedEncoding::Delta8
        } else if code == 2 {
            FixedEncoding::Delta16
        } else {
            FixedEncoding::Raw32
        }
    }

    /// Read a fixed-channel frame of `channel_count` channels, to be
    /// written into an output of `output_len` values: the marker (keyframe
    /// or data), the compact header, the bitmap of channel encodings and
    /// the channels' value bytes. Returns the frame's information (gap
    /// since the tracked sequence, context-version mismatch) and each
    /// channel's raw value; the trackers stay as they are, for
    /// `record_fixed_frame` to advance once the values are rebuilt.
    pub fn read_multi_fixed(&self, input: &[u8], channel_count: usize, output_len: usize) -> (r: Result<
        (FixedFrameInfo, Vec<RawValue>),
    >)
        ensures
            fixed_frame_result_matches(
                input@,
                channel_count,
                output_len,
                self.spec_last_fixed_sequence(),
                self.spec_last_fixed_ctx_version(),
                r,
            ),
    {
        if channel_count == 0 {
            return Err(
                AlecError::Decode(
                    DecodeError::MalformedMessage { offset: 0, reason: "channel_count must be > 0".to_string() },
                ),
            );
        }
        if output_len < channel_count {
            return Err(AlecError::Decode(DecodeError::BufferTooShort { needed: channel_count, available: output_len }));
        }
        let bitmap_bytes: usize = channel_count / 4 + if channel_count % 4 == 0 {
            0
        } else {
            1
        };
        assert(bitmap_bytes == fixed_bitmap_len(channel_count as nat));
        let min_size = 5 + bitmap_bytes;
        let n = input.len();
        if n < min_size {
            return Err(AlecError::Decode(DecodeError::BufferTooShort { needed: min_size, available: n }));
        }
        let keyframe = match classify_compact_marker(input[0]) {
            Some(k) => k,
            None => {
                return Err(
                    AlecError::Decode(
                        DecodeError::MalformedMessage {
                            offset: 0,
                            reason: "not a fixed-channel ALEC frame".to_string(),
                        },
                    ),
                );
            },
        };
        let hbytes = &input[1..5];
        let header = match CompactHeader::read(hbytes) {
            Ok(h) => h,
            Err(e) => return Err(AlecError::Decode(e)),
        };
        proof {
            assert(hbytes@ =~= input@.subrange(1, 5));
            assert(read_be16(hbytes@, 0) == read_be16(input@, 1));
            assert(read_be16(hbytes@, 2) == read_be16(input@, 3));
        }
        let gap_size: u8 = match self.last_fixed_sequence {
            Some(prev) => {
                let diff = header.sequence.wrapping_sub(prev);
                if diff == 0 {
                    0
                } else if diff - 1 > 255 {
                    255
                } else {
                    (diff - 1) as u8
                }
            },
            None => 0,
        };
        let context_mismatch = if keyframe {
            false
        } else {
            match self.last_fixed_ctx_version {
                Some(last) => !ctx_version_compatible(header.context_version, last, FIXED_CTX_MAX_JUMP),
                None => false,
            }
        };
        if channel_count > 64 {
            return Err(
                AlecError::Decode(
                    DecodeError::MalformedMessage {
                        offset: 0,
                        reason: "channel_count > 64 not supported by fixed wire format".to_string(),
                    },
                ),
            );
        }
        let mut encodings: Vec<FixedEncoding> = Vec::new();
        let mut data_bytes: usize = 0;
        let mut i: usize = 0;
        while i < channel_count
            invariant
                channel_count <= 64,
                n == input@.len(),
                n >= 5 + fixed_bitmap_len(channel_count as nat),
                i <= channel_count,
                encodings@.len() == i,
                forall|j: int| 0 <= j < i ==> encodings@[j] == fixed_channel_encoding(input@, j),
                data_bytes == fixed_data_len(input@, i as nat),
                data_bytes <= 4 * i,
            decreases channel_count - i,
        {
            let e = Self::channel_encoding(input, i);
            let size: usize = match e {
                FixedEncoding::Repeated => 0,
                FixedEncoding::Delta8 => 1,
                FixedEncoding::Delta16 => 2,
                FixedEncoding::Raw32 => 4,
            };
            encodings.push(e);
            data_bytes = data_bytes + size;
            i = i + 1;
        }
        let expected_total = min_size + data_bytes;
        if n < expected_total {
            return Err(AlecError::Decode(DecodeError::BufferTooShort { needed: expected_total, available: n }));
        }
        let ghost start: int = min_size as int;
        let mut raws: Vec<RawValue> = Vec::new();
        let mut cursor: usize = min_size;
        let mut k: usize = 0;
        while k < channel_count
            invariant
                channel_count <= 64,
                n == input@.len(),
                start == min_size,
                encodings@.len() == channel_count,
                forall|j: int| 0 <= j < channel_count ==> encodings@[j] == fixed_channel_encoding(input@, j),
                n >= min_size + fixed_data_len(input@, channel_count as nat),
                k <= channel_count,
                cursor == min_size + fixed_data_len(input@, k as nat),
                raws@ == fixed_raws(input@, start, k as nat),
            decreases channel_count - k,
        {
            proof {
                lemma_fixed_data_len_grows(input@, (k + 1) as nat, channel_count as nat);
            }
            let e = encodings[k];
            let rest = &input[cursor..n];
            let v = match e {
                FixedEncoding::Repeated => RawValue::Repeated,
                FixedEncoding::Delta8 => match self.read_fixed_value(EncodingType::Delta8, rest) {
                    Ok(v) => v,
                    Err(_) => RawValue::Repeated,
                },
                FixedEncoding::Delta16 => match self.read_fixed_value(EncodingType::Delta16, rest) {
                    Ok(v) => v,
                    Err(_) => RawValue::Repeated,
                },
                FixedEncoding::Raw32 => match self.read_fixed_value(EncodingType::Raw32, rest) {
                    Ok(v) => v,
                    Err(_) => RawValue::Repeated,
                },
            };
            let size: usize = match e {
                FixedEncoding::Repeated => 0,
                FixedEncoding::Delta8 => 1,
                FixedEncoding::Delta16 => 2,
                FixedEncoding::Raw32 => 4,
            };
            raws.push(v);
            cursor = cursor + size;
            k = k + 1;
        }
        let info = FixedFrameInfo {
            keyframe,
            sequence: header.sequence,
            context_version: header.context_version,
            gap_size,
            context_mismatch,
        };
        Ok((info, raws))
    }
}

} // verus!
