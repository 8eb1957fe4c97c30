//! Encoder: frames encoded values into messages, assigns sequence numbers,
//! and writes the source-id varints that start every data payload.

use vstd::prelude::*;

use crate::bytes::{be32, push_all, push_be32};
use crate::protocol::{EncodedMessage, EncodingType, MessageHeader, MessageType, Priority};

verus! {

/// The varint bytes of `v`: seven bits per byte, least significant group
/// first, high bit set on every byte but the last.
pub open spec fn varint_bytes(v: u32) -> Seq<u8>
    decreases v,
{
    if v < 128 {
        seq![v as u8]
    } else {
        seq![((v % 128) + 128) as u8] + varint_bytes(v / 128)
    }
}

/// The header timestamp of a millisecond timestamp: whole seconds, kept to
/// 32 bits.
pub open spec fn header_timestamp(timestamp_ms: u64) -> u32 {
    ((timestamp_ms / 1000) % 4294967296) as u32
}

/// The six payload bytes of one entry of a multi-value frame: the name id,
/// the Raw32 code and the four bytes of the raw f32 bits (big-endian).
pub open spec fn multi_entry(name_id: u8, bits: u32) -> Seq<u8> {
    seq![name_id, 0x01u8] + be32(bits)
}

/// The payload bytes of the entries of a multi-value frame, one
/// `multi_entry` per (name id, raw f32 bits), in order.
pub open spec fn multi_entries(values: Seq<(u8, u32)>) -> Seq<u8>
    decreases values.len(),
{
    if values.len() == 0 {
        Seq::empty()
    } else {
        multi_entries(values.drop_last()) + multi_entry(values.last().0, values.last().1)
    }
}

/// The payload of a multi-value frame: the source-id varint, the Multi
/// code, the count (one byte) and the entries.
pub open spec fn multi_payload(source_id: u32, values: Seq<(u8, u32)>) -> Seq<u8> {
    varint_bytes(source_id) + seq![0x40u8, (values.len() % 256) as u8] + multi_entries(values)
}

/// Encoder for messages.
#[derive(Debug, Clone)]
pub struct Encoder {
    /// Next sequence number
    sequence: u16,
    /// Whether to include a checksum (reserved)
    include_checksum: bool,
}

impl Encoder {
    /// The sequence number the next message will carry.
    pub closed spec fn spec_sequence(&self) -> u16 {
        self.sequence
    }

    /// Whether the encoder was built with a checksum.
    pub closed spec fn spec_include_checksum(&self) -> bool {
        self.include_checksum
    }

    /// Create a new encoder.
    pub fn new() -> (r: Self)
        ensures
            r.spec_sequence() == 0,
            !r.spec_include_checksum(),
    {
        Encoder { sequence: 0, include_checksum: false }
    }

    /// Create an encoder with checksum enabled.
    pub fn with_checksum() -> (r: Self)
        ensures
            r.spec_sequence() == 0,
            r.spec_include_checksum(),
    {
        Encoder { sequence: 0, include_checksum: true }
    }

    /// Get the current sequence number.
    pub fn sequence(&self) -> (r: u16)
        ensures
            r == self.spec_sequence(),
    {
        self.sequence
    }

    /// Whether this encoder was built with a checksum.
    pub fn checksum_enabled(&self) -> (r: bool)
        ensures
            r == self.spec_include_checksum(),
    {
        self.include_checksum
    }

    /// Reset the sequence number.
    pub fn reset_sequence(&mut self)
        ensures
            final(self).spec_sequence() == 0,
            final(self).spec_include_checksum() == old(self).spec_include_checksum(),
    {
        self.sequence = 0;
    }

    /// Encode a varint (variable-length integer).
    pub fn encode_varint(&self, value: u32, output: &mut Vec<u8>)
        ensures
            final(output)@ == old(output)@ + varint_bytes(value),
    {
        let ghost start = output@;
        let mut v = value;
        while v >= 128
            invariant
                start + varint_bytes(value) == output@ + varint_bytes(v),
            decreases v,
        {
            let ghost before = output@;
            output.push(((v % 128) + 128) as u8);
            assert(output@ + varint_bytes(v / 128) =~= before + varint_bytes(v));
            v = v / 128;
        }
        output.push(v as u8);
        assert(output@ =~= start + varint_bytes(value));
    }

    /// Take the current sequence number and advance it, wrapping at 65536.
    fn next_sequence(&mut self) -> (r: u16)
        ensures
            r == old(self).spec_sequence(),
            final(self).spec_sequence() == (old(self).spec_sequence() + 1) % 65536,
            final(self).spec_include_checksum() == old(self).spec_include_checksum(),
    {
        let seq = self.sequence;
        self.sequence = self.sequence.wrapping_add(1);
        seq
    }

    /// Frame one value already encoded as `encoding`: payload is the
    /// source-id varint, the encoding code and the encoded bytes; the
    /// header carries the priority, the next sequence number, the timestamp
    /// in seconds and the context version.
    pub fn build_data_message(
        &mut self,
        source_id: u32,
        encoding: EncodingType,
        encoded_value: &[u8],
        priority: Priority,
        timestamp_ms: u64,
        context_version: u32,
    ) -> (r: EncodedMessage)
        ensures
            r.payload@ == varint_bytes(source_id) + seq![encoding.spec_to_u8()] + encoded_value@,
            r.header == (MessageHeader {
                version: crate::PROTOCOL_VERSION,
                message_type: MessageType::Data,
                priority,
                sequence: old(self).spec_sequence(),
                timestamp: header_timestamp(timestamp_ms),
                context_version,
            }),
            final(self).spec_sequence() == (old(self).spec_sequence() + 1) % 65536,
            final(self).spec_include_checksum() == old(self).spec_include_checksum(),
    {
        let mut payload: Vec<u8> = Vec::new();
        self.encode_varint(source_id, &mut payload);
        payload.push(encoding.to_u8());
        push_all(&mut payload, encoded_value);
        let header = MessageHeader {
            version: crate::PROTOCOL_VERSION,
            message_type: MessageType::Data,
            priority,
            sequence: self.next_sequence(),
            timestamp: ((timestamp_ms / 1000) % 4294967296) as u32,
            context_version,
        };
        EncodedMessage::new(header, payload)
    }

    /// Frame several values in one message, each as Raw32: payload is the
    /// source-id varint, the Multi code, the count (one byte) and, per
    /// value, its name id (one byte), the Raw32 code and the four bytes of
    /// its f32 bit pattern (big-endian).
    pub fn encode_multi(
        &mut self,
        values: &[(u8, u32)],
        source_id: u32,
        timestamp_ms: u64,
        priority: Priority,
        context_version: u32,
    ) -> (r: EncodedMessage)
        ensures
            r.payload@ == multi_payload(source_id, values@),
            r.header == (MessageHeader {
                version: crate::PROTOCOL_VERSION,
                message_type: MessageType::Data,
                priority,
                sequence: old(self).spec_sequence(),
                timestamp: header_timestamp(timestamp_ms),
                context_version,
            }),
            final(self).spec_sequence() == (old(self).spec_sequence() + 1) % 65536,
            final(self).spec_include_checksum() == old(self).spec_include_checksum(),
    {
        let mut payload: Vec<u8> = Vec::new();
        self.encode_varint(source_id, &mut payload);
        payload.push(0x40);
        payload.push((values.len() % 256) as u8);
        let ghost prefix = payload@;
        let mut i: usize = 0;
        while i < values.len()
            invariant
                i <= values@.len(),
                payload@ == prefix + multi_entries(values@.subrange(0, i as int)),
            decreases values@.len() - i,
        {
            let (name_id, bits) = values[i];
            payload.push(name_id);
            payload.push(0x01);
            push_be32(&mut payload, bits);
            proof {
                let next = values@.subrange(0, i + 1);
                assert(next.drop_last() =~= values@.subrange(0, i as int));
                assert(next.last() == values@[i as int]);
            }
            i = i + 1;
            assert(payload@ =~= prefix + multi_entries(values@.subrange(0, i as int)));
        }
        assert(values@.subrange(0, values@.len() as int) =~= values@);
        assert(payload@ =~= multi_payload(source_id, values@));
        let header = MessageHeader {
            version: crate::PROTOCOL_VERSION,
            message_type: MessageType::Data,
            priority,
            sequence: self.next_sequence(),
            timestamp: ((timestamp_ms / 1000) % 4294967296) as u32,
            context_version,
        };
        EncodedMessage::new(header, payload)
    }
}

impl Default for Encoder {
    fn default() -> (r: Self)
        ensures
            r.spec_sequence() == 0,
            !r.spec_include_checksum(),
    {
        Self::new()
    }
}

/// Builder for creating encoded messages manually.
pub struct MessageBuilder {
    header: MessageHeader,
    payload: Vec<u8>,
}

impl MessageBuilder {
    /// The header the builder will produce.
    pub closed spec fn spec_header(&self) -> MessageHeader {
        self.header
    }

    /// The payload the builder will produce.
    pub closed spec fn spec_payload(&self) -> Seq<u8> {
        self.payload@
    }

    /// Create a new message builder.
    pub fn new() -> (r: Self)
        ensures
            r.spec_header() == MessageHeader::spec_new(MessageType::Data, Priority::P3Normal),
            r.spec_payload() == Seq::<u8>::empty(),
    {
        MessageBuilder {
            header: MessageHeader::new(MessageType::Data, Priority::P3Normal),
            payload: Vec::new(),
        }
    }

    /// Set the message type.
    pub fn message_type(self, msg_type: MessageType) -> (r: Self)
        ensures
            r.spec_header() == (MessageHeader { message_type: msg_type, ..self.spec_header() }),
            r.spec_payload() == self.spec_payload(),
    {
        let mut s = self;
        s.header.message_type = msg_type;
        s
    }

    /// Set the priority.
    pub fn priority(self, priority: Priority) -> (r: Self)
        ensures
            r.spec_header() == (MessageHeader { priority, ..self.spec_header() }),
            r.spec_payload() == self.spec_payload(),
    {
        let mut s = self;
        s.header.priority = priority;
        s
    }

    /// Set the sequence number.
    pub fn sequence(self, seq: u16) -> (r: Self)
        ensures
            r.spec_header() == (MessageHeader { sequence: seq, ..self.spec_header() }),
            r.spec_payload() == self.spec_payload(),
    {
        let mut s = self;
        s.header.sequence = seq;
        s
    }

    /// Set the timestamp.
    pub fn timestamp(self, ts: u32) -> (r: Self)
        ensures
            r.spec_header() == (MessageHeader { timestamp: ts, ..self.spec_header() }),
            r.spec_payload() == self.spec_payload(),
    {
        let mut s = self;
        s.header.timestamp = ts;
        s
    }

    /// Set the context version.
    pub fn context_version(self, version: u32) -> (r: Self)
        ensures
            r.spec_header() == (MessageHeader { context_version: version, ..self.spec_header() }),
            r.spec_payload() == self.spec_payload(),
    {
        let mut s = self;
        s.header.context_version = version;
        s
    }

    /// Set the payload.
    pub fn payload(self, payload: Vec<u8>) -> (r: Self)
        ensures
            r.spec_header() == self.spec_header(),
            r.spec_payload() == payload@,
    {
        let mut s = self;
        s.payload = payload;
        s
    }

    /// Build the message.
    pub fn build(self) -> (r: EncodedMessage)
        ensures
            r.header == self.spec_header(),
            r.payload@ == self.spec_payload(),
    {
        EncodedMessage::new(self.header, self.payload)
    }
}

impl Default for MessageBuilder {
    fn default() -> (r: Self)
        ensures
            r.spec_header() == MessageHeader::spec_new(MessageType::Data, Priority::P3Normal),
            r.spec_payload() == Seq::<u8>::empty(),
    {
        Self::new()
    }
}

/// Sequence numbers roll over at 65536: an encoder whose next sequence is
/// `k mod 65536` (as a new or reset encoder, with `k == 0`) gives its next
/// message sequence `k mod 65536` and then stands at `(k + 1) mod 65536`;
/// so the `(k + 1)`-th message from a fresh encoder carries `k mod 65536`.
pub proof fn lemma_sequence_rollover(seq: u16, k: nat)
    requires
        seq == k % 65536,
    ensures
        (seq + 1) % 65536 == (k + 1) % 65536,
{
    let q = k / 65536;
    assert(k == q * 65536 + seq);
    assert((k + 1) % 65536 == (seq + 1) % 65536) by (nonlinear_arith)
        requires
            k == q * 65536 + seq,
            seq < 65536,
    ;
}

} // verus!
