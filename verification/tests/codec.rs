use alec::decoder::{Decoder, FixedFrameInfo, RawValue};
use alec::encoder::{Encoder, MessageBuilder};
use alec::error::{AlecError, DecodeError};
use alec::protocol::{EncodedMessage, EncodingType, MessageHeader, MessageType, Priority};

#[test]
fn test_varint_roundtrip() {
    let decoder = Decoder::new();

    let test_values: Vec<u32> = vec![0, 1, 127, 128, 255, 256, 16383, 16384, 100000];

    for value in test_values {
        let mut buffer = Vec::new();
        let mut v = value;
        while v >= 0x80 {
            buffer.push((v as u8 & 0x7F) | 0x80);
            v >>= 7;
        }
        buffer.push(v as u8);

        let (decoded, _) = decoder.decode_varint(&buffer).unwrap();
        assert_eq!(decoded, value);
    }
}

#[test]
fn test_varint_encoding() {
    let encoder = Encoder::new();

    let mut out1 = Vec::new();
    encoder.encode_varint(42, &mut out1);
    assert_eq!(out1.len(), 1);

    let mut out2 = Vec::new();
    encoder.encode_varint(200, &mut out2);
    assert_eq!(out2.len(), 2);

    let mut out3 = Vec::new();
    encoder.encode_varint(100000, &mut out3);
    assert!(out3.len() >= 3);
}

#[test]
fn test_message_builder() {
    let message = MessageBuilder::new()
        .message_type(MessageType::Sync)
        .priority(Priority::P1Critical)
        .sequence(42)
        .timestamp(12345)
        .payload(vec![1, 2, 3])
        .build();

    assert_eq!(message.header.message_type, MessageType::Sync);
    assert_eq!(message.header.priority, Priority::P1Critical);
    assert_eq!(message.header.sequence, 42);
    assert_eq!(message.payload, vec![1, 2, 3]);
}

#[test]
fn varint_encode_then_decode() {
    let encoder = Encoder::new();
    let decoder = Decoder::new();
    for value in [0u32, 1, 127, 128, 300, 16384, 2_000_000, u32::MAX] {
        let mut out = Vec::new();
        encoder.encode_varint(value, &mut out);
        let (decoded, used) = decoder.decode_varint(&out).unwrap();
        assert_eq!(decoded, value);
        assert_eq!(used, out.len());
    }
    let mut out = Vec::new();
    encoder.encode_varint(300, &mut out);
    assert_eq!(out, vec![0xAC, 0x02]);
}

#[test]
fn varint_errors() {
    let decoder = Decoder::new();
    assert!(matches!(decoder.decode_varint(&[]), Err(AlecError::Decode(DecodeError::BufferTooShort { .. }))));
    assert!(matches!(decoder.decode_varint(&[0x80, 0x80]), Err(AlecError::Decode(DecodeError::BufferTooShort { .. }))));
    assert!(matches!(
        decoder.decode_varint(&[0xFF, 0xFF, 0xFF, 0xFF, 0xFF, 0x01]),
        Err(AlecError::Decode(DecodeError::MalformedMessage { .. }))
    ));
}

#[test]
fn fixed_values_are_read_big_endian_and_signed() {
    let decoder = Decoder::new();
    assert_eq!(decoder.read_fixed_value(EncodingType::Delta8, &[0xFF]).unwrap(), RawValue::Delta(-1));
    assert_eq!(decoder.read_fixed_value(EncodingType::Delta16, &[0x80, 0x00]).unwrap(), RawValue::Delta(-32768));
    assert_eq!(decoder.read_fixed_value(EncodingType::Raw32, &[0x41, 0xB4, 0, 0]).unwrap(), RawValue::F32Bits(0x41B40000));
    assert_eq!(decoder.read_fixed_value(EncodingType::Repeated, &[]).unwrap(), RawValue::Repeated);
    assert!(matches!(
        decoder.read_fixed_value(EncodingType::Raw64, &[1, 2, 3]),
        Err(AlecError::Decode(DecodeError::BufferTooShort { needed: 8, available: 3 }))
    ));
}

#[test]
fn pattern_values() {
    let decoder = Decoder::new();
    assert_eq!(decoder.read_pattern_value(EncodingType::Pattern, &[0x05]).unwrap(), RawValue::PatternRef(5));
    assert_eq!(
        decoder.read_pattern_value(EncodingType::PatternDelta, &[0x05, 0xFE]).unwrap(),
        RawValue::PatternRefDelta(5, -2)
    );
    assert!(decoder.read_pattern_value(EncodingType::PatternDelta, &[0x05]).is_err());
}

#[test]
fn data_frame_reads_source_and_encoding() {
    let mut encoder = Encoder::new();
    let message = encoder.build_data_message(300, EncodingType::Delta8, &[0x02], Priority::P3Normal, 0, 0);
    let mut decoder = Decoder::new();
    let (source, encoding, offset) = decoder.read_data_frame(&message).unwrap();
    assert_eq!(source, 300);
    assert_eq!(encoding, EncodingType::Delta8);
    assert_eq!(message.payload[offset], 0x02);
    assert_eq!(decoder.last_sequence(), Some(0));
}

#[test]
fn checked_frames_are_verified() {
    let message = EncodedMessage { header: MessageHeader::default(), payload: vec![1, 2, 3] };
    let decoder = Decoder::with_checksum_verification();
    let bytes = message.to_bytes_with_checksum();
    assert_eq!(decoder.parse_frame(&bytes).unwrap().payload, vec![1, 2, 3]);
    let mut bad = bytes.clone();
    bad[10] ^= 1;
    assert!(matches!(decoder.parse_frame(&bad), Err(AlecError::Decode(DecodeError::InvalidChecksum { .. }))));
    let plain = Decoder::new();
    assert_eq!(plain.parse_frame(&message.to_bytes()).unwrap().payload, vec![1, 2, 3]);
}

#[test]
fn multi_frame_entries() {
    let mut encoder = Encoder::new();
    let values = [(1u8, 0x41200000u32), (2u8, 0x3F800000u32)];
    let message = encoder.encode_multi(&values, 0, 0, Priority::P3Normal, 0);
    let decoder = Decoder::new();
    let (count, offset) = decoder.read_multi_header(&message.payload).unwrap();
    assert_eq!(count, 2);
    assert_eq!(offset, 3);
    let (id, value, next) = decoder.read_multi_entry(&message.payload, offset).unwrap();
    assert_eq!((id, value, next), (1, RawValue::F32Bits(0x41200000), 9));
    let (id, value, next) = decoder.read_multi_entry(&message.payload, next).unwrap();
    assert_eq!((id, value, next), (2, RawValue::F32Bits(0x3F800000), 15));
    assert_eq!(next, message.payload.len());

    let payload = vec![0, 0x40, 2, 7, EncodingType::Raw32.to_u8(), 0x41, 0x20, 0, 0, 9, EncodingType::Delta8.to_u8(), 0xFE];
    let (count, offset) = decoder.read_multi_header(&payload).unwrap();
    assert_eq!(count, 2);
    let (id, value, next) = decoder.read_multi_entry(&payload, offset).unwrap();
    assert_eq!(id, 7);
    assert_eq!(value, RawValue::F32Bits(0x41200000));
    let (id, value, next) = decoder.read_multi_entry(&payload, next).unwrap();
    assert_eq!(id, 9);
    assert_eq!(value, RawValue::Delta(-2));
    assert_eq!(next, payload.len());
}

#[test]
fn test_roundtrip_multi() {
    let mut encoder = Encoder::new();
    let decoder = Decoder::new();

    let values: Vec<(u8, f64)> = vec![(1, 22.5), (2, 65.0), (3, 1013.25)];
    let raw: Vec<(u8, u32)> = values.iter().map(|(id, v)| (*id, (*v as f32).to_bits())).collect();

    let message = encoder.encode_multi(&raw, 42, 12345, Priority::P3Normal, 0);

    let (count, mut offset) = decoder.read_multi_header(&message.payload).unwrap();
    assert_eq!(count, values.len());
    for (orig_id, orig_val) in values.iter() {
        let (dec_id, raw_value, next) = decoder.read_multi_entry(&message.payload, offset).unwrap();
        assert_eq!(*orig_id, dec_id);
        match raw_value {
            RawValue::F32Bits(bits) => assert!((orig_val - f32::from_bits(bits) as f64).abs() < 0.01),
            other => panic!("unexpected raw value {:?}", other),
        }
        offset = next;
    }
}

#[test]
fn test_decode_invalid_encoding() {
    let mut decoder = Decoder::new();

    // A message with an invalid encoding type: source_id=0, encoding=0xFF.
    let message = EncodedMessage::new(MessageHeader::default(), vec![0x00, 0xFF]);

    let result = decoder.read_data_frame(&message);
    assert!(result.is_err());
}

#[test]
fn fixed_frame_keyframe_then_gap_and_mismatch() {
    let mut decoder = Decoder::new();
    // Keyframe, sequence 5, context version 7; channel 0 Raw32, channel 1
    // Delta8, channel 2 repeated.
    let frame = vec![0xA2, 0, 5, 0, 7, 0b0000_0111, 0x41, 0x20, 0, 0, 0xFE];
    let (info, raws) = decoder.read_multi_fixed(&frame, 3, 3).unwrap();
    assert_eq!(
        info,
        FixedFrameInfo { keyframe: true, sequence: 5, context_version: 7, gap_size: 0, context_mismatch: false }
    );
    assert_eq!(raws, vec![RawValue::F32Bits(0x41200000), RawValue::Delta(-2), RawValue::Repeated]);
    assert_eq!(decoder.last_fixed_sequence(), None);
    decoder.record_fixed_frame(info.sequence, info.context_version);

    // Data frame, sequence 9 (three missing), context version 307 (a jump
    // of 300): one Delta16 channel.
    let frame = vec![0xA1, 0, 9, 0x01, 0x33, 0b0000_0010, 0xFF, 0x38];
    let (info, raws) = decoder.read_multi_fixed(&frame, 1, 4).unwrap();
    assert_eq!(
        info,
        FixedFrameInfo { keyframe: false, sequence: 9, context_version: 307, gap_size: 3, context_mismatch: true }
    );
    assert_eq!(raws, vec![RawValue::Delta(-200)]);
}

#[test]
fn fixed_frame_errors() {
    let decoder = Decoder::new();
    let frame = vec![0xA1, 0, 1, 0, 1, 0b0000_0011];
    assert!(matches!(
        decoder.read_multi_fixed(&frame, 0, 4),
        Err(AlecError::Decode(DecodeError::MalformedMessage { offset: 0, .. }))
    ));
    assert!(matches!(
        decoder.read_multi_fixed(&frame, 2, 1),
        Err(AlecError::Decode(DecodeError::BufferTooShort { needed: 2, available: 1 }))
    ));
    assert!(matches!(
        decoder.read_multi_fixed(&frame[..5], 1, 1),
        Err(AlecError::Decode(DecodeError::BufferTooShort { needed: 6, available: 5 }))
    ));
    let mut bad = frame.clone();
    bad[0] = 0x00;
    assert!(matches!(
        decoder.read_multi_fixed(&bad, 1, 1),
        Err(AlecError::Decode(DecodeError::MalformedMessage { offset: 0, .. }))
    ));
    let long = vec![0xA1u8; 40];
    assert!(matches!(
        decoder.read_multi_fixed(&long, 65, 65),
        Err(AlecError::Decode(DecodeError::MalformedMessage { offset: 0, .. }))
    ));
    // Channel 0 is Raw32 but no value bytes follow.
    assert!(matches!(
        decoder.read_multi_fixed(&frame, 1, 1),
        Err(AlecError::Decode(DecodeError::BufferTooShort { needed: 10, available: 6 }))
    ));
}
