use alec::error::DecodeError;
use alec::protocol::{
    classify_compact_marker, ctx_version_compatible, CompactHeader, EncodedMessage, EncodingType, MessageHeader,
    MessageType, Priority,
};

#[test]
fn test_priority_ordering() {
    assert!(Priority::P1Critical < Priority::P2Important);
    assert!(Priority::P2Important < Priority::P3Normal);
    assert!(Priority::P3Normal < Priority::P4Deferred);
    assert!(Priority::P4Deferred < Priority::P5Disposable);
}

#[test]
fn protocol_test_priority_should_transmit() {
    assert!(Priority::P1Critical.should_transmit());
    assert!(Priority::P2Important.should_transmit());
    assert!(Priority::P3Normal.should_transmit());
    assert!(!Priority::P4Deferred.should_transmit());
    assert!(!Priority::P5Disposable.should_transmit());
}

#[test]
fn classifier_test_priority_should_transmit() {
    assert!(Priority::P1Critical.should_transmit());
    assert!(Priority::P2Important.should_transmit());
    assert!(Priority::P3Normal.should_transmit());
    assert!(!Priority::P4Deferred.should_transmit());
    assert!(!Priority::P5Disposable.should_transmit());
}

#[test]
fn test_header_byte_roundtrip() {
    let header = MessageHeader {
        version: 1,
        message_type: MessageType::Data,
        priority: Priority::P2Important,
        sequence: 0,
        timestamp: 0,
        context_version: 0,
    };

    let byte = header.encode_header_byte();
    let (version, msg_type, priority) = MessageHeader::decode_header_byte(byte);

    assert_eq!(version, 1);
    assert_eq!(msg_type, Some(MessageType::Data));
    assert_eq!(priority, Some(Priority::P2Important));
}

#[test]
fn test_header_serialization() {
    let header = MessageHeader {
        version: 1,
        message_type: MessageType::Sync,
        priority: Priority::P1Critical,
        sequence: 12345,
        timestamp: 67890,
        context_version: 42,
    };

    let bytes = header.to_bytes();
    let restored = MessageHeader::from_bytes(&bytes).unwrap();

    assert_eq!(header.version, restored.version);
    assert_eq!(header.message_type, restored.message_type);
    assert_eq!(header.priority, restored.priority);
    assert_eq!(header.sequence, restored.sequence);
    assert_eq!(header.timestamp, restored.timestamp);
    assert_eq!(header.context_version, restored.context_version);
}

#[test]
fn test_message_serialization() {
    let message = EncodedMessage { header: MessageHeader::default(), payload: vec![0x00, 0x10, 0x42] };

    let bytes = message.to_bytes();
    let restored = EncodedMessage::from_bytes(&bytes).unwrap();

    assert_eq!(message.header.message_type, restored.header.message_type);
    assert_eq!(message.payload, restored.payload);
}

#[test]
fn test_checksum_computation() {
    let message = EncodedMessage { header: MessageHeader::default(), payload: vec![0x00, 0x10, 0x42] };

    let checksum1 = message.compute_checksum();
    let checksum2 = message.compute_checksum();
    assert_eq!(checksum1, checksum2);

    let message2 = EncodedMessage { header: MessageHeader::default(), payload: vec![0x00, 0x10, 0x43] };
    let checksum3 = message2.compute_checksum();
    assert_ne!(checksum1, checksum3);
}

#[test]
fn test_checksum_roundtrip() {
    let message = EncodedMessage {
        header: MessageHeader {
            version: 1,
            message_type: MessageType::Data,
            priority: Priority::P2Important,
            sequence: 42,
            timestamp: 12345,
            context_version: 7,
        },
        payload: vec![0x00, 0x10, 0x42, 0x55, 0xAA],
    };

    let bytes = message.to_bytes_with_checksum();
    let restored = EncodedMessage::from_bytes_with_checksum(&bytes).unwrap();

    assert_eq!(message.header.sequence, restored.header.sequence);
    assert_eq!(message.header.timestamp, restored.header.timestamp);
    assert_eq!(message.payload, restored.payload);
}

#[test]
fn test_checksum_corruption_detected() {
    let message = EncodedMessage { header: MessageHeader::default(), payload: vec![0x00, 0x10, 0x42] };

    let mut bytes = message.to_bytes_with_checksum();
    bytes[MessageHeader::SIZE] ^= 0xFF;

    let result = EncodedMessage::from_bytes_with_checksum(&bytes);
    assert!(matches!(result, Err(DecodeError::InvalidChecksum { .. })));
}

#[test]
fn test_checksum_buffer_too_short() {
    let short_bytes = vec![0u8; MessageHeader::SIZE];

    let result = EncodedMessage::from_bytes_with_checksum(&short_bytes);
    assert!(matches!(result, Err(DecodeError::BufferTooShort { .. })));
}

#[test]
fn test_compact_header_roundtrip() {
    let h = CompactHeader::new(12345, 6789);
    let mut buf = [0u8; CompactHeader::SIZE];
    assert_eq!(h.write(&mut buf).unwrap(), CompactHeader::SIZE);
    assert_eq!(buf, [0x30, 0x39, 0x1A, 0x85]);
    let back = CompactHeader::read(&buf).unwrap();
    assert_eq!(back, h);
}

#[test]
fn test_compact_header_buffer_too_short() {
    let h = CompactHeader::new(1, 2);
    let mut buf = [0u8; 3];
    assert!(matches!(h.write(&mut buf), Err(DecodeError::BufferTooShort { .. })));
    assert!(matches!(CompactHeader::read(&buf), Err(DecodeError::BufferTooShort { .. })));
}

#[test]
fn test_classify_compact_marker() {
    assert_eq!(classify_compact_marker(0xA1), Some(false));
    assert_eq!(classify_compact_marker(0xA2), Some(true));
    assert_eq!(classify_compact_marker(0x00), None);
    assert_eq!(classify_compact_marker(0xFF), None);
    assert_eq!(classify_compact_marker(0x7A), None);
}

#[test]
fn test_message_type_data_fixed_channel() {
    assert_eq!(MessageType::DataFixedChannel as u8, 7);
    assert_eq!(MessageType::DataFixedChannel.to_u8(), 7);
    assert_eq!(MessageType::from_u8(7), Some(MessageType::DataFixedChannel));
}

#[test]
fn test_ctx_version_compatible_forward_and_wraparound() {
    assert!(ctx_version_compatible(100, 100, 32));
    assert!(ctx_version_compatible(101, 100, 32));
    assert!(ctx_version_compatible(131, 100, 32));
    assert!(ctx_version_compatible(132, 100, 32));
    assert!(!ctx_version_compatible(133, 100, 32));

    assert!(ctx_version_compatible(0, 65535, 32));
    assert!(ctx_version_compatible(5, 65530, 32));
    assert!(ctx_version_compatible(26, 65530, 32));
    assert!(!ctx_version_compatible(31, 65530, 32));
    assert!(!ctx_version_compatible(1000, 65530, 32));

    assert!(!ctx_version_compatible(10, 100, 32));
}

#[test]
fn priority_codes_roundtrip() {
    for code in 0u8..5 {
        let p = Priority::from_u8(code).unwrap();
        assert_eq!(p.to_u8(), code);
    }
    assert_eq!(Priority::from_u8(5), None);
    assert!(Priority::P1Critical.requires_ack());
    assert!(!Priority::P2Important.requires_ack());
}

#[test]
fn message_type_codes_roundtrip() {
    for code in 0u8..8 {
        let t = MessageType::from_u8(code).unwrap();
        assert_eq!(t.to_u8(), code);
    }
    assert_eq!(MessageType::from_u8(8), None);
}

#[test]
fn encoding_type_codes_roundtrip() {
    assert_eq!(EncodingType::from_u8(0x00), Some(EncodingType::Raw64));
    assert_eq!(EncodingType::from_u8(0x99), None);
    let e = EncodingType::Delta8;
    assert_eq!(EncodingType::from_u8(e.to_u8()), Some(e));
}

#[test]
fn unknown_header_byte_fields_are_refused() {
    let mut bytes = MessageHeader::default().to_bytes();
    bytes[0] = 0b01_000_111;
    assert!(MessageHeader::from_bytes(&bytes).is_none());
    assert!(MessageHeader::from_bytes(&bytes[..9]).is_none());
}

#[test]
fn message_from_short_buffer_is_none() {
    assert!(EncodedMessage::from_bytes(&[0u8; 9]).is_none());
}

#[test]
fn checksum_changes_with_payload_byte() {
    let message = EncodedMessage { header: MessageHeader::default(), payload: vec![1, 2, 3] };
    let bytes = message.to_bytes_with_checksum();
    assert_eq!(bytes.len(), MessageHeader::SIZE + 3 + 4);
    let restored = EncodedMessage::from_bytes_with_checksum(&bytes).unwrap();
    assert_eq!(restored.payload, vec![1, 2, 3]);
}
