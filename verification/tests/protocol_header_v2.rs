use alec::encoder::Encoder;
use alec::protocol::{EncodingType, MessageHeader, MessageType, Priority};

#[test]
fn test_sequence_2_bytes_in_header() {
    let header = MessageHeader {
        version: 1,
        message_type: MessageType::Data,
        priority: Priority::P3Normal,
        sequence: 0x1234,
        timestamp: 0,
        context_version: 0,
    };

    let bytes = header.to_bytes();
    assert_eq!(bytes.len(), MessageHeader::SIZE);
    assert_eq!(MessageHeader::SIZE, 10);
    assert_eq!(bytes[1], 0x12);
    assert_eq!(bytes[2], 0x34);
}

#[test]
fn test_context_version_u24_range() {
    let header = MessageHeader {
        version: 1,
        message_type: MessageType::Data,
        priority: Priority::P3Normal,
        sequence: 0,
        timestamp: 0,
        context_version: 0x00ABCDEF,
    };

    let bytes = header.to_bytes();
    let restored = MessageHeader::from_bytes(&bytes).unwrap();
    assert_eq!(restored.context_version, 0x00ABCDEF);
}

#[test]
fn test_context_version_3_bytes_in_header() {
    let header = MessageHeader {
        version: 1,
        message_type: MessageType::Data,
        priority: Priority::P3Normal,
        sequence: 0,
        timestamp: 0,
        context_version: 255,
    };

    let bytes = header.to_bytes();
    assert_eq!(&bytes[7..10], &[0x00, 0x00, 0xFF]);
    assert_eq!(MessageHeader::SIZE, 10);
}

#[test]
fn test_header_roundtrip_all_fields() {
    let header = MessageHeader {
        version: 1,
        message_type: MessageType::Sync,
        priority: Priority::P2Important,
        sequence: 60_000,
        timestamp: 1_741_234_567,
        context_version: 0x00AABBCC,
    };

    let bytes = header.to_bytes();
    let restored = MessageHeader::from_bytes(&bytes).unwrap();

    assert_eq!(restored.version, 1);
    assert_eq!(restored.message_type, MessageType::Sync);
    assert_eq!(restored.priority, Priority::P2Important);
    assert_eq!(restored.sequence, 60_000);
    assert_eq!(restored.timestamp, 1_741_234_567);
    assert_eq!(restored.context_version, 0x00AABBCC);
}

#[test]
fn data_message_timestamp_is_seconds() {
    let mut encoder = Encoder::new();
    let message =
        encoder.build_data_message(0, EncodingType::Raw64, &[0u8; 8], Priority::P3Normal, 1_741_234_567_000, 0);
    assert_eq!(message.header.timestamp, 1_741_234_567u32);
    let message =
        encoder.build_data_message(0, EncodingType::Raw64, &[0u8; 8], Priority::P3Normal, 50 * 24 * 3600 * 1000, 0);
    assert_eq!(message.header.timestamp, 4_320_000u32);
}

#[test]
fn data_message_sequence_wraps_at_u16() {
    let mut encoder = Encoder::new();
    for _ in 0..65_535 {
        encoder.build_data_message(1, EncodingType::Repeated, &[], Priority::P3Normal, 0, 0);
    }
    let msg = encoder.build_data_message(1, EncodingType::Repeated, &[], Priority::P3Normal, 0, 0);
    assert_eq!(msg.header.sequence, 65_535);
    let msg = encoder.build_data_message(1, EncodingType::Repeated, &[], Priority::P3Normal, 0, 0);
    assert_eq!(msg.header.sequence, 0);
    let msg = encoder.build_data_message(1, EncodingType::Repeated, &[], Priority::P3Normal, 0, 0);
    assert_eq!(msg.header.sequence, 1);
}

#[test]
fn data_message_carries_context_version() {
    let mut encoder = Encoder::new();
    let msg = encoder.build_data_message(3, EncodingType::Raw32, &[1, 2, 3, 4], Priority::P1Critical, 5000, 17);
    assert_eq!(msg.header.context_version, 17);
    assert_eq!(msg.payload, vec![3, EncodingType::Raw32.to_u8(), 1, 2, 3, 4]);
}
