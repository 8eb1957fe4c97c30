use alec::error::{AlecError, ChannelError, ContextError, DecodeError, EncodeError};

#[test]
fn test_error_display() {
    let err = AlecError::Decode(DecodeError::InvalidChecksum { expected: 0x12345678, actual: 0xABCDEF00 });
    let msg = err.message();
    assert!(msg.contains("checksum"));
    assert!(msg.contains("12345678"));
}

#[test]
fn test_error_conversion() {
    let encode_err = EncodeError::InvalidValue("NaN".to_string());
    let alec_err: AlecError = encode_err.into();
    assert!(matches!(alec_err, AlecError::Encode(_)));
}

#[test]
fn error_messages_exact() {
    let err = AlecError::Decode(DecodeError::InvalidChecksum { expected: 0x12345678, actual: 0xABCDEF00 });
    assert_eq!(err.message(), "Decoding error: Invalid checksum: expected 12345678, got abcdef00");
    assert_eq!(
        AlecError::Encode(EncodeError::BufferTooSmall { needed: 10, available: 4 }).message(),
        "Encoding error: Buffer too small: need 10 bytes, have 4"
    );
    assert_eq!(
        AlecError::Context(ContextError::HashMismatch { expected: 0xff, actual: 1 }).message(),
        "Context error: Hash mismatch: expected 00000000000000ff, got 0000000000000001"
    );
    assert_eq!(DecodeError::UnknownEncodingType(5).message(), "Unknown encoding type: 0x05");
    assert_eq!(DecodeError::InvalidHeader.message(), "Invalid header");
    assert_eq!(
        AlecError::Channel(ChannelError::RateLimited { retry_after_ms: 250 }).message(),
        "Channel error: Rate limited: retry after 250ms"
    );
    assert_eq!(AlecError::Protocol("bad".to_string()).message(), "Protocol error: bad");
    assert_eq!(
        ContextError::DictionaryFull { max: 65535 }.message(),
        "Dictionary full: maximum 65535 patterns reached"
    );
}

#[test]
fn conversions_keep_the_inner_error() {
    let e: AlecError = DecodeError::InvalidHeader.into();
    assert_eq!(e, AlecError::Decode(DecodeError::InvalidHeader));
    let e: AlecError = ContextError::DictionaryFull { max: 3 }.into();
    assert_eq!(e, AlecError::Context(ContextError::DictionaryFull { max: 3 }));
    let e: AlecError = ChannelError::BufferFull.into();
    assert_eq!(e, AlecError::Channel(ChannelError::BufferFull));
}
