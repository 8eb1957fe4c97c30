use alec::tls::{DtlsConfig, TlsConfig, TlsState};

#[test]
fn test_tls_config_builder() {
    let config = TlsConfig::new()
        .with_cert("/path/to/cert.pem", "/path/to/key.pem")
        .with_ca("/path/to/ca.pem")
        .with_server_name("example.com")
        .with_min_version("1.3")
        .with_alpn("h2");

    assert_eq!(config.cert_path, Some("/path/to/cert.pem".to_string()));
    assert_eq!(config.key_path, Some("/path/to/key.pem".to_string()));
    assert_eq!(config.ca_path, Some("/path/to/ca.pem".to_string()));
    assert_eq!(config.server_name, Some("example.com".to_string()));
    assert_eq!(config.min_version, Some("1.3".to_string()));
    assert_eq!(config.alpn_protocols, vec!["h2".to_string()]);
}

#[test]
fn test_tls_config_validation() {
    let client_config = TlsConfig::new().with_server_name("example.com");
    assert!(client_config.is_valid_client());
    assert!(!client_config.is_valid_server());

    let server_config = TlsConfig::new().with_cert("/path/to/cert.pem", "/path/to/key.pem");
    assert!(server_config.is_valid_server());

    let self_signed_client = TlsConfig::new().allow_self_signed();
    assert!(self_signed_client.is_valid_client());
}

#[test]
fn test_dtls_config() {
    let dtls = DtlsConfig::new().with_mtu(1400).with_retransmit_timeout(500);

    assert_eq!(dtls.mtu, Some(1400));
    assert_eq!(dtls.retransmit_timeout_ms, Some(500));
    assert!(dtls.replay_protection);
}

#[test]
fn test_tls_state_default() {
    let state = TlsState::default();
    assert_eq!(state, TlsState::Disconnected);
}

#[test]
fn empty_tls_config_is_neither_client_nor_server() {
    let config = TlsConfig::new();
    assert!(!config.is_valid_client());
    assert!(!config.is_valid_server());
    let dtls = DtlsConfig::from_tls(TlsConfig::new().with_alpn("coap").with_alpn("h2"));
    assert_eq!(dtls.tls.alpn_protocols.len(), 2);
    assert_eq!(dtls.mtu, None);
}
