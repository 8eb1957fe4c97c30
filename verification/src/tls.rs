//! TLS and DTLS configuration for secure channels.

use vstd::prelude::*;

verus! {

broadcast use vstd::string::group_string_axioms;

/// Whether an optional text holds exactly `s`.
pub open spec fn holds_text(o: Option<String>, s: Seq<char>) -> bool {
    o is Some && o->Some_0@ == s
}

/// TLS configuration builder.
#[derive(Debug, Clone)]
pub struct TlsConfig {
    /// Path to certificate file (PEM format)
    pub cert_path: Option<String>,
    /// Path to private key file (PEM format)
    pub key_path: Option<String>,
    /// Path to CA certificate for verification
    pub ca_path: Option<String>,
    /// Server name for SNI and verification
    pub server_name: Option<String>,
    /// Allow self-signed certificates
    pub allow_self_signed: bool,
    /// Minimum TLS version (e.g. "1.2", "1.3")
    pub min_version: Option<String>,
    /// ALPN protocols to negotiate
    pub alpn_protocols: Vec<String>,
}

impl TlsConfig {
    /// A configuration with nothing set.
    pub open spec fn is_empty_config(&self) -> bool {
        &&& self.cert_path is None
        &&& self.key_path is None
        &&& self.ca_path is None
        &&& self.server_name is None
        &&& !self.allow_self_signed
        &&& self.min_version is None
        &&& self.alpn_protocols@.len() == 0
    }

    /// Create a new empty TLS configuration.
    pub fn new() -> (r: Self)
        ensures
            r.is_empty_config(),
    {
        Self::default()
    }

    /// Configure certificate and key paths.
    pub fn with_cert(self, cert_path: &str, key_path: &str) -> (r: Self)
        ensures
            holds_text(r.cert_path, cert_path@),
            holds_text(r.key_path, key_path@),
            r.ca_path == self.ca_path,
            r.server_name == self.server_name,
            r.allow_self_signed == self.allow_self_signed,
            r.min_version == self.min_version,
            r.alpn_protocols == self.alpn_protocols,
    {
        let mut s = self;
        s.cert_path = Some(cert_path.to_string());
        s.key_path = Some(key_path.to_string());
        s
    }

    /// Configure the CA certificate path for verification.
    pub fn with_ca(self, ca_path: &str) -> (r: Self)
        ensures
            holds_text(r.ca_path, ca_path@),
            r.cert_path == self.cert_path,
            r.key_path == self.key_path,
            r.server_name == self.server_name,
            r.allow_self_signed == self.allow_self_signed,
            r.min_version == self.min_version,
            r.alpn_protocols == self.alpn_protocols,
    {
        let mut s = self;
        s.ca_path = Some(ca_path.to_string());
        s
    }

    /// Configure the server name for SNI.
    pub fn with_server_name(self, name: &str) -> (r: Self)
        ensures
            holds_text(r.server_name, name@),
            r.cert_path == self.cert_path,
            r.key_path == self.key_path,
            r.ca_path == self.ca_path,
            r.allow_self_signed == self.allow_self_signed,
            r.min_version == self.min_version,
            r.alpn_protocols == self.alpn_protocols,
    {
        let mut s = self;
        s.server_name = Some(name.to_string());
        s
    }

    /// Allow self-signed certificates.
    pub fn allow_self_signed(self) -> (r: Self)
        ensures
            r.allow_self_signed,
            r.cert_path == self.cert_path,
            r.key_path == self.key_path,
            r.ca_path == self.ca_path,
            r.server_name == self.server_name,
            r.min_version == self.min_version,
            r.alpn_protocols == self.alpn_protocols,
    {
        let mut s = self;
        s.allow_self_signed = true;
        s
    }

    /// Set the minimum TLS version.
    pub fn with_min_version(self, version: &str) -> (r: Self)
        ensures
            holds_text(r.min_version, version@),
            r.cert_path == self.cert_path,
            r.key_path == self.key_path,
            r.ca_path == self.ca_path,
            r.server_name == self.server_name,
            r.allow_self_signed == self.allow_self_signed,
            r.alpn_protocols == self.alpn_protocols,
    {
        let mut s = self;
        s.min_version = Some(version.to_string());
        s
    }

    /// Add an ALPN protocol at the end of the list.
    pub fn with_alpn(self, protocol: &str) -> (r: Self)
        ensures
            r.alpn_protocols@.len() == self.alpn_protocols@.len() + 1,
            r.alpn_protocols@.drop_last() == self.alpn_protocols@,
            r.alpn_protocols@.last()@ == protocol@,
            r.cert_path == self.cert_path,
            r.key_path == self.key_path,
            r.ca_path == self.ca_path,
            r.server_name == self.server_name,
            r.allow_self_signed == self.allow_self_signed,
            r.min_version == self.min_version,
    {
        let mut s = self;
        s.alpn_protocols.push(protocol.to_string());
        assert(s.alpn_protocols@.drop_last() =~= self.alpn_protocols@);
        s
    }

    /// A client configuration is valid with a server name, a CA or
    /// self-signed certificates allowed.
    pub fn is_valid_client(&self) -> (r: bool)
        ensures
            r == (self.server_name is Some || self.ca_path is Some || self.allow_self_signed),
    {
        self.server_name.is_some() || self.ca_path.is_some() || self.allow_self_signed
    }

    /// A server configuration is valid with both a certificate and a key.
    pub fn is_valid_server(&self) -> (r: bool)
        ensures
            r == (self.cert_path is Some && self.key_path is Some),
    {
        self.cert_path.is_some() && self.key_path.is_some()
    }
}

impl Default for TlsConfig {
    fn default() -> (r: Self)
        ensures
            r.is_empty_config(),
    {
        TlsConfig {
            cert_path: None,
            key_path: None,
            ca_path: None,
            server_name: None,
            allow_self_signed: false,
            min_version: None,
            alpn_protocols: Vec::new(),
        }
    }
}

/// DTLS (Datagram TLS) configuration for UDP channels.
#[derive(Debug, Clone)]
pub struct DtlsConfig {
    /// Base TLS configuration
    pub tls: TlsConfig,
    /// MTU for DTLS records
    pub mtu: Option<u16>,
    /// Enable replay protection
    pub replay_protection: bool,
    /// Retransmission timeout in milliseconds
    pub retransmit_timeout_ms: Option<u32>,
}

impl DtlsConfig {
    /// Create a new DTLS configuration, with replay protection.
    pub fn new() -> (r: Self)
        ensures
            r.tls.is_empty_config(),
            r.mtu is None,
            r.replay_protection,
            r.retransmit_timeout_ms is None,
    {
        DtlsConfig { tls: TlsConfig::new(), mtu: None, replay_protection: true, retransmit_timeout_ms: None }
    }

    /// Configure from a TLS configuration, with replay protection.
    pub fn from_tls(tls: TlsConfig) -> (r: Self)
        ensures
            r.tls == tls,
            r.mtu is None,
            r.replay_protection,
            r.retransmit_timeout_ms is None,
    {
        DtlsConfig { tls, mtu: None, replay_protection: true, retransmit_timeout_ms: None }
    }

    /// Set the MTU.
    pub fn with_mtu(self, mtu: u16) -> (r: Self)
        ensures
            r == (DtlsConfig { mtu: Some(mtu), ..self }),
    {
        let mut s = self;
        s.mtu = Some(mtu);
        s
    }

    /// Set the retransmission timeout.
    pub fn with_retransmit_timeout(self, timeout_ms: u32) -> (r: Self)
        ensures
            r == (DtlsConfig { retransmit_timeout_ms: Some(timeout_ms), ..self }),
    {
        let mut s = self;
        s.retransmit_timeout_ms = Some(timeout_ms);
        s
    }
}

impl Default for DtlsConfig {
    fn default() -> (r: Self)
        ensures
            r.tls.is_empty_config(),
            r.mtu is None,
            !r.replay_protection,
            r.retransmit_timeout_ms is None,
    {
        DtlsConfig { tls: TlsConfig::default(), mtu: None, replay_protection: false, retransmit_timeout_ms: None }
    }
}

/// Connection state of a TLS session.
#[derive(Debug, Clone, Copy, PartialEq, Eq, Structural, Default)]
pub enum TlsState {
    /// Not connected
    #[default]
    Disconnected,
    /// Handshake in progress
    Handshaking,
    /// Connected and ready
    Connected,
    /// Connection closed gracefully
    Closed,
    /// Connection failed
    Error,
}

/// Result of a TLS handshake.
#[derive(Debug, Clone)]
pub struct HandshakeResult {
    /// Negotiated protocol version
    pub protocol_version: String,
    /// Negotiated cipher suite
    pub cipher_suite: String,
    /// Peer certificate fingerprint (if available)
    pub peer_fingerprint: Option<String>,
    /// Negotiated ALPN protocol
    pub alpn_protocol: Option<String>,
}

} // verus!
