//! ALEC: a compact wire codec for sensor data with a shared, evolving
//! context between emitter and receiver.

use vstd::prelude::*;

pub mod bytes;
pub mod channel;
pub mod clock;
pub mod context;
pub mod decoder;
pub mod encoder;
pub mod error;
pub mod fleet;
pub mod hashing;
pub mod health;
pub mod metrics;
pub mod protocol;
pub mod recovery;
pub mod security;
pub mod sorted_map;
pub mod sync;
pub mod testdata;
pub mod text;
pub mod tls;

pub use error::{AlecError, Result};
pub use decoder::Decoder;
pub use encoder::Encoder;
pub use protocol::{EncodedMessage, EncodingType, MessageHeader, MessageType, Priority};

verus! {

/// Version of this library.
pub const VERSION: &'static str = "0.1.0";

/// Protocol version written into every message header.
pub const PROTOCOL_VERSION: u8 = 1;

/// Maximum payload size in bytes.
pub const MAX_PAYLOAD_SIZE: usize = 65535;

/// Default scale factor for delta encoding (100 = 2 decimal places).
pub const DEFAULT_SCALE_FACTOR: u32 = 100;

} // verus!
