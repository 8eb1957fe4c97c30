//! The xxHash digests of the library: the 32-bit one that frames carry as
//! an integrity check, and the 64-bit one that identifies patterns and
//! whole dictionaries.

use vstd::prelude::*;
use vstd::utf8::{decode_utf8, valid_utf8};

verus! {

/// The 32-bit xxHash digest of `data` under `seed`, as the xxhash-rust crate
/// computes it. A deterministic function of its two arguments.
pub uninterp spec fn xxh32_digest(data: Seq<u8>, seed: u32) -> u32;

/// Calls `xxhash_rust::xxh32::xxh32`, which returns the digest of the bytes
/// under the seed; the contract names that result and claims nothing more.
#[verifier::external_body]
pub(crate) fn xxh32(data: &[u8], seed: u32) -> (r: u32)
    ensures
        r == xxh32_digest(data@, seed),
{
    xxhash_rust::xxh32::xxh32(data, seed)
}

/// The 64-bit xxHash digest of `data` under `seed`, as the xxhash-rust crate
/// computes it. A deterministic function of its two arguments.
pub uninterp spec fn xxh64_digest(data: Seq<u8>, seed: u64) -> u64;

/// Calls `xxhash_rust::xxh64::xxh64`, which returns the digest of the bytes
/// under the seed; the contract names that result and claims nothing more.
#[verifier::external_body]
pub(crate) fn xxh64(data: &[u8], seed: u64) -> (r: u64)
    ensures
        r == xxh64_digest(data@, seed),
{
    xxhash_rust::xxh64::xxh64(data, seed)
}

/// The CRC-32 with the ISO-HDLC parameters (the one of zlib and Ethernet)
/// of `data`, as the crc crate computes it. A deterministic function of the
/// bytes.
pub uninterp spec fn crc32_iso_hdlc(data: Seq<u8>) -> u32;

/// Calls `crc::Crc::<u32>::checksum` with the `CRC_32_ISO_HDLC` algorithm,
/// which returns the checksum of the bytes; the contract names that result
/// and claims nothing more.
#[verifier::external_body]
pub(crate) fn crc32_iso_hdlc_checksum(data: &[u8]) -> (r: u32)
    ensures
        r == crc32_iso_hdlc(data@),
{
    crc::Crc::<u32>::new(&crc::CRC_32_ISO_HDLC).checksum(data)
}

/// The CRC-32 of `data` as the crc32fast crate computes it.
pub uninterp spec fn crc32fast_digest(data: Seq<u8>) -> u32;

/// Calls `crc32fast::hash`, which returns the CRC-32 of the bytes; the
/// contract names that result and claims nothing more.
#[verifier::external_body]
pub(crate) fn crc32fast_hash(data: &[u8]) -> (r: u32)
    ensures
        r == crc32fast_digest(data@),
{
    crc32fast::hash(data)
}

/// The text that `String::from_utf8_lossy` makes of `bytes`: their UTF-8
/// decoding, each invalid sequence replaced by U+FFFD. A deterministic
/// function of the bytes.
pub uninterp spec fn utf8_lossy(bytes: Seq<u8>) -> Seq<char>;

/// Calls `String::from_utf8_lossy` and takes the text it returns as an
/// owned string; the contract names that text and, as the documentation
/// says, that bytes which are valid UTF-8 come back as the text they encode.
#[verifier::external_body]
pub(crate) fn decode_utf8_lossy(bytes: &[u8]) -> (r: String)
    ensures
        r@ == utf8_lossy(bytes@),
        valid_utf8(bytes@) ==> r@ == decode_utf8(bytes@),
{
    String::from_utf8_lossy(bytes).into_owned()
}

} // verus!
