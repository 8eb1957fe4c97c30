//! Preload files: a pre-trained context (dictionary, statistics and
//! prediction model) in a checksummed little-endian layout, and the result
//! of a context-version check.

use vstd::prelude::*;

use super::PredictionModel;
use crate::bytes::{copy_range, get_le16, get_le32, get_le64, le16, le32, le64, lemma_le16_roundtrip, lemma_le32_roundtrip, push_all, push_le16, push_le32, push_le64, read_le16, read_le32, read_le64};
use crate::clock::unix_now_secs;
use crate::context::{Context, PatternView};
use crate::sorted_map::view_pairs;
use vstd::string::StringSliceAdditionalSpecFns;
use crate::error::{AlecError, DecodeError};
use crate::hashing::{crc32fast_digest, crc32fast_hash, utf8_lossy, decode_utf8_lossy};

verus! {

/// Magic bytes of preload files.
pub const PRELOAD_MAGIC: [u8; 4] = [0x41, 0x4C, 0x45, 0x43];

/// Current preload file format version.
pub const PRELOAD_FORMAT_VERSION: u32 = 1;

/// Header size in bytes.
pub const PRELOAD_HEADER_SIZE: usize = 64;

/// Maximum sensor type string length.
pub const MAX_SENSOR_TYPE_LEN: usize = 32;

/// Prediction model type stored in preload files.
#[derive(Debug, Clone, Copy, PartialEq, Eq, Structural, Default)]
pub enum PreloadPredictionType {
    /// No prediction model
    #[default]
    NoPrediction,
    /// Use last observed value
    LastValue,
    /// Linear prediction (a*x + b)
    Linear,
    /// Moving average of last N values
    MovingAverage,
    /// Periodic pattern
    Periodic,
}

impl PreloadPredictionType {
    /// The code of a model type (0 to 4).
    pub open spec fn spec_to_u8(self) -> u8 {
        match self {
            PreloadPredictionType::NoPrediction => 0,
            PreloadPredictionType::LastValue => 1,
            PreloadPredictionType::Linear => 2,
            PreloadPredictionType::MovingAverage => 3,
            PreloadPredictionType::Periodic => 4,
        }
    }

    /// The model type of a code, if any.
    pub open spec fn spec_from_u8(value: u8) -> Option<PreloadPredictionType> {
        if value == 0 {
            Some(PreloadPredictionType::NoPrediction)
        } else if value == 1 {
            Some(PreloadPredictionType::LastValue)
        } else if value == 2 {
            Some(PreloadPredictionType::Linear)
        } else if value == 3 {
            Some(PreloadPredictionType::MovingAverage)
        } else if value == 4 {
            Some(PreloadPredictionType::Periodic)
        } else {
            None
        }
    }

    /// The code of this model type.
    pub fn to_u8(&self) -> (r: u8)
        ensures
            r == self.spec_to_u8(),
    {
        match self {
            PreloadPredictionType::NoPrediction => 0,
            PreloadPredictionType::LastValue => 1,
            PreloadPredictionType::Linear => 2,
            PreloadPredictionType::MovingAverage => 3,
            PreloadPredictionType::Periodic => 4,
        }
    }

    /// Convert from u8.
    pub fn from_u8(value: u8) -> (r: Option<Self>)
        ensures
            r == Self::spec_from_u8(value),
    {
        match value {
            0 => Some(PreloadPredictionType::NoPrediction),
            1 => Some(PreloadPredictionType::LastValue),
            2 => Some(PreloadPredictionType::Linear),
            3 => Some(PreloadPredictionType::MovingAverage),
            4 => Some(PreloadPredictionType::Periodic),
            _ => None,
        }
    }
}

/// Decoding the code of a model type gives it back; exactly the codes below
/// 5 decode.
pub proof fn lemma_prediction_type_code_roundtrip(t: PreloadPredictionType, v: u8)
    ensures
        PreloadPredictionType::spec_from_u8(t.spec_to_u8()) == Some(t),
        PreloadPredictionType::spec_from_u8(v) is Some <==> v < 5,
{
}

/// The stored model type of a context's prediction model.
pub open spec fn stored_prediction_type(model: PredictionModel) -> PreloadPredictionType {
    match model {
        PredictionModel::LastValue => PreloadPredictionType::LastValue,
        PredictionModel::MovingAverage => PreloadPredictionType::MovingAverage,
        PredictionModel::LinearRegression => PreloadPredictionType::Linear,
        PredictionModel::Periodic => PreloadPredictionType::Periodic,
    }
}

/// The context prediction model of a stored model type (no model reads as
/// last value).
pub open spec fn loaded_prediction_model(t: PreloadPredictionType) -> PredictionModel {
    match t {
        PreloadPredictionType::NoPrediction | PreloadPredictionType::LastValue => PredictionModel::LastValue,
        PreloadPredictionType::MovingAverage => PredictionModel::MovingAverage,
        PreloadPredictionType::Linear => PredictionModel::LinearRegression,
        PreloadPredictionType::Periodic => PredictionModel::Periodic,
    }
}

impl From<PredictionModel> for PreloadPredictionType {
    fn from(model: PredictionModel) -> (r: Self) {
        match model {
            PredictionModel::LastValue => PreloadPredictionType::LastValue,
            PredictionModel::MovingAverage => PreloadPredictionType::MovingAverage,
            PredictionModel::LinearRegression => PreloadPredictionType::Linear,
            PredictionModel::Periodic => PreloadPredictionType::Periodic,
        }
    }
}

impl vstd::std_specs::convert::FromSpecImpl<PredictionModel> for PreloadPredictionType {
    open spec fn obeys_from_spec() -> bool {
        true
    }

    open spec fn from_spec(model: PredictionModel) -> PreloadPredictionType {
        stored_prediction_type(model)
    }
}

impl From<PreloadPredictionType> for PredictionModel {
    fn from(ptype: PreloadPredictionType) -> (r: Self) {
        match ptype {
            PreloadPredictionType::NoPrediction | PreloadPredictionType::LastValue => PredictionModel::LastValue,
            PreloadPredictionType::MovingAverage => PredictionModel::MovingAverage,
            PreloadPredictionType::Linear => PredictionModel::LinearRegression,
            PreloadPredictionType::Periodic => PredictionModel::Periodic,
        }
    }
}

impl vstd::std_specs::convert::FromSpecImpl<PreloadPredictionType> for PredictionModel {
    open spec fn obeys_from_spec() -> bool {
        true
    }

    open spec fn from_spec(t: PreloadPredictionType) -> PredictionModel {
        loaded_prediction_model(t)
    }
}

/// Storing a context's prediction model and loading it back gives the same
/// model.
pub proof fn lemma_prediction_model_store_load(model: PredictionModel)
    ensures
        loaded_prediction_model(stored_prediction_type(model)) == model,
{
}

/// Dictionary entry of a preload file.
#[derive(Debug, Clone, PartialEq)]
pub struct PreloadDictEntry {
    /// The byte pattern (1-255 bytes)
    pub pattern: Vec<u8>,
    /// Short code assigned to this pattern
    pub code: u16,
    /// Frequency count from training
    pub frequency: u32,
}

/// The bytes of a dictionary entry: pattern length (one byte), pattern,
/// code (little-endian u16), frequency (little-endian u32).
pub open spec fn dict_entry_bytes(pattern: Seq<u8>, code: u16, frequency: u32) -> Seq<u8> {
    seq![(pattern.len() % 256) as u8] + pattern + le16(code) + le32(frequency)
}

/// What reading a dictionary entry at the start of `data` gives: the
/// pattern, code, frequency and bytes consumed, or the error.
pub open spec fn spec_parse_dict_entry(data: Seq<u8>) -> core::result::Result<(Seq<u8>, u16, u32, usize), AlecError> {
    if data.len() == 0 {
        Err(AlecError::Decode(DecodeError::BufferTooShort { needed: 1, available: 0 }))
    } else {
        let pl = data[0] as int;
        let total = 7 + pl;
        if data.len() < total {
            Err(AlecError::Decode(DecodeError::BufferTooShort { needed: total as usize, available: data.len() as usize }))
        } else {
            Ok((data.subrange(1, 1 + pl), read_le16(data, 1 + pl), read_le32(data, 3 + pl), total as usize))
        }
    }
}

impl PreloadDictEntry {
    /// Serialize to bytes.
    pub fn to_bytes(&self) -> (r: Vec<u8>)
        ensures
            r@ == dict_entry_bytes(self.pattern@, self.code, self.frequency),
    {
        let mut bytes: Vec<u8> = Vec::new();
        bytes.push((self.pattern.len() % 256) as u8);
        push_all(&mut bytes, self.pattern.as_slice());
        push_le16(&mut bytes, self.code);
        push_le32(&mut bytes, self.frequency);
        bytes
    }

    /// Deserialize from bytes; returns the entry and the bytes consumed.
    pub fn from_bytes(data: &[u8]) -> (r: core::result::Result<(Self, usize), AlecError>)
        ensures
            match r {
                Ok((e, n)) => spec_parse_dict_entry(data@) == Ok::<(Seq<u8>, u16, u32, usize), AlecError>(
                    (e.pattern@, e.code, e.frequency, n),
                ),
                Err(err) => spec_parse_dict_entry(data@) == Err::<(Seq<u8>, u16, u32, usize), AlecError>(err),
            },
    {
        if data.len() == 0 {
            return Err(AlecError::Decode(DecodeError::BufferTooShort { needed: 1, available: 0 }));
        }
        let pattern_len = data[0] as usize;
        let total_len = 1 + pattern_len + 2 + 4;
        if data.len() < total_len {
            return Err(AlecError::Decode(DecodeError::BufferTooShort { needed: total_len, available: data.len() }));
        }
        let pattern = copy_range(data, 1, 1 + pattern_len);
        let code = get_le16(data, 1 + pattern_len);
        let frequency = get_le32(data, 3 + pattern_len);
        Ok((PreloadDictEntry { pattern, code, frequency }, total_len))
    }
}

/// Reading the bytes written for a dictionary entry whose pattern is
/// shorter than 256 bytes gives the entry back, whatever follows it.
pub proof fn lemma_dict_entry_roundtrip(pattern: Seq<u8>, code: u16, frequency: u32, rest: Seq<u8>)
    requires
        pattern.len() < 256,
    ensures
        spec_parse_dict_entry(dict_entry_bytes(pattern, code, frequency) + rest) == Ok::<
            (Seq<u8>, u16, u32, usize),
            AlecError,
        >((pattern, code, frequency, (7 + pattern.len()) as usize)),
{
    let s = dict_entry_bytes(pattern, code, frequency) + rest;
    let pl = pattern.len() as int;
    lemma_le16_roundtrip(code);
    lemma_le32_roundtrip(frequency);
    assert(s[0] == pattern.len() as u8);
    assert(s.subrange(1, 1 + pl) =~= pattern);
    assert(s[1 + pl] == le16(code)[0]);
    assert(s[2 + pl] == le16(code)[1]);
    assert(s[3 + pl] == le32(frequency)[0]);
    assert(s[4 + pl] == le32(frequency)[1]);
    assert(s[5 + pl] == le32(frequency)[2]);
    assert(s[6 + pl] == le32(frequency)[3]);
}

/// Result of a context-version check.
#[derive(Debug, Clone, Copy, PartialEq, Eq, Structural)]
pub enum VersionCheckResult {
    /// Versions match, proceed normally
    Match,
    /// Version mismatch detected
    Mismatch {
        /// Expected version (decoder's context version)
        expected: u32,
        /// Actual version from message
        actual: u32,
    },
}

impl VersionCheckResult {
    /// Compare the local context version with the version a message
    /// carries.
    pub fn check(local_version: u32, message_version: u32) -> (r: Self)
        ensures
            r == (if local_version == message_version {
                VersionCheckResult::Match
            } else {
                VersionCheckResult::Mismatch { expected: local_version, actual: message_version }
            }),
    {
        if local_version == message_version {
            VersionCheckResult::Match
        } else {
            VersionCheckResult::Mismatch { expected: local_version, actual: message_version }
        }
    }

    /// Check if versions match.
    pub fn is_match(&self) -> (r: bool)
        ensures
            r == (*self is Match),
    {
        match self {
            VersionCheckResult::Match => true,
            _ => false,
        }
    }
}

/// Bit pattern of the largest finite `f64`.
pub const F64_MAX_BITS: u64 = 0x7FEF_FFFF_FFFF_FFFF;

/// Bit pattern of the lowest finite `f64`.
pub const F64_MIN_BITS: u64 = 0xFFEF_FFFF_FFFF_FFFF;

/// Source statistics of a preload file, by value.
#[verifier::ext_equal]
pub struct PreloadStatisticsView {
    pub mean_bits: u64,
    pub variance_bits: u64,
    pub min_observed_bits: u64,
    pub max_observed_bits: u64,
    pub min_expected_bits: u64,
    pub max_expected_bits: u64,
    pub recent_values_bits: Seq<u64>,
}

/// Source statistics stored in preload files; each `f64` is held as its bit
/// pattern.
#[derive(Debug, Clone, PartialEq)]
pub struct PreloadStatistics {
    /// Running mean of values
    pub mean_bits: u64,
    /// Variance
    pub variance_bits: u64,
    /// Minimum value observed in training
    pub min_observed_bits: u64,
    /// Maximum value observed in training
    pub max_observed_bits: u64,
    /// Expected minimum for anomaly detection
    pub min_expected_bits: u64,
    /// Expected maximum for anomaly detection
    pub max_expected_bits: u64,
    /// Recent values
    pub recent_values_bits: Vec<u64>,
}

impl View for PreloadStatistics {
    type V = PreloadStatisticsView;

    open spec fn view(&self) -> PreloadStatisticsView {
        PreloadStatisticsView {
            mean_bits: self.mean_bits,
            variance_bits: self.variance_bits,
            min_observed_bits: self.min_observed_bits,
            max_observed_bits: self.max_observed_bits,
            min_expected_bits: self.min_expected_bits,
            max_expected_bits: self.max_expected_bits,
            recent_values_bits: self.recent_values_bits@,
        }
    }
}

impl Default for PreloadStatistics {
    fn default() -> (r: Self)
        ensures
            r@ == (PreloadStatisticsView {
                mean_bits: 0,
                variance_bits: 0,
                min_observed_bits: F64_MAX_BITS,
                max_observed_bits: F64_MIN_BITS,
                min_expected_bits: F64_MIN_BITS,
                max_expected_bits: F64_MAX_BITS,
                recent_values_bits: Seq::empty(),
            }),
    {
        PreloadStatistics {
            mean_bits: 0,
            variance_bits: 0,
            min_observed_bits: F64_MAX_BITS,
            max_observed_bits: F64_MIN_BITS,
            min_expected_bits: F64_MIN_BITS,
            max_expected_bits: F64_MAX_BITS,
            recent_values_bits: Vec::new(),
        }
    }
}

/// The little-endian bytes of each value of `v`, in order.
pub open spec fn le64_list(v: Seq<u64>) -> Seq<u8>
    decreases v.len(),
{
    if v.len() == 0 {
        Seq::empty()
    } else {
        le64_list(v.drop_last()) + le64(v.last())
    }
}

/// Appends the little-endian bytes of each value of `v`.
fn push_le64_list(out: &mut Vec<u8>, v: &Vec<u64>)
    ensures
        final(out)@ == old(out)@ + le64_list(v@),
{
    let ghost start = out@;
    let mut i: usize = 0;
    while i < v.len()
        invariant
            i <= v@.len(),
            out@ == start + le64_list(v@.take(i as int)),
        decreases v@.len() - i,
    {
        push_le64(out, v[i]);
        proof {
            assert(v@.take(i + 1).drop_last() =~= v@.take(i as int));
        }
        i = i + 1;
    }
    assert(v@.take(i as int) =~= v@);
}

/// The values of `n` little-endian `u64` at `off` of `d`.
pub open spec fn read_le64_list(d: Seq<u8>, off: int, n: nat) -> Seq<u64> {
    Seq::new(n, |i: int| read_le64(d, off + 8 * i))
}

/// Reads `n` little-endian `u64` at `off`, which fit in `d`.
fn get_le64_list(d: &[u8], off: usize, n: usize) -> (r: Vec<u64>)
    requires
        off + 8 * n <= d@.len(),
    ensures
        r@ == read_le64_list(d@, off as int, n as nat),
{
    let _len = d.len();
    let mut r: Vec<u64> = Vec::new();
    let mut i: usize = 0;
    while i < n
        invariant
            i <= n,
            d@.len() <= usize::MAX,
            off + 8 * n <= d@.len(),
            r@ == read_le64_list(d@, off as int, i as nat),
        decreases n - i,
    {
        r.push(get_le64(d, off + 8 * i));
        i = i + 1;
        assert(r@ =~= read_le64_list(d@, off as int, i as nat));
    }
    r
}

/// The bytes of the statistics section: the six values, the count of
/// recent values (one byte, modulo 256) and the recent values.
pub open spec fn statistics_bytes(s: PreloadStatisticsView) -> Seq<u8> {
    le64(s.mean_bits) + le64(s.variance_bits) + le64(s.min_observed_bits) + le64(s.max_observed_bits) + le64(
        s.min_expected_bits,
    ) + le64(s.max_expected_bits) + seq![(s.recent_values_bits.len() % 256) as u8] + le64_list(
        s.recent_values_bits,
    )
}

/// Reading a statistics section at the start of `d`: the statistics and
/// the bytes consumed, or the error.
pub open spec fn parse_statistics(d: Seq<u8>) -> Result<(PreloadStatisticsView, usize), AlecError> {
    if d.len() < 49 {
        Err(AlecError::Decode(DecodeError::BufferTooShort { needed: 49, available: d.len() as usize }))
    } else if d.len() < 49 + 8 * d[48] {
        Err(
            AlecError::Decode(
                DecodeError::BufferTooShort { needed: (49 + 8 * d[48]) as usize, available: d.len() as usize },
            ),
        )
    } else {
        Ok(
            (
                PreloadStatisticsView {
                    mean_bits: read_le64(d, 0),
                    variance_bits: read_le64(d, 8),
                    min_observed_bits: read_le64(d, 16),
                    max_observed_bits: read_le64(d, 24),
                    min_expected_bits: read_le64(d, 32),
                    max_expected_bits: read_le64(d, 40),
                    recent_values_bits: read_le64_list(d, 49, d[48] as nat),
                },
                (49 + 8 * d[48]) as usize,
            ),
        )
    }
}

impl PreloadStatistics {
    /// Serialize to bytes.
    pub fn to_bytes(&self) -> (r: Vec<u8>)
        ensures
            r@ == statistics_bytes(self@),
    {
        let mut bytes: Vec<u8> = Vec::new();
        push_le64(&mut bytes, self.mean_bits);
        push_le64(&mut bytes, self.variance_bits);
        push_le64(&mut bytes, self.min_observed_bits);
        push_le64(&mut bytes, self.max_observed_bits);
        push_le64(&mut bytes, self.min_expected_bits);
        push_le64(&mut bytes, self.max_expected_bits);
        bytes.push((self.recent_values_bits.len() % 256) as u8);
        push_le64_list(&mut bytes, &self.recent_values_bits);
        assert(bytes@ =~= statistics_bytes(self@));
        bytes
    }

    /// Deserialize from bytes; returns the statistics and the bytes consumed.
    pub fn from_bytes(data: &[u8]) -> (r: Result<(Self, usize), AlecError>)
        ensures
            match r {
                Ok((s, n)) => parse_statistics(data@) == Ok::<(PreloadStatisticsView, usize), AlecError>((s@, n)),
                Err(e) => parse_statistics(data@) == Err::<(PreloadStatisticsView, usize), AlecError>(e),
            },
    {
        if data.len() < 49 {
            return Err(AlecError::Decode(DecodeError::BufferTooShort { needed: 49, available: data.len() }));
        }
        let history_len = data[48] as usize;
        let total_len = 49 + history_len * 8;
        if data.len() < total_len {
            return Err(AlecError::Decode(DecodeError::BufferTooShort { needed: total_len, available: data.len() }));
        }
        let recent_values_bits = get_le64_list(data, 49, history_len);
        Ok(
            (
                PreloadStatistics {
                    mean_bits: get_le64(data, 0),
                    variance_bits: get_le64(data, 8),
                    min_observed_bits: get_le64(data, 16),
                    max_observed_bits: get_le64(data, 24),
                    min_expected_bits: get_le64(data, 32),
                    max_expected_bits: get_le64(data, 40),
                    recent_values_bits,
                },
                total_len,
            ),
        )
    }
}

/// Prediction model parameters of a preload file, by value.
#[verifier::ext_equal]
pub struct PreloadPredictionModelView {
    pub model_type: PreloadPredictionType,
    pub coefficients_bits: Seq<u64>,
    pub period_samples: u32,
}

/// Prediction model parameters stored in preload files; each coefficient is
/// held as the bit pattern of its `f64`.
#[derive(Debug, Clone, PartialEq)]
pub struct PreloadPredictionModel {
    /// Type of prediction model
    pub model_type: PreloadPredictionType,
    /// Coefficients for the model
    pub coefficients_bits: Vec<u64>,
    /// Period length in samples (for periodic model)
    pub period_samples: u32,
}

impl View for PreloadPredictionModel {
    type V = PreloadPredictionModelView;

    open spec fn view(&self) -> PreloadPredictionModelView {
        PreloadPredictionModelView {
            model_type: self.model_type,
            coefficients_bits: self.coefficients_bits@,
            period_samples: self.period_samples,
        }
    }
}

impl Default for PreloadPredictionModel {
    fn default() -> (r: Self)
        ensures
            r@ == (PreloadPredictionModelView {
                model_type: PreloadPredictionType::LastValue,
                coefficients_bits: Seq::empty(),
                period_samples: 0,
            }),
    {
        PreloadPredictionModel {
            model_type: PreloadPredictionType::LastValue,
            coefficients_bits: Vec::new(),
            period_samples: 0,
        }
    }
}

/// The bytes of the prediction model section: type code, coefficient count
/// (one byte, modulo 256), coefficients, period.
pub open spec fn model_bytes(m: PreloadPredictionModelView) -> Seq<u8> {
    seq![m.model_type.spec_to_u8(), (m.coefficients_bits.len() % 256) as u8] + le64_list(m.coefficients_bits) + le32(
        m.period_samples,
    )
}

/// Reading a prediction model section at the start of `d`: an unknown type
/// code reads as no model.
pub open spec fn parse_model(d: Seq<u8>) -> Result<(PreloadPredictionModelView, usize), AlecError> {
    if d.len() < 6 {
        Err(AlecError::Decode(DecodeError::BufferTooShort { needed: 6, available: d.len() as usize }))
    } else if d.len() < 6 + 8 * d[1] {
        Err(
            AlecError::Decode(
                DecodeError::BufferTooShort { needed: (6 + 8 * d[1]) as usize, available: d.len() as usize },
            ),
        )
    } else {
        Ok(
            (
                PreloadPredictionModelView {
                    model_type: match PreloadPredictionType::spec_from_u8(d[0]) {
                        Some(t) => t,
                        None => PreloadPredictionType::NoPrediction,
                    },
                    coefficients_bits: read_le64_list(d, 2, d[1] as nat),
                    period_samples: read_le32(d, 2 + 8 * d[1]),
                },
                (6 + 8 * d[1]) as usize,
            ),
        )
    }
}

impl PreloadPredictionModel {
    /// Serialize to bytes.
    pub fn to_bytes(&self) -> (r: Vec<u8>)
        ensures
            r@ == model_bytes(self@),
    {
        let mut bytes: Vec<u8> = Vec::new();
        bytes.push(self.model_type.to_u8());
        bytes.push((self.coefficients_bits.len() % 256) as u8);
        push_le64_list(&mut bytes, &self.coefficients_bits);
        push_le32(&mut bytes, self.period_samples);
        assert(bytes@ =~= model_bytes(self@));
        bytes
    }

    /// Deserialize from bytes; returns the model and the bytes consumed.
    pub fn from_bytes(data: &[u8]) -> (r: Result<(Self, usize), AlecError>)
        ensures
            match r {
                Ok((m, n)) => parse_model(data@) == Ok::<(PreloadPredictionModelView, usize), AlecError>((m@, n)),
                Err(e) => parse_model(data@) == Err::<(PreloadPredictionModelView, usize), AlecError>(e),
            },
    {
        if data.len() < 6 {
            return Err(AlecError::Decode(DecodeError::BufferTooShort { needed: 6, available: data.len() }));
        }
        let model_type = match PreloadPredictionType::from_u8(data[0]) {
            Some(t) => t,
            None => PreloadPredictionType::NoPrediction,
        };
        let coef_count = data[1] as usize;
        let total_len = 2 + coef_count * 8 + 4;
        if data.len() < total_len {
            return Err(AlecError::Decode(DecodeError::BufferTooShort { needed: total_len, available: data.len() }));
        }
        let coefficients_bits = get_le64_list(data, 2, coef_count);
        let period_samples = get_le32(data, 2 + coef_count * 8);
        Ok((PreloadPredictionModel { model_type, coefficients_bits, period_samples }, total_len))
    }
}

} // verus!
