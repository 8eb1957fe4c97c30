//! The preload file: a pre-trained context (header, dictionary, statistics
//! and prediction model) in a little-endian layout whose header carries a
//! CRC-32 of everything else.

use vstd::prelude::*;
use vstd::slice::slice_subrange;
use vstd::string::StringSliceAdditionalSpecFns;
use vstd::string::StrSliceExecFns;
use vstd::utf8::{decode_utf8, encode_utf8, valid_utf8};

use super::preload::{
    dict_entry_bytes, le64_list, lemma_dict_entry_roundtrip, read_le64_list, model_bytes, parse_model, parse_statistics, spec_parse_dict_entry, statistics_bytes,
    stored_prediction_type, PreloadDictEntry, PreloadPredictionModel, PreloadPredictionModelView,
    PreloadPredictionType, PreloadStatistics, PreloadStatisticsView, F64_MAX_BITS, F64_MIN_BITS,
    PRELOAD_FORMAT_VERSION,
};
use super::{default_context_config, empty_view, pattern_key, Context, ContextView, PatternView, PredictionModel};
use crate::bytes::{copy_range, get_le16, get_le32, get_le64, le16, le32, le64, lemma_le16_roundtrip, lemma_le32_roundtrip, lemma_le64_roundtrip, push_all, push_le16, push_le32, push_le64, read_le16, read_le32, read_le64};
use crate::clock::unix_now_secs;
use crate::sorted_map::{filed, lemma_filed_sorted, lemma_key_index, sorted_keys, view_pairs};
use crate::error::{AlecError, DecodeError};
use crate::hashing::{crc32fast_digest, crc32fast_hash, decode_utf8_lossy, utf8_lossy};

verus! {

broadcast use vstd::string::group_string_axioms;

/// A dictionary entry by value: pattern, code, frequency.
pub open spec fn entry_view(e: PreloadDictEntry) -> (Seq<u8>, u16, u32) {
    (e.pattern@, e.code, e.frequency)
}

/// A preload file, by value.
#[verifier::ext_equal]
pub struct PreloadFileView {
    pub format_version: u32,
    pub context_version: u32,
    pub sensor_type: Seq<char>,
    pub created_timestamp: u64,
    pub training_samples: u64,
    pub dictionary: Seq<(Seq<u8>, u16, u32)>,
    pub statistics: PreloadStatisticsView,
    pub prediction: PreloadPredictionModelView,
}

/// ALEC preload context file: a pre-trained context that can be loaded at
/// startup to compress well from the first byte.
#[derive(Debug, Clone, PartialEq)]
pub struct PreloadFile {
    /// File format version
    pub format_version: u32,
    /// Context version for sync checking
    pub context_version: u32,
    /// Sensor type identifier
    pub sensor_type: String,
    /// Unix timestamp when the preload was created
    pub created_timestamp: u64,
    /// Number of samples used to train this context
    pub training_samples: u64,
    /// Dictionary entries
    pub dictionary: Vec<PreloadDictEntry>,
    /// Source statistics
    pub statistics: PreloadStatistics,
    /// Prediction model
    pub prediction: PreloadPredictionModel,
}

impl View for PreloadFile {
    type V = PreloadFileView;

    open spec fn view(&self) -> PreloadFileView {
        PreloadFileView {
            format_version: self.format_version,
            context_version: self.context_version,
            sensor_type: self.sensor_type@,
            created_timestamp: self.created_timestamp,
            training_samples: self.training_samples,
            dictionary: self.dictionary@.map_values(|e: PreloadDictEntry| entry_view(e)),
            statistics: self.statistics@,
            prediction: self.prediction@,
        }
    }
}

/// The magic bytes "ALEC".
pub open spec fn preload_magic() -> Seq<u8> {
    seq![0x41u8, 0x4Cu8, 0x45u8, 0x43u8]
}

/// The stored length of a sensor type's bytes: at most 32.
pub open spec fn sensor_len(sb: Seq<u8>) -> int {
    if sb.len() < 32 {
        sb.len() as int
    } else {
        32
    }
}

/// The 32-byte sensor field: the first bytes of the sensor type, then
/// zeros.
pub open spec fn sensor_field(sb: Seq<u8>) -> Seq<u8> {
    sb.take(sensor_len(sb)) + Seq::new((32 - sensor_len(sb)) as nat, |i: int| 0u8)
}

/// The header up to the checksum (62 bytes).
#[verifier::opaque]
pub open spec fn header_bytes(f: PreloadFileView) -> Seq<u8> {
    let sb = encode_utf8(f.sensor_type);
    preload_magic() + le32(f.format_version) + le32(f.context_version) + le16(sensor_len(sb) as u16) + sensor_field(
        sb,
    ) + le64(f.created_timestamp) + le64(f.training_samples)
}

/// The bytes of the dictionary entries, one after the other.
pub open spec fn dict_bytes(s: Seq<(Seq<u8>, u16, u32)>) -> Seq<u8>
    decreases s.len(),
{
    if s.len() == 0 {
        Seq::empty()
    } else {
        dict_bytes(s.drop_last()) + dict_entry_bytes(s.last().0, s.last().1, s.last().2)
    }
}

/// The sections after the header: entry count (modulo 2^32), entries,
/// statistics, prediction model.
#[verifier::opaque]
pub open spec fn sections_bytes(f: PreloadFileView) -> Seq<u8> {
    le32((f.dictionary.len() % 0x1_0000_0000) as u32) + dict_bytes(f.dictionary) + statistics_bytes(f.statistics)
        + model_bytes(f.prediction)
}

/// The whole file: header, CRC-32 of header and sections, sections.
pub open spec fn preload_file_bytes(f: PreloadFileView) -> Seq<u8> {
    header_bytes(f) + le32(crc32fast_digest(header_bytes(f) + sections_bytes(f))) + sections_bytes(f)
}

/// `s` without its trailing NUL characters.
pub open spec fn trim_nul(s: Seq<char>) -> Seq<char>
    decreases s.len(),
{
    if s.len() > 0 && s.last() == '\0' {
        trim_nul(s.drop_last())
    } else {
        s
    }
}

/// Reading `n` dictionary entries at `off` of `d`: the entries and the
/// offset after them, or the first error.
pub open spec fn read_dict(d: Seq<u8>, off: int, n: nat) -> Result<(Seq<(Seq<u8>, u16, u32)>, int), AlecError>
    decreases n,
{
    if n == 0 {
        Ok((Seq::empty(), off))
    } else {
        match spec_parse_dict_entry(d.subrange(off, d.len() as int)) {
            Err(e) => Err(e),
            Ok((p, c, f, k)) => match read_dict(d, off + k, (n - 1) as nat) {
                Err(e) => Err(e),
                Ok((s, o)) => Ok((seq![(p, c, f)] + s, o)),
            },
        }
    }
}

/// `r` with the entries `done` put before its entries.
pub open spec fn after_entries(
    done: Seq<(Seq<u8>, u16, u32)>,
    r: Result<(Seq<(Seq<u8>, u16, u32)>, int), AlecError>,
) -> Result<(Seq<(Seq<u8>, u16, u32)>, int), AlecError> {
    match r {
        Ok((s, o)) => Ok((done + s, o)),
        Err(e) => Err(e),
    }
}

/// Why reading a preload file fails.
pub enum PreloadFault {
    /// The first four bytes are not "ALEC"
    BadMagic,
    /// Reading fails with this error
    Failed(AlecError),
}

/// The text of bytes read as UTF-8, each invalid sequence replaced.
pub open spec fn lossy_text(b: Seq<u8>) -> Seq<char> {
    if valid_utf8(b) {
        decode_utf8(b)
    } else {
        utf8_lossy(b)
    }
}

/// The end of the sensor field that the stored sensor length selects.
pub open spec fn sensor_end(d: Seq<u8>) -> int {
    if read_le16(d, 12) < 32 {
        14 + read_le16(d, 12)
    } else {
        46
    }
}

/// The CRC-32 that a file's header should carry: the one of all its bytes
/// but the checksum field.
pub open spec fn computed_checksum(d: Seq<u8>) -> u32 {
    crc32fast_digest(d.subrange(0, 62) + d.subrange(66, d.len() as int))
}

/// The rest of reading a preload file from `d`, once its entries are read
/// (or failed) as `r`: statistics and prediction model after them.
pub open spec fn preload_sections(
    d: Seq<u8>,
    r: Result<(Seq<(Seq<u8>, u16, u32)>, int), AlecError>,
) -> Result<PreloadFileView, PreloadFault> {
    match r {
        Err(e) => Err(PreloadFault::Failed(e)),
        Ok((entries, off)) => match parse_statistics(d.subrange(off, d.len() as int)) {
            Err(e) => Err(PreloadFault::Failed(e)),
            Ok((statistics, k)) => match parse_model(d.subrange(off + k, d.len() as int)) {
                Err(e) => Err(PreloadFault::Failed(e)),
                Ok((prediction, _)) => Ok(
                    PreloadFileView {
                        format_version: read_le32(d, 4),
                        context_version: read_le32(d, 8),
                        sensor_type: trim_nul(lossy_text(d.subrange(14, sensor_end(d)))),
                        created_timestamp: read_le64(d, 46),
                        training_samples: read_le64(d, 54),
                        dictionary: entries,
                        statistics,
                        prediction,
                    },
                ),
            },
        },
    }
}

/// Reading a preload file from `d`.
pub open spec fn parse_preload_file(d: Seq<u8>) -> Result<PreloadFileView, PreloadFault> {
    if d.len() < 66 {
        Err(PreloadFault::Failed(AlecError::Decode(DecodeError::BufferTooShort { needed: 66, available: d.len() as usize })))
    } else if d.subrange(0, 4) != preload_magic() {
        Err(PreloadFault::BadMagic)
    } else if read_le32(d, 62) != computed_checksum(d) {
        Err(
            PreloadFault::Failed(
                AlecError::Decode(DecodeError::InvalidChecksum { expected: read_le32(d, 62), actual: computed_checksum(d) }),
            ),
        )
    } else if d.len() < 70 {
        Err(PreloadFault::Failed(AlecError::Decode(DecodeError::BufferTooShort { needed: 70, available: d.len() as usize })))
    } else {
        preload_sections(d, read_dict(d, 70, read_le32(d, 66) as nat))
    }
}

/// Whether `r` is what reading a preload file reports for the outcome `p`.
pub open spec fn preload_result(p: Result<PreloadFileView, PreloadFault>, r: Result<PreloadFile, AlecError>) -> bool {
    match p {
        Ok(v) => r matches Ok(f) && f@ == v,
        Err(PreloadFault::BadMagic) => r matches Err(AlecError::Decode(DecodeError::MalformedMessage { offset, reason }))
            && offset == 0 && reason@ == "Invalid magic bytes"@,
        Err(PreloadFault::Failed(e)) => r == Err::<PreloadFile, AlecError>(e),
    }
}

/// The dictionary that a context with patterns `s` (in ascending code
/// order) stores: the patterns whose code fits in 16 bits, with their
/// frequency taken modulo 2^32.
pub open spec fn preload_dictionary(s: Seq<(u32, PatternView)>) -> Seq<(Seq<u8>, u16, u32)>
    decreases s.len(),
{
    if s.len() == 0 {
        Seq::empty()
    } else if s.last().0 <= 0xFFFF {
        preload_dictionary(s.drop_last()).push((s.last().1.data, s.last().0 as u16, s.last().1.frequency as u32))
    } else {
        preload_dictionary(s.drop_last())
    }
}

/// The statistics a preload file made from a context carries.
pub open spec fn default_statistics() -> PreloadStatisticsView {
    PreloadStatisticsView {
        mean_bits: 0,
        variance_bits: 0,
        min_observed_bits: F64_MAX_BITS,
        max_observed_bits: F64_MIN_BITS,
        min_expected_bits: F64_MIN_BITS,
        max_expected_bits: F64_MAX_BITS,
        recent_values_bits: Seq::empty(),
    }
}

/// A pattern as loading a preload entry creates it: never used, made at
/// time 0, with the stored frequency.
pub open spec fn preloaded_pattern(e: (Seq<u8>, u16, u32)) -> PatternView {
    PatternView { data: e.0, value_bits: None, frequency: e.2 as u64, last_used: 0, created_at: 0 }
}

/// The dictionary after storing the entries of `e` in order.
pub open spec fn preloaded_patterns(e: Seq<(Seq<u8>, u16, u32)>) -> Map<u32, PatternView>
    decreases e.len(),
{
    if e.len() == 0 {
        Map::empty()
    } else {
        preloaded_patterns(e.drop_last()).insert(e.last().1 as u32, preloaded_pattern(e.last()))
    }
}

/// The index after filing the entries of `e` in order.
pub open spec fn preloaded_index(e: Seq<(Seq<u8>, u16, u32)>) -> Map<u64, u32>
    decreases e.len(),
{
    if e.len() == 0 {
        Map::empty()
    } else {
        preloaded_index(e.drop_last()).insert(pattern_key(e.last().0), e.last().1 as u32)
    }
}

/// The next code after the entries of `e`: one past the largest.
pub open spec fn preloaded_next_code(e: Seq<(Seq<u8>, u16, u32)>) -> u32
    decreases e.len(),
{
    if e.len() == 0 {
        0
    } else if e.last().1 >= preloaded_next_code(e.drop_last()) {
        (e.last().1 + 1) as u32
    } else {
        preloaded_next_code(e.drop_last())
    }
}

/// The context that a preload file initializes: a fresh context with the
/// file's version and dictionary.
pub open spec fn preloaded_view(f: PreloadFileView) -> ContextView {
    ContextView {
        version: f.context_version,
        patterns: preloaded_patterns(f.dictionary),
        index: preloaded_index(f.dictionary),
        next_code: preloaded_next_code(f.dictionary),
        ..empty_view(default_context_config())
    }
}

/// The preload file made at `created_timestamp` of a context `c` whose
/// patterns, in ascending code order, are `patterns`.
pub open spec fn context_preload(
    c: ContextView,
    patterns: Seq<(u32, PatternView)>,
    sensor_type: Seq<char>,
    created_timestamp: u64,
) -> PreloadFileView {
    PreloadFileView {
        format_version: PRELOAD_FORMAT_VERSION,
        context_version: c.version,
        sensor_type,
        created_timestamp,
        training_samples: c.observation_count,
        dictionary: preload_dictionary(patterns),
        statistics: default_statistics(),
        prediction: PreloadPredictionModelView {
            model_type: stored_prediction_type(PredictionModel::LastValue),
            coefficients_bits: Seq::empty(),
            period_samples: 0,
        },
    }
}

/// A pattern as a preload file keeps it: its bytes and frequency, nothing
/// of its use.
pub open spec fn preload_kept(p: PatternView) -> PatternView {
    PatternView { data: p.data, value_bits: None, frequency: p.frequency, last_used: 0, created_at: 0 }
}

/// `s` without its trailing NUL characters, as a new string.
fn trim_trailing_nul(s: &str) -> (r: String)
    ensures
        r@ == trim_nul(s@),
{
    let n = s.unicode_len();
    let mut k: usize = n;
    assert(s@.take(k as int) =~= s@);
    while k > 0
        invariant
            k <= s@.len(),
            trim_nul(s@) == trim_nul(s@.take(k as int)),
        ensures
            k <= s@.len(),
            trim_nul(s@) == trim_nul(s@.take(k as int)),
            k == 0 || s@[k - 1] != '\0',
        decreases k,
    {
        if s.get_char(k - 1) != '\0' {
            break;
        }
        proof {
            assert(s@.take(k as int).drop_last() =~= s@.take(k - 1));
        }
        k = k - 1;
    }
    proof {
        if k > 0 {
            assert(s@.take(k as int).last() == s@[k - 1]);
        }
    }
    let t = s.substring_char(0, k);
    assert(t@ =~= s@.take(k as int));
    t.to_owned()
}

impl PreloadFile {
    /// A preload file of `ctx` under `sensor_type`, made at time
    /// `created_timestamp`.
    pub fn from_context_at(ctx: &Context, sensor_type: &str, created_timestamp: u64) -> (r: Self)
        ensures
            r@ == context_preload(ctx@, ctx.pattern_seq(), sensor_type@, created_timestamp),
    {
        let patterns = ctx.patterns_iter();
        let mut dictionary: Vec<PreloadDictEntry> = Vec::new();
        let mut i: usize = 0;
        while i < patterns.len()
            invariant
                i <= patterns@.len(),
                view_pairs(patterns@) == ctx.pattern_seq(),
                dictionary@.map_values(|e: PreloadDictEntry| entry_view(e)) == preload_dictionary(
                    ctx.pattern_seq().take(i as int),
                ),
            decreases patterns@.len() - i,
        {
            let code = patterns[i].0;
            let pattern = &patterns[i].1;
            proof {
                assert(ctx.pattern_seq().take(i + 1).drop_last() =~= ctx.pattern_seq().take(i as int));
                assert(ctx.pattern_seq()[i as int] == (code, pattern@));
            }
            if code <= 0xFFFF {
                let entry = PreloadDictEntry {
                    pattern: pattern.data.clone(),
                    code: code as u16,
                    frequency: pattern.frequency as u32,
                };
                dictionary.push(entry);
            }
            i = i + 1;
            assert(dictionary@.map_values(|e: PreloadDictEntry| entry_view(e)) =~= preload_dictionary(
                ctx.pattern_seq().take(i as int),
            ));
        }
        assert(ctx.pattern_seq().take(i as int) =~= ctx.pattern_seq());
        let model_type: PreloadPredictionType = ctx.model_type().into();
        PreloadFile {
            format_version: PRELOAD_FORMAT_VERSION,
            context_version: ctx.version(),
            sensor_type: sensor_type.to_owned(),
            created_timestamp,
            training_samples: ctx.observation_count(),
            dictionary,
            statistics: PreloadStatistics::default(),
            prediction: PreloadPredictionModel { model_type, coefficients_bits: Vec::new(), period_samples: 0 },
        }
    }

    /// A preload file of `ctx` under `sensor_type`, stamped with the current
    /// time (0 where the clock reads before the Unix epoch).
    pub fn from_context(ctx: &Context, sensor_type: &str) -> (r: Self)
        ensures
            exists|t: u64| r@ == context_preload(ctx@, ctx.pattern_seq(), sensor_type@, t),
    {
        let now = unix_now_secs();
        Self::from_context_at(ctx, sensor_type, now)
    }
}


impl PreloadFile {
    /// The header up to the checksum.
    fn header(&self) -> (r: Vec<u8>)
        ensures
            r@ == header_bytes(self@),
    {
        let mut bytes: Vec<u8> = Vec::new();
        bytes.push(0x41);
        bytes.push(0x4C);
        bytes.push(0x45);
        bytes.push(0x43);
        push_le32(&mut bytes, self.format_version);
        push_le32(&mut bytes, self.context_version);
        let sb = self.sensor_type.as_str().as_bytes();
        let n: usize = if sb.len() < 32 {
            sb.len()
        } else {
            32
        };
        push_le16(&mut bytes, n as u16);
        push_all(&mut bytes, slice_subrange(sb, 0, n));
        let ghost before_pad = bytes@;
        let mut i: usize = n;
        while i < 32
            invariant
                n <= i <= 32,
                bytes@ == before_pad + Seq::new((i - n) as nat, |j: int| 0u8),
            decreases 32 - i,
        {
            bytes.push(0);
            i = i + 1;
            assert(bytes@ =~= before_pad + Seq::new((i - n) as nat, |j: int| 0u8));
        }
        push_le64(&mut bytes, self.created_timestamp);
        push_le64(&mut bytes, self.training_samples);
        proof {
            assert(sb@ == encode_utf8(self@.sensor_type));
            assert(sensor_field(sb@) =~= sb@.subrange(0, n as int) + Seq::new((32 - n) as nat, |j: int| 0u8));
        }
        assert(bytes@ =~= header_bytes(self@)) by {
            reveal(header_bytes);
        }
        bytes
    }

    /// The sections after the header.
    fn sections(&self) -> (r: Vec<u8>)
        ensures
            r@ == sections_bytes(self@),
    {
        let mut bytes: Vec<u8> = Vec::new();
        push_le32(&mut bytes, ((self.dictionary.len() as u64) % 0x1_0000_0000) as u32);
        let ghost start = bytes@;
        let ghost entries = self@.dictionary;
        let mut i: usize = 0;
        while i < self.dictionary.len()
            invariant
                i <= self.dictionary@.len(),
                entries == self.dictionary@.map_values(|e: PreloadDictEntry| entry_view(e)),
                bytes@ == start + dict_bytes(entries.take(i as int)),
            decreases self.dictionary@.len() - i,
        {
            let b = self.dictionary[i].to_bytes();
            push_all(&mut bytes, b.as_slice());
            proof {
                assert(entries.take(i + 1).drop_last() =~= entries.take(i as int));
                assert(entries[i as int] == entry_view(self.dictionary@[i as int]));
            }
            i = i + 1;
            assert(bytes@ =~= start + dict_bytes(entries.take(i as int)));
        }
        assert(entries.take(i as int) =~= entries);
        let st = self.statistics.to_bytes();
        push_all(&mut bytes, st.as_slice());
        let m = self.prediction.to_bytes();
        push_all(&mut bytes, m.as_slice());
        assert(bytes@ =~= sections_bytes(self@)) by {
            reveal(sections_bytes);
        }
        bytes
    }

    /// Serialize the preload file to bytes.
    pub fn to_bytes(&self) -> (r: Vec<u8>)
        ensures
            r@ == preload_file_bytes(self@),
    {
        let header = self.header();
        let sections = self.sections();
        let mut covered = header.clone();
        push_all(&mut covered, sections.as_slice());
        let checksum = crc32fast_hash(covered.as_slice());
        let mut bytes = header;
        push_le32(&mut bytes, checksum);
        push_all(&mut bytes, sections.as_slice());
        bytes
    }
}


/// Reading the entries one more: `done` then the entry read at `off`.
proof fn lemma_read_dict_step(d: Seq<u8>, off: int, n: nat, done: Seq<(Seq<u8>, u16, u32)>)
    requires
        n > 0,
        spec_parse_dict_entry(d.subrange(off, d.len() as int)) is Ok,
    ensures
        ({
            let (p, c, f, k) = spec_parse_dict_entry(d.subrange(off, d.len() as int))->Ok_0;
            after_entries(done, read_dict(d, off, n)) == after_entries(
                done.push((p, c, f)),
                read_dict(d, off + k, (n - 1) as nat),
            )
        }),
{
    let (p, c, f, k) = spec_parse_dict_entry(d.subrange(off, d.len() as int))->Ok_0;
    match read_dict(d, off + k, (n - 1) as nat) {
        Ok((s, o)) => {
            assert(done + (seq![(p, c, f)] + s) =~= done.push((p, c, f)) + s);
        },
        Err(e) => {},
    }
}

impl PreloadFile {
    /// Deserialize a preload file from bytes.
    pub fn from_bytes(data: &[u8]) -> (r: Result<Self, AlecError>)
        ensures
            preload_result(parse_preload_file(data@), r),
    {
        if data.len() < 66 {
            return Err(AlecError::Decode(DecodeError::BufferTooShort { needed: 66, available: data.len() }));
        }
        if data[0] != 0x41 || data[1] != 0x4C || data[2] != 0x45 || data[3] != 0x43 {
            assert(data@.subrange(0, 4) != preload_magic()) by {
                if data@.subrange(0, 4) == preload_magic() {
                    assert(data@[0] == data@.subrange(0, 4)[0]);
                    assert(data@[1] == data@.subrange(0, 4)[1]);
                    assert(data@[2] == data@.subrange(0, 4)[2]);
                    assert(data@[3] == data@.subrange(0, 4)[3]);
                }
            }
            return Err(
                AlecError::Decode(
                    DecodeError::MalformedMessage { offset: 0, reason: "Invalid magic bytes".to_string() },
                ),
            );
        }
        assert(data@.subrange(0, 4) =~= preload_magic());
        let format_version = get_le32(data, 4);
        let context_version = get_le32(data, 8);
        let sensor_type_len = get_le16(data, 12) as usize;
        let sensor_type_end: usize = if sensor_type_len < 32 {
            14 + sensor_type_len
        } else {
            46
        };
        let decoded = decode_utf8_lossy(slice_subrange(data, 14, sensor_type_end));
        let sensor_type = trim_trailing_nul(decoded.as_str());
        let created_timestamp = get_le64(data, 46);
        let training_samples = get_le64(data, 54);
        let stored_checksum = get_le32(data, 62);
        let mut covered = copy_range(data, 0, 62);
        push_all(&mut covered, slice_subrange(data, 66, data.len()));
        assert(covered@ =~= data@.subrange(0, 62) + data@.subrange(66, data@.len() as int));
        let computed = crc32fast_hash(covered.as_slice());
        if stored_checksum != computed {
            return Err(AlecError::Decode(DecodeError::InvalidChecksum { expected: stored_checksum, actual: computed }));
        }
        if data.len() < 70 {
            return Err(AlecError::Decode(DecodeError::BufferTooShort { needed: 70, available: data.len() }));
        }
        let dict_count = get_le32(data, 66);
        let ghost full = read_dict(data@, 70, dict_count as nat);
        let mut offset: usize = 70;
        let mut dictionary: Vec<PreloadDictEntry> = Vec::new();
        let mut k: u32 = 0;
        assert(full == after_entries(Seq::empty(), read_dict(data@, 70, dict_count as nat))) by {
            match read_dict(data@, 70, dict_count as nat) {
                Ok((s, o)) => {
                    assert(Seq::<(Seq<u8>, u16, u32)>::empty() + s =~= s);
                },
                Err(e) => {},
            }
        }
        while k < dict_count
            invariant
                70 <= offset <= data@.len(),
                k <= dict_count,
                full == read_dict(data@, 70, dict_count as nat),
                parse_preload_file(data@) == preload_sections(data@, full),
                full == after_entries(
                    dictionary@.map_values(|e: PreloadDictEntry| entry_view(e)),
                    read_dict(data@, offset as int, (dict_count - k) as nat),
                ),
            decreases dict_count - k,
        {
            let ghost done = dictionary@.map_values(|e: PreloadDictEntry| entry_view(e));
            let rest = slice_subrange(data, offset, data.len());
            match PreloadDictEntry::from_bytes(rest) {
                Err(e) => {
                    assert(read_dict(data@, offset as int, (dict_count - k) as nat) == Err::<
                        (Seq<(Seq<u8>, u16, u32)>, int),
                        AlecError,
                    >(e));
                    return Err(e);
                },
                Ok((entry, consumed)) => {
                    proof {
                        lemma_read_dict_step(data@, offset as int, (dict_count - k) as nat, done);
                        assert(done.push(entry_view(entry)) =~= dictionary@.push(entry).map_values(
                            |e: PreloadDictEntry| entry_view(e),
                        ));
                    }
                    dictionary.push(entry);
                    offset = offset + consumed;
                    k = k + 1;
                },
            }
        }
        proof {
            assert(dictionary@.map_values(|e: PreloadDictEntry| entry_view(e)) == full->Ok_0.0);
        }
        let (statistics, consumed) = match PreloadStatistics::from_bytes(slice_subrange(data, offset, data.len())) {
            Ok(x) => x,
            Err(e) => {
                return Err(e);
            },
        };
        let after_stats = offset + consumed;
        let (prediction, _) = match PreloadPredictionModel::from_bytes(
            slice_subrange(data, after_stats, data.len()),
        ) {
            Ok(x) => x,
            Err(e) => {
                return Err(e);
            },
        };
        let r = PreloadFile {
            format_version,
            context_version,
            sensor_type,
            created_timestamp,
            training_samples,
            dictionary,
            statistics,
            prediction,
        };
        Ok(r)
    }
}


/// The little-endian `u16` written at `i` reads back.
proof fn lemma_read_le16_at(d: Seq<u8>, i: int, v: u16)
    requires
        0 <= i,
        i + 2 <= d.len(),
        d.subrange(i, i + 2) == le16(v),
    ensures
        read_le16(d, i) == v,
{
    lemma_le16_roundtrip(v);
    assert(d[i] == d.subrange(i, i + 2)[0]);
    assert(d[i + 1] == d.subrange(i, i + 2)[1]);
}

/// The little-endian `u32` written at `i` reads back.
proof fn lemma_read_le32_at(d: Seq<u8>, i: int, v: u32)
    requires
        0 <= i,
        i + 4 <= d.len(),
        d.subrange(i, i + 4) == le32(v),
    ensures
        read_le32(d, i) == v,
{
    lemma_le32_roundtrip(v);
    assert(d[i] == d.subrange(i, i + 4)[0]);
    assert(d[i + 1] == d.subrange(i, i + 4)[1]);
    assert(d[i + 2] == d.subrange(i, i + 4)[2]);
    assert(d[i + 3] == d.subrange(i, i + 4)[3]);
}

/// The little-endian `u64` written at `i` reads back.
proof fn lemma_read_le64_at(d: Seq<u8>, i: int, v: u64)
    requires
        0 <= i,
        i + 8 <= d.len(),
        d.subrange(i, i + 8) == le64(v),
    ensures
        read_le64(d, i) == v,
{
    let lo = (v % 4294967296) as u32;
    let hi = (v / 4294967296) as u32;
    assert(d.subrange(i, i + 4) =~= d.subrange(i, i + 8).subrange(0, 4));
    assert(d.subrange(i + 4, i + 8) =~= d.subrange(i, i + 8).subrange(4, 8));
    assert(le64(v).subrange(0, 4) =~= le32(lo));
    assert(le64(v).subrange(4, 8) =~= le32(hi));
    lemma_read_le32_at(d, i, lo);
    lemma_read_le32_at(d, i + 4, hi);
}

/// The bytes of a list of values are eight per value.
proof fn lemma_le64_list_len(v: Seq<u64>)
    ensures
        le64_list(v).len() == 8 * v.len(),
    decreases v.len(),
{
    if v.len() > 0 {
        lemma_le64_list_len(v.drop_last());
    }
}

/// The values written at `off` read back.
proof fn lemma_le64_list_read(v: Seq<u64>, d: Seq<u8>, off: int)
    requires
        0 <= off,
        off + 8 * v.len() <= d.len(),
        d.subrange(off, off + 8 * v.len()) == le64_list(v),
    ensures
        read_le64_list(d, off, v.len()) == v,
    decreases v.len(),
{
    if v.len() > 0 {
        let n = v.len() as int;
        let w = v.drop_last();
        lemma_le64_list_len(w);
        assert(d.subrange(off, off + 8 * w.len()) =~= d.subrange(off, off + 8 * n).subrange(0, 8 * (n - 1)));
        assert(le64_list(v).subrange(0, 8 * (n - 1)) =~= le64_list(w));
        lemma_le64_list_read(w, d, off);
        assert(d.subrange(off + 8 * (n - 1), off + 8 * n) =~= d.subrange(off, off + 8 * n).subrange(
            8 * (n - 1),
            8 * n,
        ));
        assert(le64_list(v).subrange(8 * (n - 1), 8 * n) =~= le64(v.last()));
        lemma_read_le64_at(d, off + 8 * (n - 1), v.last());
        assert(read_le64_list(d, off, v.len()) =~= v) by {
            assert forall|i: int| 0 <= i < n implies #[trigger] read_le64_list(d, off, v.len())[i] == v[i] by {
                if i < n - 1 {
                    assert(read_le64_list(d, off, w.len())[i] == w[i]);
                }
            }
        }
    }
}

/// Reading the bytes written for statistics with fewer than 256 recent
/// values gives them back, whatever follows.
pub proof fn lemma_statistics_roundtrip(st: PreloadStatisticsView, rest: Seq<u8>)
    requires
        st.recent_values_bits.len() < 256,
    ensures
        statistics_bytes(st).len() == 49 + 8 * st.recent_values_bits.len(),
        parse_statistics(statistics_bytes(st) + rest) == Ok::<(PreloadStatisticsView, usize), AlecError>(
            (st, statistics_bytes(st).len() as usize),
        ),
{
    let b = statistics_bytes(st) + rest;
    let k = st.recent_values_bits.len() as int;
    lemma_statistics_fields(st, rest);
    assert(statistics_bytes(st).len() == 49 + 8 * k);
    assert(b.len() >= 49 + 8 * b[48]);
    let v = PreloadStatisticsView {
        mean_bits: read_le64(b, 0),
        variance_bits: read_le64(b, 8),
        min_observed_bits: read_le64(b, 16),
        max_observed_bits: read_le64(b, 24),
        min_expected_bits: read_le64(b, 32),
        max_expected_bits: read_le64(b, 40),
        recent_values_bits: read_le64_list(b, 49, b[48] as nat),
    };
    assert(v == st);
}

/// The fields of statistics read back from their bytes.
#[verifier::spinoff_prover]
proof fn lemma_statistics_fields(st: PreloadStatisticsView, rest: Seq<u8>)
    requires
        st.recent_values_bits.len() < 256,
    ensures
        ({
            let b = statistics_bytes(st) + rest;
            let k = st.recent_values_bits.len() as int;
            &&& b.len() == 49 + 8 * k + rest.len()
            &&& b[48] == k
            &&& read_le64(b, 0) == st.mean_bits
            &&& read_le64(b, 8) == st.variance_bits
            &&& read_le64(b, 16) == st.min_observed_bits
            &&& read_le64(b, 24) == st.max_observed_bits
            &&& read_le64(b, 32) == st.min_expected_bits
            &&& read_le64(b, 40) == st.max_expected_bits
            &&& read_le64_list(b, 49, k as nat) == st.recent_values_bits
        }),
{
    let k = st.recent_values_bits.len() as int;
    lemma_le64_list_len(st.recent_values_bits);
    let h = le64(st.mean_bits) + le64(st.variance_bits) + le64(st.min_observed_bits) + le64(st.max_observed_bits)
        + le64(st.min_expected_bits) + le64(st.max_expected_bits);
    let kb = seq![(st.recent_values_bits.len() % 256) as u8];
    let list = le64_list(st.recent_values_bits);
    let tail = kb + (list + rest);
    lemma_six_le64(
        st.mean_bits,
        st.variance_bits,
        st.min_observed_bits,
        st.max_observed_bits,
        st.min_expected_bits,
        st.max_expected_bits,
        tail,
    );
    let b = statistics_bytes(st) + rest;
    lemma_regroup3(h, kb, list, rest);
    assert(b == h + tail);
    lemma_count_and_list(b, h, k, st.recent_values_bits, rest);
}

/// After a 48-byte head, a count byte `k` and the bytes of `k` values read
/// back.
proof fn lemma_count_and_list(b: Seq<u8>, h: Seq<u8>, k: int, vals: Seq<u64>, rest: Seq<u8>)
    requires
        h.len() == 48,
        0 <= k < 256,
        vals.len() == k,
        le64_list(vals).len() == 8 * k,
        b == h + (seq![(vals.len() % 256) as u8] + (le64_list(vals) + rest)),
    ensures
        b.len() == 49 + 8 * k + rest.len(),
        b[48] == k,
        read_le64_list(b, 49, k as nat) == vals,
{
    let list = le64_list(vals);
    assert(b[48] == k);
    assert(b.subrange(49, 49 + 8 * k) =~= list);
    lemma_le64_list_read(vals, b, 49);
}

/// `(a + b + c) + r` regrouped as `a + (b + (c + r))`.
proof fn lemma_regroup3(a: Seq<u8>, b: Seq<u8>, c: Seq<u8>, r: Seq<u8>)
    ensures
        a + b + c + r == a + (b + (c + r)),
{
    assert(a + b + c + r =~= a + (b + (c + r)));
}

/// The three parts of `a + b + c` are where they were put.
proof fn lemma_split3(a: Seq<u8>, b: Seq<u8>, c: Seq<u8>)
    ensures
        ({
            let s = a + (b + c);
            &&& s.len() == a.len() + b.len() + c.len()
            &&& s.subrange(0, a.len() as int) == a
            &&& s.subrange(a.len() as int, (a.len() + b.len()) as int) == b
            &&& s.subrange((a.len() + b.len()) as int, s.len() as int) == c
        }),
{
    let s = a + (b + c);
    assert(s.subrange(0, a.len() as int) =~= a);
    assert(s.subrange(a.len() as int, (a.len() + b.len()) as int) =~= b);
    assert(s.subrange((a.len() + b.len()) as int, s.len() as int) =~= c);
}

/// A subrange of a subrange is a subrange.
proof fn lemma_sub_sub(s: Seq<u8>, i: int, j: int, k: int, l: int)
    requires
        0 <= i <= j <= s.len(),
        0 <= k <= l <= j - i,
    ensures
        s.subrange(i, j).subrange(k, l) == s.subrange(i + k, i + l),
{
    assert(s.subrange(i, j).subrange(k, l) =~= s.subrange(i + k, i + l));
}

/// The eight-byte pieces at the start of a sequence are where they were
/// put.
proof fn lemma_six_pieces(
    x0: Seq<u8>,
    x1: Seq<u8>,
    x2: Seq<u8>,
    x3: Seq<u8>,
    x4: Seq<u8>,
    x5: Seq<u8>,
    tail: Seq<u8>,
)
    requires
        x0.len() == 8,
        x1.len() == 8,
        x2.len() == 8,
        x3.len() == 8,
        x4.len() == 8,
        x5.len() == 8,
    ensures
        ({
            let s = x0 + x1 + x2 + x3 + x4 + x5 + tail;
            &&& s.len() == 48 + tail.len()
            &&& s.subrange(0, 8) == x0
            &&& s.subrange(8, 16) == x1
            &&& s.subrange(16, 24) == x2
            &&& s.subrange(24, 32) == x3
            &&& s.subrange(32, 40) == x4
            &&& s.subrange(40, 48) == x5
            &&& s.subrange(48, s.len() as int) == tail
        }),
{
    let s = x0 + x1 + x2 + x3 + x4 + x5 + tail;
    assert(s.subrange(0, 8) =~= x0);
    assert(s.subrange(8, 16) =~= x1);
    assert(s.subrange(16, 24) =~= x2);
    assert(s.subrange(24, 32) =~= x3);
    assert(s.subrange(32, 40) =~= x4);
    assert(s.subrange(40, 48) =~= x5);
    assert(s.subrange(48, s.len() as int) =~= tail);
}

/// Six little-endian values at the start of a sequence read back.
proof fn lemma_six_le64(a: u64, b: u64, c: u64, d: u64, e: u64, f: u64, tail: Seq<u8>)
    ensures
        ({
            let s = le64(a) + le64(b) + le64(c) + le64(d) + le64(e) + le64(f) + tail;
            &&& s.len() == 48 + tail.len()
            &&& s.subrange(48, s.len() as int) == tail
            &&& read_le64(s, 0) == a
            &&& read_le64(s, 8) == b
            &&& read_le64(s, 16) == c
            &&& read_le64(s, 24) == d
            &&& read_le64(s, 32) == e
            &&& read_le64(s, 40) == f
        }),
{
    lemma_le64_roundtrip(a);
    lemma_le64_roundtrip(b);
    lemma_le64_roundtrip(c);
    lemma_le64_roundtrip(d);
    lemma_le64_roundtrip(e);
    lemma_le64_roundtrip(f);
    let s = le64(a) + le64(b) + le64(c) + le64(d) + le64(e) + le64(f) + tail;
    lemma_six_pieces(le64(a), le64(b), le64(c), le64(d), le64(e), le64(f), tail);
    lemma_read_le64_at(s, 0, a);
    lemma_read_le64_at(s, 8, b);
    lemma_read_le64_at(s, 16, c);
    lemma_read_le64_at(s, 24, d);
    lemma_read_le64_at(s, 32, e);
    lemma_read_le64_at(s, 40, f);
}

/// Reading the bytes written for a prediction model with fewer than 256
/// coefficients gives it back, whatever follows.
pub proof fn lemma_model_roundtrip(m: PreloadPredictionModelView, rest: Seq<u8>)
    requires
        m.coefficients_bits.len() < 256,
    ensures
        model_bytes(m).len() == 6 + 8 * m.coefficients_bits.len(),
        parse_model(model_bytes(m) + rest) == Ok::<(PreloadPredictionModelView, usize), AlecError>(
            (m, model_bytes(m).len() as usize),
        ),
{
    let k = m.coefficients_bits.len() as int;
    lemma_le64_list_len(m.coefficients_bits);
    let b = model_bytes(m) + rest;
    assert(b[0] == m.model_type.spec_to_u8());
    assert(b[1] == k);
    assert(b.subrange(2, 2 + 8 * k) =~= le64_list(m.coefficients_bits));
    assert(b.subrange(2 + 8 * k, 6 + 8 * k) =~= le32(m.period_samples));
    lemma_le64_list_read(m.coefficients_bits, b, 2);
    lemma_read_le32_at(b, 2 + 8 * k, m.period_samples);
}

/// The bytes of a non-empty list of entries: the first entry, then the
/// others.
proof fn lemma_dict_bytes_cons(e: Seq<(Seq<u8>, u16, u32)>)
    requires
        e.len() > 0,
    ensures
        dict_bytes(e) == dict_entry_bytes(e[0].0, e[0].1, e[0].2) + dict_bytes(e.drop_first()),
    decreases e.len(),
{
    if e.len() > 1 {
        lemma_dict_bytes_cons(e.drop_last());
        assert(e.drop_last().drop_first() =~= e.drop_first().drop_last());
        assert(e.drop_first().last() == e.last());
    } else {
        assert(e.drop_last() =~= Seq::<(Seq<u8>, u16, u32)>::empty());
        assert(e.drop_first() =~= Seq::<(Seq<u8>, u16, u32)>::empty());
    }
}

/// Entries whose patterns are shorter than 256 bytes, written after `p`,
/// read back, with the offset just after them.
proof fn lemma_read_dict_roundtrip(e: Seq<(Seq<u8>, u16, u32)>, p: Seq<u8>, rest: Seq<u8>)
    requires
        forall|i: int| 0 <= i < e.len() ==> (#[trigger] e[i]).0.len() < 256,
    ensures
        read_dict(p + dict_bytes(e) + rest, p.len() as int, e.len()) == Ok::<
            (Seq<(Seq<u8>, u16, u32)>, int),
            AlecError,
        >((e, p.len() + dict_bytes(e).len() as int)),
    decreases e.len(),
{
    if e.len() == 0 {
        assert(e =~= Seq::<(Seq<u8>, u16, u32)>::empty());
    } else {
        lemma_dict_bytes_cons(e);
        let first = dict_entry_bytes(e[0].0, e[0].1, e[0].2);
        let tail = e.drop_first();
        let dt = dict_bytes(tail);
        let d = p + dict_bytes(e) + rest;
        lemma_shift(p, first, dt, rest);
        assert(e[0].0.len() < 256);
        lemma_dict_entry_roundtrip(e[0].0, e[0].1, e[0].2, dt + rest);
        assert(first.len() == 7 + e[0].0.len());
        assert forall|i: int| 0 <= i < tail.len() implies (#[trigger] tail[i]).0.len() < 256 by {
            assert(tail[i] == e[i + 1]);
        }
        lemma_read_dict_roundtrip(tail, p + first, rest);
        assert(seq![(e[0].0, e[0].1, e[0].2)] + tail =~= e);
    }
}

/// Moving the first part of a middle piece to the prefix.
proof fn lemma_shift(p: Seq<u8>, a: Seq<u8>, b: Seq<u8>, r: Seq<u8>)
    ensures
        (p + (a + b) + r).subrange(p.len() as int, (p + (a + b) + r).len() as int) == a + (b + r),
        p + (a + b) + r == p + a + b + r,
{
    assert((p + (a + b) + r).subrange(p.len() as int, (p + (a + b) + r).len() as int) =~= a + (b + r));
    assert(p + (a + b) + r =~= p + a + b + r);
}

/// Reading the bytes written for a preload file gives the file back, when
/// its sensor type fits the 32-byte field and does not end in NUL, its
/// dictionary has fewer than 2^32 entries, each pattern fewer than 256
/// bytes, and fewer than 256 recent values and coefficients are kept.
#[verifier::spinoff_prover]
#[verifier::rlimit(100)]
pub proof fn lemma_preload_file_roundtrip(f: PreloadFileView)
    requires
        encode_utf8(f.sensor_type).len() <= 32,
        trim_nul(f.sensor_type) == f.sensor_type,
        f.dictionary.len() < 0x1_0000_0000,
        forall|i: int| 0 <= i < f.dictionary.len() ==> (#[trigger] f.dictionary[i]).0.len() < 256,
        f.statistics.recent_values_bits.len() < 256,
        f.prediction.coefficients_bits.len() < 256,
    ensures
        parse_preload_file(preload_file_bytes(f)) == Ok::<PreloadFileView, PreloadFault>(f),
{
    let d = preload_file_bytes(f);
    let n = f.dictionary.len();
    let sb = encode_utf8(f.sensor_type);
    lemma_preload_header_reads(f);
    lemma_preload_section_reads(f);
    assert(parse_preload_file(d) == preload_sections(d, read_dict(d, 70, n)));
    assert(trim_nul(lossy_text(d.subrange(14, sensor_end(d)))) == f.sensor_type) by {
        vstd::utf8::encode_utf8_valid_utf8(f.sensor_type);
        vstd::utf8::encode_utf8_decode_utf8(f.sensor_type);
    }
    let v = PreloadFileView {
        format_version: read_le32(d, 4),
        context_version: read_le32(d, 8),
        sensor_type: trim_nul(lossy_text(d.subrange(14, sensor_end(d)))),
        created_timestamp: read_le64(d, 46),
        training_samples: read_le64(d, 54),
        dictionary: f.dictionary,
        statistics: f.statistics,
        prediction: f.prediction,
    };
    assert(v == f);
    let off = 70 + dict_bytes(f.dictionary).len() as int;
    let k = statistics_bytes(f.statistics).len() as int;
    assert((k as usize) as int == k);
    assert(preload_sections(d, read_dict(d, 70, n)) == Ok::<PreloadFileView, PreloadFault>(v));
}

/// `a + b + c` regrouped as `a + (b + c)`.
proof fn lemma_assoc(a: Seq<u8>, b: Seq<u8>, c: Seq<u8>)
    ensures
        a + b + c == a + (b + c),
{
    assert(a + b + c =~= a + (b + c));
}

/// The part after a prefix.
proof fn lemma_suffix(a: Seq<u8>, b: Seq<u8>)
    ensures
        (a + b).subrange(a.len() as int, (a + b).len() as int) == b,
        (a + b).subrange(0, a.len() as int) == a,
{
    assert((a + b).subrange(a.len() as int, (a + b).len() as int) =~= b);
    assert((a + b).subrange(0, a.len() as int) =~= a);
}

/// The sections regrouped around the dictionary bytes.
proof fn lemma_regroup_sections(x: Seq<u8>, nb: Seq<u8>, db: Seq<u8>, st: Seq<u8>, m: Seq<u8>)
    ensures
        x + (nb + db + st + m) == x + nb + db + (st + m),
{
    assert(x + (nb + db + st + m) =~= x + nb + db + (st + m));
}

/// The header of the bytes of a preload file reads back: magic, checksum,
/// versions, sensor type, timestamp, sample count and entry count.
#[verifier::spinoff_prover]
#[verifier::rlimit(100)]
proof fn lemma_preload_header_reads(f: PreloadFileView)
    requires
        encode_utf8(f.sensor_type).len() <= 32,
        f.dictionary.len() < 0x1_0000_0000,
    ensures
        ({
            let d = preload_file_bytes(f);
            let sb = encode_utf8(f.sensor_type);
            &&& d.len() >= 70
            &&& d.subrange(0, 4) == preload_magic()
            &&& read_le32(d, 62) == computed_checksum(d)
            &&& read_le32(d, 4) == f.format_version
            &&& read_le32(d, 8) == f.context_version
            &&& d.subrange(14, sensor_end(d)) == sb
            &&& read_le64(d, 46) == f.created_timestamp
            &&& read_le64(d, 54) == f.training_samples
            &&& read_le32(d, 66) == f.dictionary.len()
        }),
{
    let h = header_bytes(f);
    let sec = sections_bytes(f);
    let c = crc32fast_digest(h + sec);
    let cb = le32(c);
    let d = preload_file_bytes(f);
    let sb = encode_utf8(f.sensor_type);
    let n = f.dictionary.len();
    let nb = le32((n % 0x1_0000_0000) as u32);
    lemma_header_layout(f);
    lemma_le32_roundtrip(c);
    lemma_le32_roundtrip((n % 0x1_0000_0000) as u32);
    lemma_assoc(h, cb, sec);
    lemma_split3(h, cb, sec);
    assert(computed_checksum(d) == c);
    lemma_read_le32_at(d, 62, c);
    lemma_sub_sub(d, 0, 62, 0, 4);
    lemma_sub_sub(d, 0, 62, 4, 8);
    lemma_read_le32_at(d, 4, f.format_version);
    lemma_sub_sub(d, 0, 62, 8, 12);
    lemma_read_le32_at(d, 8, f.context_version);
    lemma_sub_sub(d, 0, 62, 12, 14);
    lemma_read_le16_at(d, 12, sb.len() as u16);
    lemma_sub_sub(d, 0, 62, 14, 14 + sb.len() as int);
    lemma_sub_sub(d, 0, 62, 46, 54);
    lemma_read_le64_at(d, 46, f.created_timestamp);
    lemma_sub_sub(d, 0, 62, 54, 62);
    lemma_read_le64_at(d, 54, f.training_samples);
    assert(sec == nb + (dict_bytes(f.dictionary) + statistics_bytes(f.statistics) + model_bytes(f.prediction))) by {
        reveal(sections_bytes);
        lemma_assoc(nb, dict_bytes(f.dictionary), statistics_bytes(f.statistics));
        lemma_assoc(nb + dict_bytes(f.dictionary), statistics_bytes(f.statistics), model_bytes(f.prediction));
        assert(sec =~= nb + (dict_bytes(f.dictionary) + statistics_bytes(f.statistics) + model_bytes(f.prediction)));
    }
    lemma_suffix(nb, dict_bytes(f.dictionary) + statistics_bytes(f.statistics) + model_bytes(f.prediction));
    lemma_sub_sub(d, 66, d.len() as int, 0, 4);
    lemma_read_le32_at(d, 66, (n % 0x1_0000_0000) as u32);
}

/// The sections of the bytes of a preload file read back: the entries, the
/// statistics after them and the model after those.
proof fn lemma_preload_section_reads(f: PreloadFileView)
    requires
        f.dictionary.len() < 0x1_0000_0000,
        forall|i: int| 0 <= i < f.dictionary.len() ==> (#[trigger] f.dictionary[i]).0.len() < 256,
        f.statistics.recent_values_bits.len() < 256,
        f.prediction.coefficients_bits.len() < 256,
        encode_utf8(f.sensor_type).len() <= 32,
    ensures
        ({
            let d = preload_file_bytes(f);
            let off = 70 + dict_bytes(f.dictionary).len() as int;
            let k = statistics_bytes(f.statistics).len() as int;
            &&& read_dict(d, 70, f.dictionary.len()) == Ok::<(Seq<(Seq<u8>, u16, u32)>, int), AlecError>(
                (f.dictionary, off),
            )
            &&& parse_statistics(d.subrange(off, d.len() as int)) == Ok::<(PreloadStatisticsView, usize), AlecError>(
                (f.statistics, k as usize),
            )
            &&& k == 49 + 8 * f.statistics.recent_values_bits.len()
            &&& parse_model(d.subrange(off + k, d.len() as int)) matches Ok((m, _)) && m == f.prediction
        }),
{
    let h = header_bytes(f);
    let sec = sections_bytes(f);
    let c = crc32fast_digest(h + sec);
    let cb = le32(c);
    let d = preload_file_bytes(f);
    let n = f.dictionary.len();
    let nb = le32((n % 0x1_0000_0000) as u32);
    let db = dict_bytes(f.dictionary);
    let stb = statistics_bytes(f.statistics);
    let mb = model_bytes(f.prediction);
    lemma_header_layout(f);
    lemma_le32_roundtrip(c);
    lemma_le32_roundtrip((n % 0x1_0000_0000) as u32);
    lemma_assoc(h, cb, sec);
    assert(sec == nb + db + stb + mb) by {
        reveal(sections_bytes);
    }
    lemma_regroup_sections(h + cb, nb, db, stb, mb);
    let pre = h + cb + nb;
    assert(pre.len() == 70);
    assert(d == pre + db + (stb + mb));
    lemma_read_dict_roundtrip(f.dictionary, pre, stb + mb);
    lemma_suffix(pre + db, stb + mb);
    lemma_statistics_roundtrip(f.statistics, mb);
    let off = 70 + db.len() as int;
    lemma_sub_sub(d, off, d.len() as int, stb.len() as int, (stb.len() + mb.len()) as int);
    lemma_suffix(stb, mb);
    lemma_model_roundtrip(f.prediction, Seq::<u8>::empty());
    lemma_suffix(mb, Seq::<u8>::empty());
}

/// The parts of the header: magic, versions, sensor length and bytes,
/// timestamp and sample count, at their offsets.
proof fn lemma_header_layout(f: PreloadFileView)
    requires
        encode_utf8(f.sensor_type).len() <= 32,
    ensures
        ({
            let h = header_bytes(f);
            let sb = encode_utf8(f.sensor_type);
            &&& h.len() == 62
            &&& h.subrange(0, 4) == preload_magic()
            &&& h.subrange(4, 8) == le32(f.format_version)
            &&& h.subrange(8, 12) == le32(f.context_version)
            &&& h.subrange(12, 14) == le16(sb.len() as u16)
            &&& h.subrange(14, 14 + sb.len() as int) == sb
            &&& h.subrange(46, 54) == le64(f.created_timestamp)
            &&& h.subrange(54, 62) == le64(f.training_samples)
        }),
{
    reveal(header_bytes);
    let h = header_bytes(f);
    let sb = encode_utf8(f.sensor_type);
    let field = sensor_field(sb);
    assert(field.len() == 32);
    assert(h =~= preload_magic() + le32(f.format_version) + le32(f.context_version) + le16(sb.len() as u16) + field
        + le64(f.created_timestamp) + le64(f.training_samples));
    assert(h.subrange(0, 4) =~= preload_magic());
    assert(h.subrange(4, 8) =~= le32(f.format_version));
    assert(h.subrange(8, 12) =~= le32(f.context_version));
    assert(h.subrange(12, 14) =~= le16(sb.len() as u16));
    assert(h.subrange(14, 14 + sb.len() as int) =~= sb) by {
        assert(h.subrange(14, 46) =~= field);
        assert(field.subrange(0, sb.len() as int) =~= sb);
    }
    assert(h.subrange(46, 54) =~= le64(f.created_timestamp));
    assert(h.subrange(54, 62) =~= le64(f.training_samples));
}

/// In a sequence with strictly increasing keys, the key at position `i` is
/// at least `i`.
proof fn lemma_sorted_key_at_least_index(s: Seq<(u32, PatternView)>, i: int)
    requires
        sorted_keys(s),
        0 <= i < s.len(),
    ensures
        s[i].0 >= i,
    decreases i,
{
    if i > 0 {
        lemma_sorted_key_at_least_index(s, i - 1);
    }
}

/// Storing the patterns of a context whose codes fit in 16 bits and whose
/// frequencies fit in 32 bits keeps every one of them.
proof fn lemma_preloaded_dictionary(s: Seq<(u32, PatternView)>)
    requires
        forall|i: int| 0 <= i < s.len() ==> (#[trigger] s[i]).0 <= 0xFFFF && s[i].1.frequency < 0x1_0000_0000,
    ensures
        preload_dictionary(s).len() == s.len(),
        forall|i: int| 0 <= i < s.len() ==> (#[trigger] preload_dictionary(s)[i]).0 == s[i].1.data,
        preloaded_patterns(preload_dictionary(s)) == filed(s).map_values(|p: PatternView| preload_kept(p)),
    decreases s.len(),
{
    if s.len() > 0 {
        let s1 = s.drop_last();
        assert forall|i: int| 0 <= i < s1.len() implies (#[trigger] s1[i]).0 <= 0xFFFF && s1[i].1.frequency
            < 0x1_0000_0000 by {
            assert(s1[i] == s[i]);
        }
        lemma_preloaded_dictionary(s1);
        let last = s.last();
        assert(s[s.len() - 1] == last);
        let e = (last.1.data, last.0 as u16, last.1.frequency as u32);
        assert(preload_dictionary(s) == preload_dictionary(s1).push(e));
        assert(preload_dictionary(s).last() == e);
        assert(preload_dictionary(s).drop_last() =~= preload_dictionary(s1));
        assert(preloaded_pattern(e) == preload_kept(last.1));
        assert(filed(s).map_values(|p: PatternView| preload_kept(p)) =~= filed(s1).map_values(
            |p: PatternView| preload_kept(p),
        ).insert(last.0, preload_kept(last.1)));
        assert forall|i: int| 0 <= i < s.len() implies (#[trigger] preload_dictionary(s)[i]).0 == s[i].1.data by {
            if i < s1.len() {
                assert(preload_dictionary(s)[i] == preload_dictionary(s1)[i]);
                assert(s1[i] == s[i]);
            }
        }
    }
}

/// Saving a context in a preload file and loading the file back gives a
/// context with the same version and the same patterns (their bytes and
/// frequencies; their use starts anew), when every code fits in 16 bits,
/// every frequency in 32 bits and every pattern in 255 bytes, and the
/// sensor type fits the 32-byte field and does not end in NUL.
pub proof fn lemma_preload_context_roundtrip(ctx: Context, sensor_type: Seq<char>, created_timestamp: u64)
    requires
        ctx.wf(),
        forall|k: u32| #[trigger]
            ctx@.patterns.contains_key(k) ==> k <= 0xFFFF && ctx@.patterns[k].frequency < 0x1_0000_0000
                && ctx@.patterns[k].data.len() < 256,
        encode_utf8(sensor_type).len() <= 32,
        trim_nul(sensor_type) == sensor_type,
    ensures
        ({
            let f = context_preload(ctx@, ctx.pattern_seq(), sensor_type, created_timestamp);
            &&& parse_preload_file(preload_file_bytes(f)) == Ok::<PreloadFileView, PreloadFault>(f)
            &&& preloaded_view(f).version == ctx@.version
            &&& preloaded_view(f).patterns == ctx@.patterns.map_values(|p: PatternView| preload_kept(p))
        }),
{
    let s = ctx.pattern_seq();
    ctx.lemma_ordered();
    assert forall|i: int| 0 <= i < s.len() implies (#[trigger] s[i]).0 <= 0xFFFF && s[i].1.frequency
        < 0x1_0000_0000 && s[i].1.data.len() < 256 by {
        lemma_key_index(s, i);
    }
    lemma_preloaded_dictionary(s);
    lemma_filed_sorted(s);
    let f = context_preload(ctx@, s, sensor_type, created_timestamp);
    if s.len() > 0 {
        lemma_sorted_key_at_least_index(s, s.len() - 1);
    }
    assert forall|i: int| 0 <= i < f.dictionary.len() implies (#[trigger] f.dictionary[i]).0.len() < 256 by {
        assert(f.dictionary[i].0 == s[i].1.data);
    }
    lemma_preload_file_roundtrip(f);
}

} // verus!
