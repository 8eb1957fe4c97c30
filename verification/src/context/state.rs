//! The shared context: the pattern dictionary with its lookup index, the
//! per-source statistics and the counters that emitter and receiver keep
//! in step.

use vstd::prelude::*;
use std::collections::HashMap;
use vstd::string::StringSliceAdditionalSpecFns;
use crate::bytes::{le16, le32, le64, push_le16, push_le32, push_le64, read_le16, read_le32, read_le64, get_le16, get_le32, get_le64, lemma_le16_roundtrip, lemma_le32_roundtrip, lemma_le64_roundtrip, be16, be32, be64, lemma_be16_roundtrip, lemma_be32_roundtrip, lemma_be64_roundtrip, copy_range, get_be16, get_be32, get_be64, push_all, push_be16, push_be32, push_be64, read_be16, read_be32, read_be64};
use crate::context::{
    default_context_config, ContextConfig, EvolutionConfig, Pattern, PatternView, PredictionModel, SourceStats,
    SourceStatsView, VersionCheckResult, MAX_PATTERN_SIZE,
};
use crate::error::{AlecError, ContextError, DecodeError, EncodeError};
use crate::text::{decimal, push_decimal};
use crate::hashing::{crc32_iso_hdlc, crc32_iso_hdlc_checksum, xxh64, xxh64_digest};
use crate::sorted_map::{
    as_map, filed, find_key, get_value, has_key, insert_value, keys_of, lemma_key_index, lemma_sorted_same_keys, lemma_as_map_push, lemma_empty_map, lemma_keys_of, lemma_view_insert, lemma_view_pairs,
    lemma_view_remove, remove_key, sorted_keys, view_pairs,
};
use crate::DEFAULT_SCALE_FACTOR;
use crate::context::{entry_view, preloaded_index, preloaded_next_code, preloaded_patterns, preloaded_view, PreloadFile};

verus! {

broadcast use {vstd::std_specs::hash::group_hash_axioms, vstd::string::group_string_axioms};

/// A context, by value.
#[verifier::ext_equal]
pub struct ContextView {
    pub version: u32,
    pub observation_count: u64,
    /// Dictionary: code to pattern
    pub patterns: Map<u32, PatternView>,
    /// Lookup index: digest of a pattern's bytes to code
    pub index: Map<u64, u32>,
    pub next_code: u32,
    /// Statistics per source id
    pub sources: Map<u32, SourceStatsView>,
    pub config: ContextConfig,
    pub scale_factor: u32,
}

/// A fresh context with the given configuration.
pub open spec fn empty_view(config: ContextConfig) -> ContextView {
    ContextView {
        version: 0,
        observation_count: 0,
        patterns: Map::empty(),
        index: Map::empty(),
        next_code: 0,
        sources: Map::empty(),
        config,
        scale_factor: DEFAULT_SCALE_FACTOR,
    }
}

/// The digest under which the index files a pattern's bytes.
pub open spec fn pattern_key(data: Seq<u8>) -> u64 {
    xxh64_digest(data, 0)
}

/// The bytes one pattern adds to the input of the context hash: code,
/// length (two bytes, modulo 2^16), bytes.
pub open spec fn hash_entry(code: u32, p: PatternView) -> Seq<u8> {
    be32(code) + be16((p.data.len() % 65536) as u16) + p.data
}

/// The input of the context hash: the entries of the dictionary in
/// ascending code order.
pub open spec fn hash_input(s: Seq<(u32, PatternView)>) -> Seq<u8>
    decreases s.len(),
{
    if s.len() == 0 {
        Seq::empty()
    } else {
        hash_input(s.drop_last()) + hash_entry(s.last().0, s.last().1)
    }
}

/// Memory that the patterns of `s` are accounted for: their bytes plus 32
/// each.
pub open spec fn patterns_footprint(s: Seq<(u32, PatternView)>) -> int
    decreases s.len(),
{
    if s.len() == 0 {
        0
    } else {
        patterns_footprint(s.drop_last()) + s.last().1.data.len() + 32
    }
}

/// A pattern after one more registration of the same bytes.
pub open spec fn reused(p: PatternView) -> PatternView {
    PatternView { frequency: (p.frequency + 1) as u64, ..p }
}

/// The outcome of registering pattern `p` in context `v` whose dictionary
/// holds `count` entries: the new context and the result.
pub open spec fn registered(v: ContextView, count: nat, p: PatternView) -> (ContextView, Result<u32, AlecError>) {
    if count >= v.config.max_patterns {
        (v, Err(AlecError::Context(ContextError::DictionaryFull { max: v.config.max_patterns })))
    } else if p.data.len() > MAX_PATTERN_SIZE {
        (
            v,
            Err(
                AlecError::Context(
                    ContextError::PatternTooLarge { size: p.data.len() as usize, max: MAX_PATTERN_SIZE },
                ),
            ),
        )
    } else if v.index.contains_key(pattern_key(p.data)) {
        let code = v.index[pattern_key(p.data)];
        let patterns = if v.patterns.contains_key(code) {
            v.patterns.insert(code, reused(v.patterns[code]))
        } else {
            v.patterns
        };
        (ContextView { patterns, ..v }, Ok(code))
    } else {
        (
            ContextView {
                patterns: v.patterns.insert(v.next_code, p),
                index: v.index.insert(pattern_key(p.data), v.next_code),
                next_code: (v.next_code + 1) as u32,
                version: (v.version + 1) as u32,
                ..v
            },
            Ok(v.next_code),
        )
    }
}

/// Whether registering `p` in a context `v` with `count` patterns keeps
/// its counters in range: the frequency of the pattern it reuses, or the
/// next code and the version when it adds one.
pub open spec fn register_fits(v: ContextView, count: nat, p: PatternView) -> bool {
    count < v.config.max_patterns && p.data.len() <= MAX_PATTERN_SIZE ==> if v.index.contains_key(
        pattern_key(p.data),
    ) {
        let code = v.index[pattern_key(p.data)];
        v.patterns.contains_key(code) ==> v.patterns[code].frequency < u64::MAX
    } else {
        v.version < u32::MAX && v.next_code < u32::MAX
    }
}

/// Whether pruning at time `current_time` keeps pattern `p`: it was used at
/// least `min_frequency` times, and last used no more than `max_age` ago.
pub open spec fn keeps(p: PatternView, current_time: u64, e: EvolutionConfig) -> bool {
    p.frequency >= e.min_frequency && (if current_time >= p.last_used {
        current_time - p.last_used
    } else {
        0
    }) <= e.max_age
}

/// The dictionary `m` once the patterns under the codes of `done` that
/// pruning does not keep are gone.
pub open spec fn pruned(m: Map<u32, PatternView>, current_time: u64, e: EvolutionConfig, done: Set<u32>) -> Map<
    u32,
    PatternView,
> {
    Map::new(
        |k: u32| m.contains_key(k) && (done.contains(k) ==> keeps(m[k], current_time, e)),
        |k: u32| m[k],
    )
}

/// Pruning at time `t` keeps exactly the patterns used at least
/// `min_frequency` times and last used at most `max_age` before `t` (no
/// time has passed for a pattern used after `t`), each unchanged.
pub proof fn lemma_prune_keeps_exactly(m: Map<u32, PatternView>, t: u64, e: EvolutionConfig)
    ensures
        forall|c: u32|
            #![trigger pruned(m, t, e, m.dom()).contains_key(c)]
            pruned(m, t, e, m.dom()).contains_key(c) <==> (m.contains_key(c) && m[c].frequency >= e.min_frequency && (
            if t >= m[c].last_used {
                t - m[c].last_used
            } else {
                0
            }) <= e.max_age),
        forall|c: u32| #[trigger]
            pruned(m, t, e, m.dom()).contains_key(c) ==> pruned(m, t, e, m.dom())[c] == m[c],
{
}

/// The index digests of the patterns under the codes of `done` that pruning
/// removes.
pub open spec fn pruned_digests(m: Map<u32, PatternView>, current_time: u64, e: EvolutionConfig, done: Set<u32>) -> Set<
    u64,
> {
    Set::new(
        |h: u64|
            exists|k: u32|
                #![trigger m[k]]
                m.contains_key(k) && done.contains(k) && !keeps(m[k], current_time, e) && pattern_key(m[k].data) == h,
    )
}

/// The dictionary with the pattern under `order[i]` renumbered `i`.
pub open spec fn reordered(m: Map<u32, PatternView>, order: Seq<u32>) -> Map<u32, PatternView> {
    Map::new(|k: u32| k < order.len(), |k: u32| m[order[k as int]])
}

/// The index rebuilt by filing the patterns in the order `order`, each
/// under its new code.
pub open spec fn reindexed(m: Map<u32, PatternView>, order: Seq<u32>) -> Map<u64, u32>
    decreases order.len(),
{
    if order.len() == 0 {
        Map::empty()
    } else {
        reindexed(m, order.drop_last()).insert(pattern_key(m[order.last()].data), (order.len() - 1) as u32)
    }
}

/// The bytes one pattern takes in a full export: code, length (one byte,
/// modulo 256), bytes.
pub open spec fn export_entry(code: u32, p: PatternView) -> Seq<u8> {
    be32(code) + seq![(p.data.len() % 256) as u8] + p.data
}

/// The export records of the entries of `s`, in order.
pub open spec fn export_entries(s: Seq<(u32, PatternView)>) -> Seq<u8>
    decreases s.len(),
{
    if s.len() == 0 {
        Seq::empty()
    } else {
        export_entries(s.drop_last()) + export_entry(s.last().0, s.last().1)
    }
}

/// A full export: version, dictionary hash, entry count (two bytes, modulo
/// 2^16), then the entries.
pub open spec fn export_bytes(version: u32, hash: u64, s: Seq<(u32, PatternView)>) -> Seq<u8> {
    be32(version) + be64(hash) + be16((s.len() % 65536) as u16) + export_entries(s)
}

/// The entries that `count` export records starting at `off` hold, read in
/// order up to the first that is cut short; with `Some(false)` when a
/// record's code and length are cut, `Some(true)` when its bytes are.
pub open spec fn import_entries(data: Seq<u8>, off: int, count: nat) -> (Seq<(u32, Seq<u8>)>, Option<bool>)
    decreases count,
{
    if count == 0 {
        (Seq::empty(), None)
    } else if off + 5 > data.len() {
        (Seq::empty(), Some(false))
    } else if off + 5 + data[off + 4] > data.len() {
        (Seq::empty(), Some(true))
    } else {
        let len = data[off + 4] as int;
        let rest = import_entries(data, off + 5 + len, (count - 1) as nat);
        (seq![(read_be32(data, off), data.subrange(off + 5, off + 5 + len))] + rest.0, rest.1)
    }
}

/// A pattern as an import creates it: seen once, at time 0.
pub open spec fn fresh_pattern(data: Seq<u8>) -> PatternView {
    PatternView { data, value_bits: None, frequency: 1, last_used: 0, created_at: 0 }
}

/// The dictionary after storing the imported entries of `e` in order.
pub open spec fn imported_patterns(e: Seq<(u32, Seq<u8>)>) -> Map<u32, PatternView>
    decreases e.len(),
{
    if e.len() == 0 {
        Map::empty()
    } else {
        imported_patterns(e.drop_last()).insert(e.last().0, fresh_pattern(e.last().1))
    }
}

/// The index after filing the imported entries of `e` in order.
pub open spec fn imported_index(e: Seq<(u32, Seq<u8>)>) -> Map<u64, u32>
    decreases e.len(),
{
    if e.len() == 0 {
        Map::empty()
    } else {
        imported_index(e.drop_last()).insert(pattern_key(e.last().1), e.last().0)
    }
}

/// The next code after the imported entries of `e`: one past the largest.
pub open spec fn imported_next_code(e: Seq<(u32, Seq<u8>)>) -> u32
    decreases e.len(),
{
    if e.len() == 0 {
        0
    } else if e.last().0 >= imported_next_code(e.drop_last()) {
        (e.last().0 + 1) as u32
    } else {
        imported_next_code(e.drop_last())
    }
}

/// The entries a full import of `data` reads.
pub open spec fn import_of(data: Seq<u8>) -> (Seq<(u32, Seq<u8>)>, Option<bool>) {
    import_entries(data, 14, read_be16(data, 12) as nat)
}

/// Format version of a persisted context.
pub const ALCS_FORMAT_VERSION: u32 = 1;

/// The first four bytes of a persisted context: "ALCS".
pub open spec fn alcs_magic() -> Seq<u8> {
    seq![0x41u8, 0x4Cu8, 0x43u8, 0x53u8]
}

/// Reads `count` source records at `offset`, none reaching past `limit`.
fn read_sources_at(data: &[u8], offset: usize, count: usize, limit: usize) -> (r: Result<
    (Vec<(u32, SourceStats)>, usize),
    usize,
>)
    requires
        data@.len() <= isize::MAX,
        offset <= limit <= data@.len(),
    ensures
        match read_sources(data@, offset as int, count as nat, limit as int) {
            Ok((seq, end)) => r matches Ok((v, e)) && e == end && e <= limit && sorted_keys(v@) && as_map(view_pairs(v@))
                == filed(seq),
            Err(n) => r == Err::<(Vec<(u32, SourceStats)>, usize), usize>(n as usize),
        },
{
    let ghost d = data@;
    let ghost full = read_sources(d, offset as int, count as nat, limit as int);
    let ghost mut done: Seq<(u32, SourceStatsView)> = Seq::empty();
    let mut sources: Vec<(u32, SourceStats)> = Vec::new();
    let mut pos = offset;
    proof {
        lemma_empty_map(sources@);
        lemma_empty_map(view_pairs(sources@));
        match full {
            Ok((rest, end)) => {
                assert(done + rest =~= rest);
            },
            Err(n) => {},
        }
    }
    let mut k: usize = 0;
    while k < count
        invariant
            d == data@,
            d.len() <= isize::MAX,
            pos <= limit <= d.len(),
            k <= count,
            full == read_sources(d, offset as int, count as nat, limit as int),
            full == after(done, read_sources(d, pos as int, (count - k) as nat, limit as int)),
            sorted_keys(sources@),
            as_map(view_pairs(sources@)) == filed(done),
        decreases count - k,
    {
        if limit - pos < 56 {
            return Err(pos + 56);
        }
        let id = get_le32(data, pos);
        if limit - pos < 60 {
            return Err(pos + 60);
        }
        let n = get_le32(data, pos + 56);
        let hist_bytes: usize = if (n as u64) * 8 > usize::MAX as u64 {
            usize::MAX
        } else {
            (n as usize) * 8
        };
        proof {
            assert(hist_bytes == history_span(n));
        }
        if limit - pos - 60 < hist_bytes {
            let needed: usize = if usize::MAX - (pos + 60) < hist_bytes {
                usize::MAX
            } else {
                pos + 60 + hist_bytes
            };
            return Err(needed);
        }
        let st = read_source_at(data, pos, n);
        let ghost before = sources@;
        insert_value(&mut sources, id, st);
        proof {
            lemma_view_insert(before, sources@, id, st);
            let d1 = done.push((id, st@));
            assert(d1.drop_last() =~= done);
            let rest = read_sources(d, (pos + 60 + hist_bytes) as int, (count - k - 1) as nat, limit as int);
            match rest {
                Ok((rs, end)) => {
                    assert(done + (seq![(id, st@)] + rs) =~= d1 + rs);
                },
                Err(m) => {},
            }
            done = d1;
        }
        pos = pos + 60 + hist_bytes;
        k = k + 1;
    }
    proof {
        assert(done + Seq::<(u32, SourceStatsView)>::empty() =~= done);
    }
    Ok((sources, pos))
}

/// Reads `count` pattern records at `pos`, none reaching past `limit`,
/// with the index that filing them builds.
fn read_patterns_at(data: &[u8], offset: usize, count: usize, limit: usize) -> (r: Result<
    (Vec<(u32, Pattern)>, HashMap<u64, u32>, usize),
    usize,
>)
    requires
        data@.len() <= isize::MAX,
        offset <= limit <= data@.len(),
    ensures
        match read_patterns(data@, offset as int, count as nat, limit as int) {
            Ok((seq, end)) => r matches Ok((v, index, e)) && e == end && e <= limit && sorted_keys(v@) && as_map(view_pairs(v@))
                == filed(seq) && index@ == filed_index(seq),
            Err(n) => r matches Err(m) && m == n,
        },
{
    let ghost d = data@;
    let ghost full = read_patterns(d, offset as int, count as nat, limit as int);
    let ghost mut done: Seq<(u32, PatternView)> = Seq::empty();
    let mut dictionary: Vec<(u32, Pattern)> = Vec::new();
    let mut pattern_index: HashMap<u64, u32> = HashMap::new();
    let mut pos = offset;
    proof {
        lemma_empty_map(dictionary@);
        lemma_empty_map(view_pairs(dictionary@));
        match full {
            Ok((rest, end)) => {
                assert(done + rest =~= rest);
            },
            Err(n) => {},
        }
    }
    let mut k: usize = 0;
    while k < count
        invariant
            d == data@,
            d.len() <= isize::MAX,
            pos <= limit <= d.len(),
            k <= count,
            full == read_patterns(d, offset as int, count as nat, limit as int),
            full == after(done, read_patterns(d, pos as int, (count - k) as nat, limit as int)),
            sorted_keys(dictionary@),
            as_map(view_pairs(dictionary@)) == filed(done),
            pattern_index@ == filed_index(done),
        decreases count - k,
    {
        if limit - pos < 6 {
            return Err(pos + 6);
        }
        let code = get_le32(data, pos);
        let data_len = get_le16(data, pos + 4) as usize;
        if limit - pos - 6 < data_len + 24 {
            return Err(pos + 6 + data_len + 24);
        }
        let start = pos + 6;
        let bytes = copy_range(data, start, start + data_len);
        let frequency = get_le64(data, start + data_len);
        let last_used = get_le64(data, start + data_len + 8);
        let created_at = get_le64(data, start + data_len + 16);
        let h = xxh64(bytes.as_slice(), 0);
        pattern_index.insert(h, code);
        let p = Pattern { data: bytes, value_bits: None, frequency, last_used, created_at };
        proof {
            assert(p@ == read_pattern(d, pos as int, data_len as int));
        }
        let ghost before = dictionary@;
        insert_value(&mut dictionary, code, p);
        proof {
            lemma_view_insert(before, dictionary@, code, p);
            let d1 = done.push((code, p@));
            assert(d1.drop_last() =~= done);
            let rest = read_patterns(d, (pos + 30 + data_len) as int, (count - k - 1) as nat, limit as int);
            match rest {
                Ok((rs, end)) => {
                    assert(done + (seq![(code, p@)] + rs) =~= d1 + rs);
                },
                Err(m) => {},
            }
            done = d1;
        }
        pos = pos + 30 + data_len;
        k = k + 1;
    }
    proof {
        assert(done + Seq::<(u32, PatternView)>::empty() =~= done);
    }
    Ok((dictionary, pattern_index, pos))
}

/// The source record at `offset`, with `n` history values, which fits in
/// `data`.
fn read_source_at(data: &[u8], off: usize, n: u32) -> (r: SourceStats)
    requires
        off + 60 + 8 * n <= data@.len(),
    ensures
        r@ == read_source_stats(data@, off as int, n),
{
    let _len = data.len();
    let mut hist: Vec<u64> = Vec::new();
    let mut i: usize = 0;
    while i < n as usize
        invariant
            i <= n,
            data@.len() <= usize::MAX,
            off + 60 + 8 * n <= data@.len(),
            hist@ == Seq::new(i as nat, |j: int| read_le64(data@, off + 60 + 8 * j)),
        decreases n - i,
    {
        hist.push(get_le64(data, off + 60 + 8 * i));
        i = i + 1;
        assert(hist@ =~= Seq::new(i as nat, |j: int| read_le64(data@, off + 60 + 8 * j)));
    }
    SourceStats {
        last_value_bits: get_le64(data, off + 12),
        ema_bits: get_le64(data, off + 20),
        ema_alpha_bits: get_le64(data, off + 28),
        count: get_le64(data, off + 4),
        sum_sq_diff_bits: get_le64(data, off + 36),
        mean_bits: get_le64(data, off + 44),
        history_bits: hist,
        max_history: get_le32(data, off + 52) as usize,
    }
}

/// Appends the record of source `id`.
fn push_source_record(out: &mut Vec<u8>, id: u32, st: &SourceStats)
    ensures
        final(out)@ == old(out)@ + source_record(id, st@),
{
    let ghost start = out@;
    push_le32(out, id);
    push_le64(out, st.count);
    push_le64(out, st.last_value_bits);
    push_le64(out, st.ema_bits);
    push_le64(out, st.ema_alpha_bits);
    push_le64(out, st.sum_sq_diff_bits);
    push_le64(out, st.mean_bits);
    push_le32(out, st.max_history as u32);
    push_le32(out, st.history_bits.len() as u32);
    let ghost mid = out@;
    let mut j: usize = 0;
    while j < st.history_bits.len()
        invariant
            j <= st.history_bits@.len(),
            out@ == mid + le64_values(st.history_bits@.take(j as int)),
        decreases st.history_bits@.len() - j,
    {
        push_le64(out, st.history_bits[j]);
        proof {
            assert(st.history_bits@.take(j + 1).drop_last() =~= st.history_bits@.take(j as int));
        }
        j = j + 1;
    }
    proof {
        assert(st.history_bits@.take(j as int) =~= st.history_bits@);
    }
    reveal(source_record);
    assert(out@ =~= start + source_record(id, st@));
}

/// The little-endian bytes of each value of `h`, in order.
pub open spec fn le64_values(h: Seq<u64>) -> Seq<u8>
    decreases h.len(),
{
    if h.len() == 0 {
        Seq::empty()
    } else {
        le64_values(h.drop_last()) + le64(h.last())
    }
}

/// The record of one source in a persisted context.
#[verifier::opaque]
pub open spec fn source_record(id: u32, s: SourceStatsView) -> Seq<u8> {
    le32(id) + le64(s.count) + le64(s.last_value_bits) + le64(s.ema_bits) + le64(s.ema_alpha_bits) + le64(
        s.sum_sq_diff_bits,
    ) + le64(s.mean_bits) + le32(s.max_history as u32) + le32(s.history_bits.len() as u32) + le64_values(
        s.history_bits,
    )
}

/// The records of the sources of `s`, in order.
pub open spec fn source_records(s: Seq<(u32, SourceStatsView)>) -> Seq<u8>
    decreases s.len(),
{
    if s.len() == 0 {
        Seq::empty()
    } else {
        source_records(s.drop_last()) + source_record(s.last().0, s.last().1)
    }
}

/// How many bytes of a pattern a persisted context keeps: at most 2^16 - 1.
pub open spec fn kept_len(p: PatternView) -> int {
    if p.data.len() > 65535 {
        65535
    } else {
        p.data.len() as int
    }
}

/// The record of one pattern in a persisted context.
pub open spec fn pattern_record(code: u32, p: PatternView) -> Seq<u8> {
    le32(code) + le16(kept_len(p) as u16) + p.data.take(kept_len(p)) + le64(p.frequency) + le64(p.last_used)
        + le64(p.created_at)
}

/// The records of the patterns of `s`, in order.
pub open spec fn pattern_records(s: Seq<(u32, PatternView)>) -> Seq<u8>
    decreases s.len(),
{
    if s.len() == 0 {
        Seq::empty()
    } else {
        pattern_records(s.drop_last()) + pattern_record(s.last().0, s.last().1)
    }
}

/// A persisted context up to its checksum: magic, format version, version,
/// scale factor, observation count, next code, sensor type (length byte,
/// bytes), the sources and the patterns, each list behind its count.
pub open spec fn alcs_body(
    v: ContextView,
    sensor: Seq<u8>,
    sources: Seq<(u32, SourceStatsView)>,
    patterns: Seq<(u32, PatternView)>,
) -> Seq<u8> {
    alcs_magic() + le32(ALCS_FORMAT_VERSION) + le32(v.version) + le32(v.scale_factor) + le64(v.observation_count)
        + le32(v.next_code) + seq![sensor.len() as u8] + sensor + le32(sources.len() as u32) + source_records(
        sources,
    ) + le32(patterns.len() as u32) + pattern_records(patterns)
}

/// A persisted context: the body, then the CRC-32 of the body.
pub open spec fn alcs_bytes(
    v: ContextView,
    sensor: Seq<u8>,
    sources: Seq<(u32, SourceStatsView)>,
    patterns: Seq<(u32, PatternView)>,
) -> Seq<u8> {
    let body = alcs_body(v, sensor, sources, patterns);
    body + le32(crc32_iso_hdlc(body))
}

/// The history bytes a source record declares: eight per value, saturating
/// at the largest `usize`.
pub open spec fn history_span(n: u32) -> int {
    if n * 8 > usize::MAX {
        usize::MAX as int
    } else {
        n * 8
    }
}

/// `n`, saturating at the largest `usize`.
pub open spec fn saturated(n: int) -> int {
    if n > usize::MAX {
        usize::MAX as int
    } else {
        n
    }
}

/// Prefixes `done` to the entries that a read gave, if it succeeded.
pub open spec fn after<V>(done: Seq<(u32, V)>, r: Result<(Seq<(u32, V)>, int), int>) -> Result<(Seq<(u32, V)>, int), int> {
    match r {
        Ok((rest, end)) => Ok((done + rest, end)),
        Err(n) => Err(n),
    }
}

/// The statistics a source record at `off` holds, with `n` history values.
pub open spec fn read_source_stats(d: Seq<u8>, off: int, n: u32) -> SourceStatsView {
    SourceStatsView {
        last_value_bits: read_le64(d, off + 12),
        ema_bits: read_le64(d, off + 20),
        ema_alpha_bits: read_le64(d, off + 28),
        count: read_le64(d, off + 4),
        sum_sq_diff_bits: read_le64(d, off + 36),
        mean_bits: read_le64(d, off + 44),
        history_bits: Seq::new(n as nat, |i: int| read_le64(d, off + 60 + 8 * i)),
        max_history: read_le32(d, off + 52) as usize,
    }
}

/// Reading `count` source records at `off`, none reaching past `limit`: the
/// sources and the offset after them, or the length that the first record
/// cut short needed.
pub open spec fn read_sources(d: Seq<u8>, off: int, count: nat, limit: int) -> Result<
    (Seq<(u32, SourceStatsView)>, int),
    int,
>
    decreases count,
{
    if count == 0 {
        Ok((Seq::empty(), off))
    } else if off + 56 > limit {
        Err(off + 56)
    } else if off + 60 > limit {
        Err(off + 60)
    } else if off + 60 + history_span(read_le32(d, off + 56)) > limit {
        Err(saturated(off + 60 + history_span(read_le32(d, off + 56))))
    } else {
        let n = read_le32(d, off + 56);
        after(
            seq![(read_le32(d, off), read_source_stats(d, off, n))],
            read_sources(d, off + 60 + history_span(n), (count - 1) as nat, limit),
        )
    }
}

/// The pattern a pattern record at `off` holds, with `len` bytes.
pub open spec fn read_pattern(d: Seq<u8>, off: int, len: int) -> PatternView {
    PatternView {
        data: d.subrange(off + 6, off + 6 + len),
        value_bits: None,
        frequency: read_le64(d, off + 6 + len),
        last_used: read_le64(d, off + 14 + len),
        created_at: read_le64(d, off + 22 + len),
    }
}

/// Reading `count` pattern records at `off`, none reaching past `limit`: the
/// patterns and the offset after them, or the length that the first record
/// cut short needed.
pub open spec fn read_patterns(d: Seq<u8>, off: int, count: nat, limit: int) -> Result<
    (Seq<(u32, PatternView)>, int),
    int,
>
    decreases count,
{
    if count == 0 {
        Ok((Seq::empty(), off))
    } else if off + 6 > limit {
        Err(off + 6)
    } else if off + 30 + read_le16(d, off + 4) > limit {
        Err(off + 30 + read_le16(d, off + 4))
    } else {
        let len = read_le16(d, off + 4) as int;
        after(
            seq![(read_le32(d, off), read_pattern(d, off, len))],
            read_patterns(d, off + 30 + len, (count - 1) as nat, limit),
        )
    }
}

/// What a persisted context holds.
pub struct AlcsContents {
    pub version: u32,
    pub scale_factor: u32,
    pub observation_count: u64,
    pub next_code: u32,
    pub sources: Seq<(u32, SourceStatsView)>,
    pub patterns: Seq<(u32, PatternView)>,
}

/// Why bytes are no persisted context.
pub enum AlcsFault {
    /// The bytes end before a part that needs this many
    TooShort { needed: int },
    /// The magic is not "ALCS"
    BadMagic,
    /// The stored checksum is not the one of the body
    BadChecksum { stored: u32, computed: u32 },
    /// The format version is not the one this library writes
    BadVersion { found: u32 },
    /// The records end at this offset, before the checksum
    Trailing { offset: int },
}

/// What a persisted context holds, once its patterns are read.
pub open spec fn after_patterns(
    d: Seq<u8>,
    sources: Seq<(u32, SourceStatsView)>,
    r: Result<(Seq<(u32, PatternView)>, int), int>,
) -> Result<AlcsContents, AlcsFault> {
    match r {
        Err(n) => Err(AlcsFault::TooShort { needed: n }),
        Ok((patterns, off3)) => if off3 != d.len() - 4 {
            Err(AlcsFault::Trailing { offset: off3 })
        } else {
            Ok(
                AlcsContents {
                    version: read_le32(d, 8),
                    scale_factor: read_le32(d, 12),
                    observation_count: read_le64(d, 16),
                    next_code: read_le32(d, 24),
                    sources,
                    patterns,
                },
            )
        },
    }
}

/// What a persisted context holds, once its sources are read.
pub open spec fn after_sources(d: Seq<u8>, r: Result<(Seq<(u32, SourceStatsView)>, int), int>) -> Result<
    AlcsContents,
    AlcsFault,
> {
    match r {
        Err(n) => Err(AlcsFault::TooShort { needed: n }),
        Ok((sources, off2)) => if off2 + 4 > d.len() - 4 {
            Err(AlcsFault::TooShort { needed: off2 + 4 })
        } else {
            after_patterns(d, sources, read_patterns(d, off2 + 4, read_le32(d, off2) as nat, d.len() - 4))
        },
    }
}

/// Reading a persisted context from `d`.
pub open spec fn alcs_read(d: Seq<u8>) -> Result<AlcsContents, AlcsFault> {
    if d.len() < 41 {
        Err(AlcsFault::TooShort { needed: 41 })
    } else if d.subrange(0, 4) != alcs_magic() {
        Err(AlcsFault::BadMagic)
    } else if read_le32(d, d.len() - 4) != crc32_iso_hdlc(d.subrange(0, d.len() - 4)) {
        Err(
            AlcsFault::BadChecksum {
                stored: read_le32(d, d.len() - 4),
                computed: crc32_iso_hdlc(d.subrange(0, d.len() - 4)),
            },
        )
    } else if read_le32(d, 4) != ALCS_FORMAT_VERSION {
        Err(AlcsFault::BadVersion { found: read_le32(d, 4) })
    } else if 33 + d[28] > d.len() - 4 {
        Err(AlcsFault::TooShort { needed: 33 + d[28] })
    } else {
        after_sources(d, read_sources(d, 33 + d[28], read_le32(d, 29 + d[28]) as nat, d.len() - 4))
    }
}

/// The index that filing the patterns of `s` one after the other builds.
pub open spec fn filed_index(s: Seq<(u32, PatternView)>) -> Map<u64, u32>
    decreases s.len(),
{
    if s.len() == 0 {
        Map::empty()
    } else {
        filed_index(s.drop_last()).insert(pattern_key(s.last().1.data), s.last().0)
    }
}

/// The context that persisted contents restore, with the default
/// configuration.
pub open spec fn restored_view(c: AlcsContents) -> ContextView {
    ContextView {
        version: c.version,
        observation_count: c.observation_count,
        patterns: filed(c.patterns),
        index: filed_index(c.patterns),
        next_code: c.next_code,
        sources: filed(c.sources),
        config: default_context_config(),
        scale_factor: c.scale_factor,
    }
}

/// Whether `e` is the error that reading bytes of length `len` reports for
/// fault `f`.
pub open spec fn alcs_error(f: AlcsFault, len: nat, e: AlecError) -> bool {
    match f {
        AlcsFault::TooShort { needed } => e == AlecError::Decode(
            DecodeError::BufferTooShort { needed: needed as usize, available: len as usize },
        ),
        AlcsFault::BadMagic => e == AlecError::Decode(DecodeError::InvalidHeader),
        AlcsFault::BadChecksum { stored, computed } => e == AlecError::Decode(
            DecodeError::InvalidChecksum { expected: stored, actual: computed },
        ),
        AlcsFault::BadVersion { found } => e matches AlecError::Decode(
            DecodeError::MalformedMessage { offset, reason },
        ) && offset == 4 && reason@ == "unsupported ALCS format version "@ + decimal(found as nat)
            + " (expected "@ + decimal(ALCS_FORMAT_VERSION as nat) + ")"@,
        AlcsFault::Trailing { offset: at } => e matches AlecError::Decode(
            DecodeError::MalformedMessage { offset, reason },
        ) && offset == at && reason@ == "trailing "@ + decimal((len - 4 - at) as nat)
            + " byte(s) between content and CRC"@,
    }
}

/// The context `v` without the pattern under `id`, nor the index entry of
/// its bytes.
pub open spec fn without_pattern(v: ContextView, id: u32) -> ContextView {
    ContextView {
        patterns: v.patterns.remove(id),
        index: if v.patterns.contains_key(id) {
            v.index.remove(pattern_key(v.patterns[id].data))
        } else {
            v.index
        },
        ..v
    }
}

/// The context `v` with pattern `p` under `id`, its bytes filed under
/// `id`, and the next code past `id`.
pub open spec fn with_pattern(v: ContextView, id: u32, p: PatternView) -> ContextView {
    ContextView {
        patterns: v.patterns.insert(id, p),
        index: v.index.insert(pattern_key(p.data), id),
        next_code: if id >= v.next_code {
            (id + 1) as u32
        } else {
            v.next_code
        },
        ..v
    }
}

/// The shared context between emitter and receiver.
#[derive(Debug, Clone)]
pub struct Context {
    /// Current version number
    version: u32,
    /// Total observation count (used for timestamps)
    observation_count: u64,
    /// Dictionary: code -> pattern, in ascending code order
    dictionary: Vec<(u32, Pattern)>,
    /// Reverse lookup: pattern digest -> code
    pattern_index: HashMap<u64, u32>,
    /// Next available code
    next_code: u32,
    /// Per-source statistics for prediction, in ascending source order
    source_stats: Vec<(u32, SourceStats)>,
    /// Configuration
    config: ContextConfig,
    /// Scale factor for delta encoding
    scale_factor: u32,
}

impl View for Context {
    type V = ContextView;

    closed spec fn view(&self) -> ContextView {
        ContextView {
            version: self.version,
            observation_count: self.observation_count,
            patterns: as_map(view_pairs(self.dictionary@)),
            index: self.pattern_index@,
            next_code: self.next_code,
            sources: as_map(view_pairs(self.source_stats@)),
            config: self.config,
            scale_factor: self.scale_factor,
        }
    }
}

impl Context {
    /// The dictionary and the statistics are kept in ascending key order.
    pub closed spec fn wf(&self) -> bool {
        sorted_keys(self.dictionary@) && sorted_keys(self.source_stats@)
    }

    /// The dictionary in ascending code order.
    pub closed spec fn pattern_seq(&self) -> Seq<(u32, PatternView)> {
        view_pairs(self.dictionary@)
    }

    /// The per-source statistics in ascending source order.
    pub closed spec fn source_seq(&self) -> Seq<(u32, SourceStatsView)> {
        view_pairs(self.source_stats@)
    }

    /// The ordered sequences stand for the maps of the view.
    pub proof fn lemma_ordered(&self)
        requires
            self.wf(),
        ensures
            sorted_keys(self.pattern_seq()),
            as_map(self.pattern_seq()) == self@.patterns,
            sorted_keys(self.source_seq()),
            as_map(self.source_seq()) == self@.sources,
    {
        lemma_view_pairs(self.dictionary@);
        lemma_view_pairs(self.source_stats@);
    }

    /// A fresh context with the default configuration.
    pub fn new() -> (r: Self)
        ensures
            r.wf(),
            r@ == empty_view(default_context_config()),
    {
        Self::with_config(ContextConfig::default())
    }

    /// A fresh context with the given configuration.
    pub fn with_config(config: ContextConfig) -> (r: Self)
        ensures
            r.wf(),
            r@ == empty_view(config),
    {
        let r = Context {
            version: 0,
            observation_count: 0,
            dictionary: Vec::new(),
            pattern_index: HashMap::new(),
            next_code: 0,
            source_stats: Vec::new(),
            config,
            scale_factor: DEFAULT_SCALE_FACTOR,
        };
        proof {
            lemma_empty_map(r.dictionary@);
            lemma_empty_map(r.source_stats@);
            lemma_empty_map(view_pairs(r.dictionary@));
            lemma_empty_map(view_pairs(r.source_stats@));
        }
        r
    }

    /// A fresh context with the default configuration but the given
    /// evolution settings.
    pub fn with_evolution(evolution_config: crate::context::EvolutionConfig) -> (r: Self)
        ensures
            r.wf(),
            r@ == empty_view(ContextConfig { evolution: evolution_config, ..default_context_config() }),
    {
        let mut config = ContextConfig::default();
        config.evolution = evolution_config;
        Self::with_config(config)
    }

    /// Total observation count.
    pub fn observation_count(&self) -> (r: u64)
        ensures
            r == self@.observation_count,
    {
        self.observation_count
    }

    /// Current version.
    pub fn version(&self) -> (r: u32)
        ensures
            r == self@.version,
    {
        self.version
    }

    /// Context version for sync checking (the same as `version`).
    pub fn context_version(&self) -> (r: u32)
        ensures
            r == self@.version,
    {
        self.version
    }

    /// Scale factor for delta encoding.
    pub fn scale_factor(&self) -> (r: u32)
        ensures
            r == self@.scale_factor,
    {
        self.scale_factor
    }

    /// The configuration.
    pub fn config(&self) -> (r: &ContextConfig)
        ensures
            *r == self@.config,
    {
        &self.config
    }

    /// Number of patterns in the dictionary.
    pub fn pattern_count(&self) -> (r: usize)
        ensures
            r == self.pattern_seq().len(),
    {
        self.dictionary.len()
    }

    /// Number of sources with statistics.
    pub fn source_count(&self) -> (r: usize)
        ensures
            r == self.source_seq().len(),
    {
        self.source_stats.len()
    }

    /// Hash of the dictionary, for sync verification: the 64-bit xxHash of
    /// every entry in ascending code order.
    pub fn hash(&self) -> (r: u64)
        requires
            self.wf(),
        ensures
            r == xxh64_digest(hash_input(self.pattern_seq()), 0),
    {
        let mut data: Vec<u8> = Vec::new();
        let mut i: usize = 0;
        while i < self.dictionary.len()
            invariant
                i <= self.dictionary@.len(),
                data@ == hash_input(self.pattern_seq().take(i as int)),
            decreases self.dictionary@.len() - i,
        {
            let code = self.dictionary[i].0;
            let p = &self.dictionary[i].1;
            push_be32(&mut data, code);
            push_be16(&mut data, (p.data.len() % 65536) as u16);
            push_all(&mut data, p.data.as_slice());
            proof {
                let s = self.pattern_seq();
                assert(s.take(i + 1).drop_last() =~= s.take(i as int));
                assert(data@ =~= hash_input(s.take(i + 1)));
            }
            i = i + 1;
        }
        proof {
            assert(self.pattern_seq().take(i as int) =~= self.pattern_seq());
        }
        xxh64(data.as_slice(), 0)
    }

    /// Whether the hash of the dictionary is `expected_hash`.
    pub fn verify(&self, expected_hash: u64) -> (r: bool)
        requires
            self.wf(),
        ensures
            r == (xxh64_digest(hash_input(self.pattern_seq()), 0) == expected_hash),
    {
        self.hash() == expected_hash
    }

    /// The memory the context is accounted for, in bytes.
    pub open spec fn spec_memory_usage(&self) -> int {
        patterns_footprint(self.pattern_seq()) + self.source_seq().len() * 200 + 256
    }

    /// Estimated memory usage in bytes: each pattern's bytes plus 32, 200 per
    /// source, 256 for the rest.
    pub fn memory_usage(&self) -> (r: usize)
        requires
            self.spec_memory_usage() <= usize::MAX,
        ensures
            r == self.spec_memory_usage(),
    {
        let ghost s = self.pattern_seq();
        let mut total: usize = 0;
        let mut i: usize = 0;
        while i < self.dictionary.len()
            invariant
                i <= self.dictionary@.len(),
                s == self.pattern_seq(),
                total == patterns_footprint(s.take(i as int)),
                patterns_footprint(s) + self.source_seq().len() * 200 + 256 <= usize::MAX,
            decreases self.dictionary@.len() - i,
        {
            proof {
                assert(s.take(i + 1).drop_last() =~= s.take(i as int));
                lemma_footprint_prefix(s, i + 1);
            }
            total = total + self.dictionary[i].1.data.len() + 32;
            i = i + 1;
        }
        proof {
            assert(s.take(i as int) =~= s);
        }
        total + self.source_stats.len() * 200 + 256
    }

    /// Alias of `memory_usage`.
    pub fn estimated_memory(&self) -> (r: usize)
        requires
            self.spec_memory_usage() <= usize::MAX,
        ensures
            r == self.spec_memory_usage(),
    {
        self.memory_usage()
    }

    /// Registers a pattern. Bytes already filed under the same digest give
    /// the code they were filed under, and that pattern counts one more use;
    /// new bytes take the next code.
    pub fn register_pattern(&mut self, pattern: Pattern) -> (r: Result<u32, AlecError>)
        requires
            old(self).wf(),
            register_fits(old(self)@, old(self).pattern_seq().len(), pattern@),
        ensures
            final(self).wf(),
            (final(self)@, r) == registered(old(self)@, old(self).pattern_seq().len(), pattern@),
    {
        if self.dictionary.len() >= self.config.max_patterns {
            return Err(AlecError::Context(ContextError::DictionaryFull { max: self.config.max_patterns }));
        }
        if pattern.data.len() > MAX_PATTERN_SIZE {
            return Err(
                AlecError::Context(
                    ContextError::PatternTooLarge { size: pattern.data.len(), max: MAX_PATTERN_SIZE },
                ),
            );
        }
        let h = xxh64(pattern.data.as_slice(), 0);
        let existing = match self.pattern_index.get(&h) {
            Some(c) => Some(*c),
            None => None,
        };
        match existing {
            Some(code) => {
                let ghost before = self.dictionary@;
                match get_value(&self.dictionary, code) {
                    Some(p) => {
                        proof {
                            lemma_view_pairs(before);
                            assert(as_map(view_pairs(before)).contains_key(code));
                        }
                        let mut q = p.duplicate();
                        q.frequency = q.frequency + 1;
                        insert_value(&mut self.dictionary, code, q);
                        proof {
                            lemma_view_insert(before, self.dictionary@, code, q);
                            lemma_view_pairs(before);
                        }
                    },
                    None => {
                        proof {
                            lemma_view_pairs(before);
                        }
                    },
                }
                Ok(code)
            },
            None => {
                let code = self.next_code;
                self.next_code = code + 1;
                self.pattern_index.insert(h, code);
                let ghost before = self.dictionary@;
                let ghost pv = pattern@;
                insert_value(&mut self.dictionary, code, pattern);
                proof {
                    lemma_view_insert(before, self.dictionary@, code, pattern);
                }
                self.version = self.version + 1;
                Ok(code)
            },
        }
    }

    /// The pattern under `code`.
    pub fn get_pattern(&self, code: u32) -> (r: Option<&Pattern>)
        requires
            self.wf(),
        ensures
            match r {
                Some(p) => self@.patterns.contains_key(code) && p@ == self@.patterns[code],
                None => !self@.patterns.contains_key(code),
            },
    {
        proof {
            lemma_view_pairs(self.dictionary@);
        }
        get_value(&self.dictionary, code)
    }

    /// The code that the index files `data` under.
    pub fn find_pattern(&self, data: &[u8]) -> (r: Option<u32>)
        ensures
            r == (if self@.index.contains_key(pattern_key(data@)) {
                Some(self@.index[pattern_key(data@)])
            } else {
                None::<u32>
            }),
    {
        let h = xxh64(data, 0);
        match self.pattern_index.get(&h) {
            Some(c) => Some(*c),
            None => None,
        }
    }

    /// Removes the pattern under `id`, and the index entry of its bytes.
    pub fn remove_pattern(&mut self, id: u32)
        requires
            old(self).wf(),
        ensures
            final(self).wf(),
            final(self)@ == without_pattern(old(self)@, id),
    {
        let ghost before = self.dictionary@;
        proof {
            lemma_view_pairs(before);
        }
        match remove_key(&mut self.dictionary, id) {
            Some(p) => {
                proof {
                    lemma_view_remove(before, self.dictionary@, id);
                }
                let h = xxh64(p.data.as_slice(), 0);
                self.pattern_index.remove(&h);
            },
            None => {
                proof {
                    lemma_view_remove(before, self.dictionary@, id);
                }
            },
        }
    }

    /// Stores `pattern` under `id` and files its bytes under `id`.
    pub fn set_pattern(&mut self, id: u32, pattern: Pattern)
        requires
            old(self).wf(),
            id < u32::MAX,
        ensures
            final(self).wf(),
            final(self)@ == with_pattern(old(self)@, id, pattern@),
    {
        let h = xxh64(pattern.data.as_slice(), 0);
        self.pattern_index.insert(h, id);
        let ghost before = self.dictionary@;
        insert_value(&mut self.dictionary, id, pattern);
        proof {
            lemma_view_insert(before, self.dictionary@, id, pattern);
        }
        if id >= self.next_code {
            self.next_code = id + 1;
        }
    }

    /// Whether a pattern is stored under `id`.
    pub fn has_pattern(&self, id: u32) -> (r: bool)
        requires
            self.wf(),
        ensures
            r == self@.patterns.contains_key(id),
    {
        proof {
            lemma_view_pairs(self.dictionary@);
        }
        find_key(&self.dictionary, id).is_some()
    }

    /// The dictionary entries in ascending code order.
    pub fn patterns_iter(&self) -> (r: &[(u32, Pattern)])
        ensures
            view_pairs(r@) == self.pattern_seq(),
    {
        self.dictionary.as_slice()
    }

    /// The digests that the index files patterns under, each once, in the
    /// order the index is walked (which is unspecified).
    pub fn pattern_hashes(&self) -> (r: Vec<u64>)
        ensures
            r@.to_set() == self@.index.dom(),
            r@.no_duplicates(),
    {
        let mut r: Vec<u64> = Vec::new();
        for h in it: self.pattern_index.keys()
            invariant
                r@ == it.seq().take(it.index() as int).unref(),
                it.seq().unref().to_set() == self@.index.dom(),
                it.seq().no_duplicates(),
                it.index() == it.seq().len() ==> r@ == it.seq().unref(),
        {
            r.push(*h);
            assert(r@ =~= it.seq().take(it.index() + 1).unref());
            assert(it.seq().take(it.seq().len() as int) =~= it.seq());
        }
        r
    }

    /// The codes of the dictionary in ascending order.
    pub fn pattern_ids(&self) -> (r: Vec<u32>)
        ensures
            r@ == keys_of(self.pattern_seq()),
    {
        let mut r: Vec<u32> = Vec::new();
        let mut i: usize = 0;
        while i < self.dictionary.len()
            invariant
                i <= self.dictionary@.len(),
                r@ == keys_of(self.pattern_seq().take(i as int)),
            decreases self.dictionary@.len() - i,
        {
            r.push(self.dictionary[i].0);
            i = i + 1;
            assert(r@ =~= keys_of(self.pattern_seq().take(i as int)));
        }
        assert(self.pattern_seq().take(i as int) =~= self.pattern_seq());
        r
    }

    /// Removes the patterns that pruning at time `current_time` does not
    /// keep, with the index entries of their bytes.
    pub fn prune_patterns(&mut self, current_time: u64)
        requires
            old(self).wf(),
        ensures
            final(self).wf(),
            final(self)@ == (ContextView {
                patterns: pruned(
                    old(self)@.patterns,
                    current_time,
                    old(self)@.config.evolution,
                    old(self)@.patterns.dom(),
                ),
                index: old(self)@.index.remove_keys(
                    pruned_digests(
                        old(self)@.patterns,
                        current_time,
                        old(self)@.config.evolution,
                        old(self)@.patterns.dom(),
                    ),
                ),
                ..old(self)@
            }),
            forall|c: u32| #[trigger]
                final(self)@.patterns.contains_key(c) <==> (old(self)@.patterns.contains_key(c)
                    && old(self)@.patterns[c].frequency >= old(self)@.config.evolution.min_frequency && (
                if current_time >= old(self)@.patterns[c].last_used {
                    current_time - old(self)@.patterns[c].last_used
                } else {
                    0
                }) <= old(self)@.config.evolution.max_age),
    {
        let ghost v0 = self@;
        let e = self.config.evolution;
        let ids = self.pattern_ids();
        proof {
            self.lemma_ordered();
            lemma_keys_of(self.pattern_seq());
            assert(pruned(v0.patterns, current_time, e, Set::empty()) =~= v0.patterns);
            assert(pruned_digests(v0.patterns, current_time, e, Set::empty()) =~= Set::empty());
            assert(v0.index.remove_keys(Set::empty()) =~= v0.index);
        }
        let ghost mut done: Set<u32> = Set::empty();
        let mut i: usize = 0;
        while i < ids.len()
            invariant
                self.wf(),
                i <= ids@.len(),
                ids@.no_duplicates(),
                forall|k: u32| ids@.contains(k) <==> #[trigger] v0.patterns.contains_key(k),
                forall|k: u32| done.contains(k) <==> (exists|j: int| 0 <= j < i && ids@[j] == k),
                e == v0.config.evolution,
                self@ == (ContextView {
                    patterns: pruned(v0.patterns, current_time, e, done),
                    index: v0.index.remove_keys(pruned_digests(v0.patterns, current_time, e, done)),
                    ..v0
                }),
            decreases ids@.len() - i,
        {
            let code = ids[i];
            proof {
                assert(ids@.contains(code));
                assert(!done.contains(code)) by {
                    if done.contains(code) {
                        let j = choose|j: int| 0 <= j < i && ids@[j] == code;
                        assert(ids@[j] == ids@[i as int]);
                    }
                }
                assert(self@.patterns.contains_key(code));
            }
            let keep = match self.get_pattern(code) {
                Some(p) => {
                    let age = if current_time >= p.last_used {
                        current_time - p.last_used
                    } else {
                        0
                    };
                    p.frequency >= e.min_frequency && age <= e.max_age
                },
                None => true,
            };
            let ghost old_patterns = self@.patterns;
            let ghost old_index = self@.index;
            let ghost d1 = done.insert(code);
            proof {
                assert(keep == keeps(v0.patterns[code], current_time, e));
            }
            if !keep {
                self.remove_pattern(code);
                proof {
                    let h = pattern_key(v0.patterns[code].data);
                    assert(pruned(v0.patterns, current_time, e, d1) =~= old_patterns.remove(code));
                    let dd = pruned_digests(v0.patterns, current_time, e, done);
                    assert(pruned_digests(v0.patterns, current_time, e, d1) =~= dd.insert(h)) by {
                        assert forall|x: u64| #[trigger] pruned_digests(v0.patterns, current_time, e, d1).contains(x)
                            implies dd.insert(h).contains(x) by {
                            let k = choose|k: u32|
                                #![trigger v0.patterns[k]]
                                v0.patterns.contains_key(k) && d1.contains(k) && !keeps(v0.patterns[k], current_time, e)
                                    && pattern_key(v0.patterns[k].data) == x;
                            if k != code {
                                assert(dd.contains(x));
                            }
                        }
                        assert(pruned_digests(v0.patterns, current_time, e, d1).contains(h));
                        assert forall|x: u64| #[trigger] dd.contains(x) implies pruned_digests(
                            v0.patterns,
                            current_time,
                            e,
                            d1,
                        ).contains(x) by {
                            let k = choose|k: u32|
                                #![trigger v0.patterns[k]]
                                v0.patterns.contains_key(k) && done.contains(k) && !keeps(v0.patterns[k], current_time, e)
                                    && pattern_key(v0.patterns[k].data) == x;
                            assert(d1.contains(k));
                        }
                    }
                    assert(v0.index.remove_keys(dd.insert(h)) =~= v0.index.remove_keys(dd).remove(h));
                }
            } else {
                proof {
                    assert(pruned(v0.patterns, current_time, e, d1) =~= old_patterns);
                    assert(pruned_digests(v0.patterns, current_time, e, d1) =~= pruned_digests(
                        v0.patterns,
                        current_time,
                        e,
                        done,
                    )) by {
                        assert forall|x: u64| #[trigger] pruned_digests(v0.patterns, current_time, e, d1).contains(x)
                            implies pruned_digests(v0.patterns, current_time, e, done).contains(x) by {
                            let k = choose|k: u32|
                                #![trigger v0.patterns[k]]
                                v0.patterns.contains_key(k) && d1.contains(k) && !keeps(v0.patterns[k], current_time, e)
                                    && pattern_key(v0.patterns[k].data) == x;
                            assert(k != code);
                        }
                        assert forall|x: u64| #[trigger] pruned_digests(v0.patterns, current_time, e, done).contains(x)
                            implies pruned_digests(v0.patterns, current_time, e, d1).contains(x) by {
                            let k = choose|k: u32|
                                #![trigger v0.patterns[k]]
                                v0.patterns.contains_key(k) && done.contains(k) && !keeps(v0.patterns[k], current_time, e)
                                    && pattern_key(v0.patterns[k].data) == x;
                            assert(d1.contains(k));
                        }
                    }
                }
            }
            proof {
                done = d1;
                assert forall|k: u32| done.contains(k) <==> (exists|j: int| 0 <= j < i + 1 && ids@[j] == k) by {
                    if k == code {
                        assert(ids@[i as int] == k);
                    }
                }
            }
            i = i + 1;
        }
        proof {
            assert(done =~= v0.patterns.dom()) by {
                assert forall|k: u32| done.contains(k) <==> v0.patterns.dom().contains(k) by {
                    if v0.patterns.contains_key(k) {
                        assert(ids@.contains(k));
                        let j = choose|j: int| 0 <= j < ids@.len() && ids@[j] == k;
                        assert(0 <= j < i && ids@[j] == k);
                    }
                    if done.contains(k) {
                        let j = choose|j: int| 0 <= j < i && ids@[j] == k;
                        assert(ids@.contains(k));
                    }
                }
            }
        }
    }

    /// Renumbers the dictionary: the pattern under `order[i]` gets code `i`,
    /// the index is rebuilt in that order and the next code follows the
    /// last. An empty dictionary is left as it is.
    pub fn reorder_patterns(&mut self, order: &[u32])
        requires
            old(self).wf(),
            order@.len() == old(self).pattern_seq().len(),
            order@.no_duplicates(),
            forall|i: int| 0 <= i < order@.len() ==> #[trigger] old(self)@.patterns.contains_key(order@[i]),
            order@.len() <= u32::MAX,
        ensures
            final(self).wf(),
            final(self)@ == if order@.len() == 0 {
                old(self)@
            } else {
                ContextView {
                    patterns: reordered(old(self)@.patterns, order@),
                    index: reindexed(old(self)@.patterns, order@),
                    next_code: order@.len() as u32,
                    ..old(self)@
                }
            },
    {
        if self.dictionary.len() == 0 {
            return;
        }
        let ghost v0 = self@;
        proof {
            self.lemma_ordered();
        }
        let mut dict: Vec<(u32, Pattern)> = Vec::new();
        let mut index: HashMap<u64, u32> = HashMap::new();
        proof {
            lemma_empty_map(dict@);
            lemma_empty_map(view_pairs(dict@));
            assert(reordered(v0.patterns, order@.take(0)) =~= Map::empty());
        }
        let mut j: usize = 0;
        while j < order.len()
            invariant
                self.wf(),
                self@ == v0,
                j <= order@.len(),
                order@.len() <= u32::MAX,
                forall|i: int| 0 <= i < order@.len() ==> #[trigger] v0.patterns.contains_key(order@[i]),
                sorted_keys(dict@),
                dict@.len() == j,
                forall|m: int| 0 <= m < dict@.len() ==> dict@[m].0 == m,
                as_map(view_pairs(dict@)) == reordered(v0.patterns, order@.take(j as int)),
                index@ == reindexed(v0.patterns, order@.take(j as int)),
            decreases order@.len() - j,
        {
            let code = order[j];
            proof {
                assert(v0.patterns.contains_key(order@[j as int]));
            }
            let q = match self.get_pattern(code) {
                Some(p) => p.duplicate(),
                None => {
                    proof {
                        assert(false);
                    }
                    Pattern::new(Vec::new())
                },
            };
            let h = xxh64(q.data.as_slice(), 0);
            index.insert(h, j as u32);
            let ghost before = dict@;
            dict.push((j as u32, q));
            proof {
                lemma_as_map_push(before, j as u32, q);
                lemma_view_insert(before, dict@, j as u32, q);
                let t = order@.take(j + 1);
                assert(t.drop_last() =~= order@.take(j as int));
                assert(reordered(v0.patterns, t) =~= reordered(v0.patterns, order@.take(j as int)).insert(
                    j as u32,
                    q@,
                ));
                assert(index@ == reindexed(v0.patterns, t));
            }
            j = j + 1;
        }
        proof {
            assert(order@.take(j as int) =~= order@);
        }
        self.dictionary = dict;
        self.pattern_index = index;
        self.next_code = j as u32;
    }

    /// The full export of the dictionary for synchronization.
    pub fn export_full(&self) -> (r: Vec<u8>)
        requires
            self.wf(),
        ensures
            r@ == export_bytes(self@.version, xxh64_digest(hash_input(self.pattern_seq()), 0), self.pattern_seq()),
    {
        let mut data: Vec<u8> = Vec::new();
        push_be32(&mut data, self.version);
        push_be64(&mut data, self.hash());
        push_be16(&mut data, (self.dictionary.len() % 65536) as u16);
        let ghost head = data@;
        let mut i: usize = 0;
        while i < self.dictionary.len()
            invariant
                i <= self.dictionary@.len(),
                data@ == head + export_entries(self.pattern_seq().take(i as int)),
            decreases self.dictionary@.len() - i,
        {
            let code = self.dictionary[i].0;
            let p = &self.dictionary[i].1;
            push_be32(&mut data, code);
            data.push((p.data.len() % 256) as u8);
            push_all(&mut data, p.data.as_slice());
            proof {
                let s = self.pattern_seq();
                assert(s.take(i + 1).drop_last() =~= s.take(i as int));
                assert(data@ =~= head + export_entries(s.take(i + 1)));
            }
            i = i + 1;
        }
        proof {
            assert(self.pattern_seq().take(i as int) =~= self.pattern_seq());
            assert(data@ =~= export_bytes(
                self@.version,
                xxh64_digest(hash_input(self.pattern_seq()), 0),
                self.pattern_seq(),
            ));
        }
        data
    }

    /// The export of the changes since `_from_version`: the full export.
    pub fn export_diff(&self, _from_version: u32) -> (r: Vec<u8>)
        requires
            self.wf(),
        ensures
            r@ == export_bytes(self@.version, xxh64_digest(hash_input(self.pattern_seq()), 0), self.pattern_seq()),
    {
        self.export_full()
    }

    /// Replaces the dictionary by the one a full export holds. The entries
    /// are stored as they are read; a record cut short stops the import with
    /// the entries before it stored. The version is taken only once every
    /// record is read, and the hash of the result is checked against the
    /// exported one.
    pub fn import_full(&mut self, data: &[u8]) -> (r: Result<(), AlecError>)
        requires
            old(self).wf(),
            data@.len() >= 14 ==> forall|i: int|
                0 <= i < import_of(data@).0.len() ==> #[trigger] import_of(data@).0[i].0 < u32::MAX,
        ensures
            final(self).wf(),
            data@.len() < 14 ==> final(self)@ == old(self)@ && (r matches Err(
                AlecError::Context(ContextError::SyncFailed { reason }),
            ) && reason@ == "Data too short"@),
            data@.len() >= 14 ==> {
                let (e, fault) = import_of(data@);
                let base = ContextView {
                    patterns: imported_patterns(e),
                    index: imported_index(e),
                    next_code: imported_next_code(e),
                    ..old(self)@
                };
                &&& fault == Some(false) ==> final(self)@ == base && (r matches Err(
                    AlecError::Context(ContextError::SyncFailed { reason }),
                ) && reason@ == "Truncated data"@)
                &&& fault == Some(true) ==> final(self)@ == base && (r matches Err(
                    AlecError::Context(ContextError::SyncFailed { reason }),
                ) && reason@ == "Truncated pattern data"@)
                &&& fault is None ==> {
                    let computed = xxh64_digest(hash_input(final(self).pattern_seq()), 0);
                    &&& final(self)@ == (ContextView { version: read_be32(data@, 0), ..base })
                    &&& r == if computed == read_be64(data@, 4) {
                        Ok::<(), AlecError>(())
                    } else {
                        Err(
                            AlecError::Context(
                                ContextError::HashMismatch { expected: read_be64(data@, 4), actual: computed },
                            ),
                        )
                    }
                }
            },
    {
        if data.len() < 14 {
            return Err(AlecError::Context(ContextError::SyncFailed { reason: "Data too short".to_string() }));
        }
        let version = get_be32(data, 0);
        let hash = get_be64(data, 4);
        let count = get_be16(data, 12) as usize;
        let ghost v0 = self@;
        let ghost full = import_of(data@);
        self.dictionary = Vec::new();
        self.pattern_index.clear();
        self.next_code = 0;
        proof {
            lemma_empty_map(self.dictionary@);
            lemma_empty_map(view_pairs(self.dictionary@));
            assert(imported_patterns(Seq::empty()) =~= Map::empty());
            assert(full.0 =~= Seq::empty() + import_entries(data@, 14, count as nat).0);
        }
        let ghost mut done: Seq<(u32, Seq<u8>)> = Seq::empty();
        let mut offset: usize = 14;
        let mut k: usize = 0;
        while k < count
            invariant
                self.wf(),
                14 <= offset <= data@.len(),
                k <= count,
                count == read_be16(data@, 12),
                v0 == old(self)@,
                full == import_of(data@),
                full.0 == done + import_entries(data@, offset as int, (count - k) as nat).0,
                full.1 == import_entries(data@, offset as int, (count - k) as nat).1,
                forall|i: int| 0 <= i < full.0.len() ==> #[trigger] full.0[i].0 < u32::MAX,
                self@ == (ContextView {
                    patterns: imported_patterns(done),
                    index: imported_index(done),
                    next_code: imported_next_code(done),
                    ..v0
                }),
            decreases count - k,
        {
            if data.len() - offset < 5 {
                proof {
                    assert(full.0 =~= done);
                }
                return Err(AlecError::Context(ContextError::SyncFailed { reason: "Truncated data".to_string() }));
            }
            let code = get_be32(data, offset);
            let len = data[offset + 4] as usize;
            if data.len() - offset - 5 < len {
                proof {
                    assert(full.0 =~= done);
                }
                return Err(
                    AlecError::Context(ContextError::SyncFailed { reason: "Truncated pattern data".to_string() }),
                );
            }
            let start = offset + 5;
            let pattern_data = copy_range(data, start, start + len);
            let ghost rest = import_entries(data@, (start + len) as int, (count - k - 1) as nat);
            proof {
                assert(full.0 == done.push((code, pattern_data@)) + rest.0) by {
                    assert(done + (seq![(code, pattern_data@)] + rest.0) =~= done.push((code, pattern_data@))
                        + rest.0);
                }
                assert(full.0[done.len() as int] == (code, pattern_data@));
                assert(full.0[done.len() as int].0 < u32::MAX);
            }
            offset = start + len;
            let h = xxh64(pattern_data.as_slice(), 0);
            let ghost before = self.dictionary@;
            let p = Pattern::new(pattern_data);
            insert_value(&mut self.dictionary, code, p);
            proof {
                lemma_view_insert(before, self.dictionary@, code, p);
            }
            self.pattern_index.insert(h, code);
            if code >= self.next_code {
                self.next_code = code + 1;
            }
            proof {
                let d1 = done.push((code, p.data@));
                assert(d1.drop_last() =~= done);
                done = d1;
            }
            k = k + 1;
        }
        self.version = version;
        let computed = self.hash();
        if computed != hash {
            return Err(AlecError::Context(ContextError::HashMismatch { expected: hash, actual: computed }));
        }
        Ok(())
    }

    /// The persisted form of this context under sensor type `sensor`.
    pub open spec fn spec_preload_bytes(&self, sensor: Seq<u8>) -> Seq<u8> {
        alcs_bytes(self@, sensor, self.source_seq(), self.pattern_seq())
    }

    /// The persisted form of this context, up to its checksum.
    fn preload_body(&self, sensor: &[u8]) -> (r: Vec<u8>)
        requires
            sensor@.len() <= 255,
        ensures
            r@ == alcs_body(self@, sensor@, self.source_seq(), self.pattern_seq()),
    {
        let mut out: Vec<u8> = Vec::new();
        out.push(0x41u8);
        out.push(0x4Cu8);
        out.push(0x43u8);
        out.push(0x53u8);
        push_le32(&mut out, ALCS_FORMAT_VERSION);
        push_le32(&mut out, self.version);
        push_le32(&mut out, self.scale_factor);
        push_le64(&mut out, self.observation_count);
        push_le32(&mut out, self.next_code);
        out.push(sensor.len() as u8);
        push_all(&mut out, sensor);
        push_le32(&mut out, self.source_stats.len() as u32);
        let ghost head = out@;
        let mut i: usize = 0;
        while i < self.source_stats.len()
            invariant
                i <= self.source_stats@.len(),
                out@ == head + source_records(self.source_seq().take(i as int)),
            decreases self.source_stats@.len() - i,
        {
            let id = self.source_stats[i].0;
            let st = &self.source_stats[i].1;
            push_source_record(&mut out, id, st);
            proof {
                let sq = self.source_seq();
                assert(sq.take(i + 1).drop_last() =~= sq.take(i as int));
                assert(sq[i as int] == (id, st@));
                assert(out@ =~= head + source_records(sq.take(i + 1)));
            }
            i = i + 1;
        }
        proof {
            assert(self.source_seq().take(i as int) =~= self.source_seq());
        }
        push_le32(&mut out, self.dictionary.len() as u32);
        let ghost head2 = out@;
        let mut k: usize = 0;
        while k < self.dictionary.len()
            invariant
                k <= self.dictionary@.len(),
                out@ == head2 + pattern_records(self.pattern_seq().take(k as int)),
            decreases self.dictionary@.len() - k,
        {
            let code = self.dictionary[k].0;
            let p = &self.dictionary[k].1;
            let kept = if p.data.len() > 65535 {
                65535
            } else {
                p.data.len()
            };
            push_le32(&mut out, code);
            push_le16(&mut out, kept as u16);
            let part = copy_range(p.data.as_slice(), 0, kept);
            push_all(&mut out, part.as_slice());
            push_le64(&mut out, p.frequency);
            push_le64(&mut out, p.last_used);
            push_le64(&mut out, p.created_at);
            proof {
                let pq = self.pattern_seq();
                assert(pq.take(k + 1).drop_last() =~= pq.take(k as int));
                assert(pq[k as int] == (code, p@));
                assert(part@ =~= p.data@.take(kept as int));
                assert(out@ =~= head2 + pattern_records(pq.take(k + 1)));
            }
            k = k + 1;
        }
        proof {
            assert(self.pattern_seq().take(k as int) =~= self.pattern_seq());
            assert(out@ =~= alcs_body(self@, sensor@, self.source_seq(), self.pattern_seq()));
        }
        out
    }

    /// The persisted form of this context under the given sensor bytes.
    fn preload_vec(&self, sensor: &[u8]) -> (r: Vec<u8>)
        requires
            sensor@.len() <= 255,
        ensures
            r@ == self.spec_preload_bytes(sensor@),
    {
        let mut out = self.preload_body(sensor);
        let crc = crc32_iso_hdlc_checksum(out.as_slice());
        push_le32(&mut out, crc);
        out
    }

    /// Number of bytes the persisted form of this context takes under
    /// `sensor_type`, which must be at most 255 bytes long.
    pub fn preload_bytes_len(&self, sensor_type: &str) -> (r: Result<usize, AlecError>)
        requires
            sensor_type.spec_bytes().len() <= 255 ==> self.spec_preload_bytes(sensor_type.spec_bytes()).len()
                <= usize::MAX,
        ensures
            sensor_type.spec_bytes().len() > 255 ==> r == Err::<usize, AlecError>(
                AlecError::Context(
                    ContextError::PatternTooLarge { size: sensor_type.spec_bytes().len() as usize, max: 255 },
                ),
            ),
            sensor_type.spec_bytes().len() <= 255 ==> r == Ok::<usize, AlecError>(
                self.spec_preload_bytes(sensor_type.spec_bytes()).len() as usize,
            ),
    {
        let sens = sensor_type.as_bytes();
        if sens.len() > 255 {
            return Err(AlecError::Context(ContextError::PatternTooLarge { size: sens.len(), max: 255 }));
        }
        let ghost total = self.spec_preload_bytes(sens@).len();
        let ghost body = alcs_body(self@, sens@, self.source_seq(), self.pattern_seq());
        let ghost sq = self.source_seq();
        let ghost pq = self.pattern_seq();
        proof {
            lemma_le64_roundtrip(self.observation_count);
            lemma_body_len(self@, sens@, sq, pq);
        }
        let mut n: usize = 29 + sens.len() + 4;
        let mut i: usize = 0;
        while i < self.source_stats.len()
            invariant
                i <= self.source_stats@.len(),
                sq == self.source_seq(),
                pq == self.pattern_seq(),
                total == 33 + sens@.len() + source_records(sq).len() + 4 + pattern_records(pq).len() + 4,
                total <= usize::MAX,
                n == 33 + sens@.len() + source_records(sq.take(i as int)).len(),
            decreases self.source_stats@.len() - i,
        {
            proof {
                lemma_source_records_prefix(sq, i + 1);
                assert(sq.take(i + 1).drop_last() =~= sq.take(i as int));
                lemma_source_record_len(sq[i as int].0, sq[i as int].1);
            }
            n = n + 60 + self.source_stats[i].1.history_bits.len() * 8;
            i = i + 1;
        }
        proof {
            assert(sq.take(i as int) =~= sq);
        }
        n = n + 4;
        let mut k: usize = 0;
        while k < self.dictionary.len()
            invariant
                k <= self.dictionary@.len(),
                pq == self.pattern_seq(),
                total == 33 + sens@.len() + source_records(sq).len() + 4 + pattern_records(pq).len() + 4,
                total <= usize::MAX,
                n == 37 + sens@.len() + source_records(sq).len() + pattern_records(pq.take(k as int)).len(),
            decreases self.dictionary@.len() - k,
        {
            proof {
                lemma_pattern_records_prefix(pq, k + 1);
                assert(pq.take(k + 1).drop_last() =~= pq.take(k as int));
                lemma_pattern_record_len(pq[k as int].0, pq[k as int].1);
            }
            let dl = self.dictionary[k].1.data.len();
            let kept = if dl > 65535 {
                65535
            } else {
                dl
            };
            n = n + 30 + kept;
            k = k + 1;
        }
        proof {
            assert(pq.take(k as int) =~= pq);
        }
        Ok(n + 4)
    }

    /// The persisted form of this context under `sensor_type` (at most 255
    /// bytes), in a new vector.
    pub fn to_preload_bytes(&self, sensor_type: &str) -> (r: Result<Vec<u8>, AlecError>)
        requires
            sensor_type.spec_bytes().len() <= 255 ==> self.spec_preload_bytes(sensor_type.spec_bytes()).len()
                <= usize::MAX,
        ensures
            sensor_type.spec_bytes().len() > 255 ==> (r matches Err(e) && e == AlecError::Context(
                ContextError::PatternTooLarge { size: sensor_type.spec_bytes().len() as usize, max: 255 },
            )),
            sensor_type.spec_bytes().len() <= 255 ==> (r matches Ok(v) && v@ == self.spec_preload_bytes(
                sensor_type.spec_bytes(),
            )),
    {
        match self.preload_bytes_len(sensor_type) {
            Ok(_) => Ok(self.preload_vec(sensor_type.as_bytes())),
            Err(e) => Err(e),
        }
    }

    /// Writes the persisted form of this context under `sensor_type` at the
    /// start of `out` and returns its length. A buffer too small is left as
    /// it is.
    pub fn write_preload_bytes(&self, sensor_type: &str, out: &mut [u8]) -> (r: Result<usize, AlecError>)
        requires
            sensor_type.spec_bytes().len() <= 255 ==> self.spec_preload_bytes(sensor_type.spec_bytes()).len()
                <= usize::MAX,
        ensures
            sensor_type.spec_bytes().len() > 255 ==> final(out)@ == old(out)@ && r == Err::<usize, AlecError>(
                AlecError::Context(
                    ContextError::PatternTooLarge { size: sensor_type.spec_bytes().len() as usize, max: 255 },
                ),
            ),
            sensor_type.spec_bytes().len() <= 255 ==> {
                let bytes = self.spec_preload_bytes(sensor_type.spec_bytes());
                &&& old(out)@.len() < bytes.len() ==> final(out)@ == old(out)@ && r == Err::<usize, AlecError>(
                    AlecError::Encode(
                        EncodeError::BufferTooSmall {
                            needed: bytes.len() as usize,
                            available: old(out)@.len() as usize,
                        },
                    ),
                )
                &&& old(out)@.len() >= bytes.len() ==> r == Ok::<usize, AlecError>(bytes.len() as usize)
                    && final(out)@ == bytes + old(out)@.subrange(bytes.len() as int, old(out)@.len() as int)
            },
    {
        let sens = sensor_type.as_bytes();
        if sens.len() > 255 {
            return Err(AlecError::Context(ContextError::PatternTooLarge { size: sens.len(), max: 255 }));
        }
        let needed = match self.preload_bytes_len(sensor_type) {
            Ok(n) => n,
            Err(e) => {
                return Err(e);
            },
        };
        if out.len() < needed {
            return Err(AlecError::Encode(EncodeError::BufferTooSmall { needed, available: out.len() }));
        }
        let bytes = self.preload_vec(sens);
        let ghost start = out@;
        let mut i: usize = 0;
        while i < needed
            invariant
                i <= needed,
                needed == bytes@.len(),
                out@.len() == start.len(),
                needed <= start.len(),
                forall|j: int| 0 <= j < i ==> out@[j] == bytes@[j],
                forall|j: int| needed <= j < start.len() ==> out@[j] == start[j],
            decreases needed - i,
        {
            out[i] = bytes[i];
            i = i + 1;
        }
        assert(out@ =~= bytes@ + start.subrange(needed as int, start.len() as int));
        Ok(needed)
    }

    /// Restores a context from its persisted form; the configuration is the
    /// default one, the index is rebuilt from the patterns read.
    pub fn from_preload_bytes(data: &[u8]) -> (r: Result<Context, AlecError>)
        requires
            data@.len() <= isize::MAX,
        ensures
            match r {
                Ok(ctx) => ctx.wf() && (alcs_read(data@) matches Ok(c) && ctx@ == restored_view(c)),
                Err(e) => alcs_read(data@) matches Err(f) && alcs_error(f, data@.len(), e),
            },
    {
        let ghost d = data@;
        if data.len() < 41 {
            return Err(AlecError::Decode(DecodeError::BufferTooShort { needed: 41, available: data.len() }));
        }
        if data[0] != 0x41 || data[1] != 0x4C || data[2] != 0x43 || data[3] != 0x53 {
            proof {
                if d.subrange(0, 4) == alcs_magic() {
                    assert(d.subrange(0, 4)[0] == d[0] && d.subrange(0, 4)[1] == d[1] && d.subrange(0, 4)[2]
                        == d[2] && d.subrange(0, 4)[3] == d[3]);
                }
            }
            return Err(AlecError::Decode(DecodeError::InvalidHeader));
        }
        proof {
            assert(d.subrange(0, 4) =~= alcs_magic());
        }
        let crc_offset = data.len() - 4;
        let stored = get_le32(data, crc_offset);
        let body = copy_range(data, 0, crc_offset);
        let computed = crc32_iso_hdlc_checksum(body.as_slice());
        if stored != computed {
            return Err(AlecError::Decode(DecodeError::InvalidChecksum { expected: stored, actual: computed }));
        }
        let format_version = get_le32(data, 4);
        if format_version != ALCS_FORMAT_VERSION {
            let mut reason = String::new();
            reason.append("unsupported ALCS format version ");
            push_decimal(&mut reason, format_version as u64);
            reason.append(" (expected ");
            push_decimal(&mut reason, ALCS_FORMAT_VERSION as u64);
            reason.append(")");
            proof {
                assert(reason@ =~= "unsupported ALCS format version "@ + decimal(format_version as nat)
                    + " (expected "@ + decimal(ALCS_FORMAT_VERSION as nat) + ")"@);
            }
            return Err(AlecError::Decode(DecodeError::MalformedMessage { offset: 4, reason }));
        }
        let version = get_le32(data, 8);
        let scale_factor = get_le32(data, 12);
        let observation_count = get_le64(data, 16);
        let next_code = get_le32(data, 24);
        let sens_len = data[28] as usize;
        let mut offset: usize = 29;
        if crc_offset - offset < sens_len + 4 {
            return Err(
                AlecError::Decode(DecodeError::BufferTooShort { needed: offset + sens_len + 4, available: data.len() }),
            );
        }
        offset = offset + sens_len;
        let src_count = get_le32(data, offset) as usize;
        offset = offset + 4;
        proof {
            assert(alcs_read(d) == after_sources(d, read_sources(d, offset as int, src_count as nat, crc_offset as int)));
        }
        let (sources, off2) = match read_sources_at(data, offset, src_count, crc_offset) {
            Ok(x) => x,
            Err(needed) => {
                return Err(AlecError::Decode(DecodeError::BufferTooShort { needed, available: data.len() }));
            },
        };
        let ghost src_seq = read_sources(d, offset as int, src_count as nat, crc_offset as int)->Ok_0.0;
        offset = off2;
        if crc_offset - offset < 4 {
            return Err(AlecError::Decode(DecodeError::BufferTooShort { needed: offset + 4, available: data.len() }));
        }
        let dict_count = get_le32(data, offset) as usize;
        offset = offset + 4;
        proof {
            assert(alcs_read(d) == after_patterns(
                d,
                src_seq,
                read_patterns(d, offset as int, dict_count as nat, crc_offset as int),
            ));
        }
        let (dictionary, pattern_index, off3) = match read_patterns_at(data, offset, dict_count, crc_offset) {
            Ok(x) => x,
            Err(needed) => {
                return Err(AlecError::Decode(DecodeError::BufferTooShort { needed, available: data.len() }));
            },
        };
        offset = off3;
        if offset != crc_offset {
            let mut reason = String::new();
            reason.append("trailing ");
            push_decimal(&mut reason, (crc_offset - offset) as u64);
            reason.append(" byte(s) between content and CRC");
            return Err(AlecError::Decode(DecodeError::MalformedMessage { offset, reason }));
        }
        Ok(
            Context {
                version,
                observation_count,
                dictionary,
                pattern_index,
                next_code,
                source_stats: sources,
                config: ContextConfig::default(),
                scale_factor,
            },
        )
    }

    /// Sets the version.
    pub fn set_version(&mut self, version: u32)
        ensures
            final(self)@ == (ContextView { version, ..old(self)@ }),
            final(self).wf() == old(self).wf(),
            final(self).pattern_seq() == old(self).pattern_seq(),
            final(self).source_seq() == old(self).source_seq(),
    {
        self.version = version;
    }

    /// Compares the context version with the version a message carries.
    pub fn check_version(&self, message_version: u32) -> (r: VersionCheckResult)
        ensures
            r == (if self@.version == message_version {
                VersionCheckResult::Match
            } else {
                VersionCheckResult::Mismatch { expected: self@.version, actual: message_version }
            }),
    {
        VersionCheckResult::check(self.version, message_version)
    }

    /// The prediction model in use: the last value.
    pub fn model_type(&self) -> (r: PredictionModel)
        ensures
            r == PredictionModel::LastValue,
    {
        PredictionModel::LastValue
    }

    /// The statistics of source `source_id`.
    pub fn source_stats(&self, source_id: u32) -> (r: Option<&SourceStats>)
        requires
            self.wf(),
        ensures
            match r {
                Some(s) => self@.sources.contains_key(source_id) && s@ == self@.sources[source_id],
                None => !self@.sources.contains_key(source_id),
            },
    {
        proof {
            lemma_view_pairs(self.source_stats@);
        }
        get_value(&self.source_stats, source_id)
    }

    /// Records one observation of `source_id` whose statistics, updated for
    /// it, are `stats`: the observation count and the version advance by
    /// one. Returns whether an evolution of the dictionary is now due.
    pub fn record_observation(&mut self, source_id: u32, stats: SourceStats) -> (evolve: bool)
        requires
            old(self).wf(),
            old(self)@.observation_count < u64::MAX,
            old(self)@.version < u32::MAX,
        ensures
            final(self).wf(),
            final(self)@ == (ContextView {
                observation_count: (old(self)@.observation_count + 1) as u64,
                sources: old(self)@.sources.insert(source_id, stats@),
                version: (old(self)@.version + 1) as u32,
                ..old(self)@
            }),
            final(self).pattern_seq() == old(self).pattern_seq(),
            evolve == (old(self)@.config.evolution.enabled && old(self)@.config.evolution.evolution_interval > 0
                && (old(self)@.observation_count + 1) % (old(self)@.config.evolution.evolution_interval as int)
                == 0),
    {
        self.observation_count = self.observation_count + 1;
        let ghost before = self.source_stats@;
        insert_value(&mut self.source_stats, source_id, stats);
        proof {
            lemma_view_insert(before, self.source_stats@, source_id, stats);
        }
        self.version = self.version + 1;
        let evolution = &self.config.evolution;
        evolution.enabled && evolution.evolution_interval > 0 && self.observation_count
            % evolution.evolution_interval == 0
    }

    /// A fresh context initialized from a preload file: its version and its
    /// dictionary (each entry stored under its code, with its frequency,
    /// and filed in the index).
    pub fn from_preload(preload: &PreloadFile) -> (r: Result<Self, AlecError>)
        ensures
            r matches Ok(c) && c.wf() && c@ == preloaded_view(preload@),
    {
        let mut ctx = Self::new();
        ctx.version = preload.context_version;
        let ghost entries = preload@.dictionary;
        let mut i: usize = 0;
        proof {
            assert(entries.take(0) =~= Seq::<(Seq<u8>, u16, u32)>::empty());
        }
        while i < preload.dictionary.len()
            invariant
                i <= preload.dictionary@.len(),
                entries == preload@.dictionary,
                ctx.wf(),
                ctx@ == (ContextView {
                    patterns: preloaded_patterns(entries.take(i as int)),
                    index: preloaded_index(entries.take(i as int)),
                    next_code: preloaded_next_code(entries.take(i as int)),
                    ..preloaded_view(preload@)
                }),
            decreases preload.dictionary@.len() - i,
        {
            let entry = &preload.dictionary[i];
            let pattern = Pattern {
                data: entry.pattern.clone(),
                value_bits: None,
                frequency: entry.frequency as u64,
                last_used: 0,
                created_at: 0,
            };
            let code = entry.code as u32;
            let hash = xxh64(pattern.data.as_slice(), 0);
            proof {
                assert(entries.take(i + 1).drop_last() =~= entries.take(i as int));
                assert(entries[i as int] == entry_view(*entry));
            }
            ctx.pattern_index.insert(hash, code);
            let ghost before = ctx.dictionary@;
            insert_value(&mut ctx.dictionary, code, pattern);
            proof {
                lemma_view_insert(before, ctx.dictionary@, code, pattern);
            }
            if code >= ctx.next_code {
                ctx.next_code = code + 1;
            }
            i = i + 1;
        }
        proof {
            assert(entries.take(i as int) =~= entries);
        }
        Ok(ctx)
    }

    /// Empties the dictionary, the index and the statistics, and zeroes the
    /// counters; the configuration and the scale factor stay.
    pub fn reset(&mut self)
        ensures
            final(self).wf(),
            final(self)@ == (ContextView {
                scale_factor: old(self)@.scale_factor,
                ..empty_view(old(self)@.config)
            }),
    {
        self.dictionary = Vec::new();
        self.pattern_index.clear();
        self.source_stats = Vec::new();
        self.next_code = 0;
        self.version = 0;
        self.observation_count = 0;
        proof {
            lemma_empty_map(self.dictionary@);
            lemma_empty_map(self.source_stats@);
            lemma_empty_map(view_pairs(self.dictionary@));
            lemma_empty_map(view_pairs(self.source_stats@));
        }
    }

    /// Forgets the per-source statistics only; the dictionary, its index and
    /// the counters stay.
    pub fn reset_to_baseline(&mut self)
        ensures
            old(self).wf() ==> final(self).wf(),
            final(self)@ == (ContextView { sources: Map::empty(), ..old(self)@ }),
            final(self).pattern_seq() == old(self).pattern_seq(),
    {
        self.source_stats = Vec::new();
        proof {
            lemma_empty_map(self.source_stats@);
            lemma_empty_map(view_pairs(self.source_stats@));
        }
    }
}

/// The footprint of a prefix is at most that of the whole.
proof fn lemma_footprint_prefix(s: Seq<(u32, PatternView)>, i: int)
    requires
        0 <= i <= s.len(),
    ensures
        patterns_footprint(s.take(i)) <= patterns_footprint(s),
    decreases s.len() - i,
{
    if i < s.len() {
        lemma_footprint_prefix(s, i + 1);
        assert(s.take(i + 1).drop_last() =~= s.take(i));
    } else {
        assert(s.take(i) =~= s);
    }
}

/// The code and bytes of each entry of `s`.
pub open spec fn entry_bytes(s: Seq<(u32, PatternView)>) -> Seq<(u32, Seq<u8>)> {
    s.map_values(|e: (u32, PatternView)| (e.0, e.1.data))
}

/// The export records of a non-empty sequence: the first record, then the
/// others.
pub proof fn lemma_export_entries_cons(s: Seq<(u32, PatternView)>)
    requires
        s.len() > 0,
    ensures
        export_entries(s) == export_entry(s[0].0, s[0].1) + export_entries(s.drop_first()),
    decreases s.len(),
{
    if s.len() == 1 {
        assert(s.drop_last() =~= Seq::empty());
        assert(s.drop_first() =~= Seq::empty());
        assert(export_entries(s) =~= export_entry(s[0].0, s[0].1) + export_entries(s.drop_first()));
    } else {
        lemma_export_entries_cons(s.drop_last());
        assert(s.drop_last().drop_first() =~= s.drop_first().drop_last());
        assert(s.drop_first().last() == s.last());
        assert(s.drop_last()[0] == s[0]);
        assert(export_entries(s) =~= export_entry(s[0].0, s[0].1) + export_entries(s.drop_first()));
    }
}

/// Reading the export records of `s` back gives the codes and bytes of `s`.
proof fn lemma_import_export_entries(data: Seq<u8>, off: int, s: Seq<(u32, PatternView)>)
    requires
        0 <= off,
        off + export_entries(s).len() <= data.len(),
        data.subrange(off, off + export_entries(s).len()) == export_entries(s),
        forall|i: int| 0 <= i < s.len() ==> #[trigger] s[i].1.data.len() < 256,
    ensures
        import_entries(data, off, s.len()) == (entry_bytes(s), None::<bool>),
    decreases s.len(),
{
    if s.len() == 0 {
        assert(entry_bytes(s) =~= Seq::empty());
    } else {
        lemma_export_entries_cons(s);
        let code = s[0].0;
        let d = s[0].1.data;
        let n = d.len() as int;
        assert(s[0].1.data.len() < 256);
        let e0 = export_entry(code, s[0].1);
        let rest = s.drop_first();
        let whole = export_entries(s);
        assert(e0.len() == 5 + n);
        assert forall|j: int| 0 <= j < whole.len() implies data[off + j] == #[trigger] whole[j] by {
            assert(data.subrange(off, off + whole.len())[j] == data[off + j]);
        }
        lemma_be32_roundtrip(code);
        assert(whole[0] == be32(code)[0] && whole[1] == be32(code)[1] && whole[2] == be32(code)[2] && whole[3]
            == be32(code)[3]);
        assert(read_be32(data, off) == code);
        assert(whole[4] == (n % 256) as u8);
        assert(data[off + 4] == n);
        assert(data.subrange(off + 5, off + 5 + n) =~= d) by {
            assert forall|j: int| 0 <= j < n implies data.subrange(off + 5, off + 5 + n)[j] == d[j] by {
                assert(whole[5 + j] == d[j]);
            }
        }
        let off2 = off + 5 + n;
        assert(data.subrange(off2, off2 + export_entries(rest).len()) =~= export_entries(rest)) by {
            assert forall|j: int| 0 <= j < export_entries(rest).len() implies data.subrange(
                off2,
                off2 + export_entries(rest).len(),
            )[j] == export_entries(rest)[j] by {
                assert(whole[5 + n + j] == export_entries(rest)[j]);
            }
        }
        assert forall|i: int| 0 <= i < rest.len() implies #[trigger] rest[i].1.data.len() < 256 by {
            assert(s[i + 1].1.data.len() < 256);
        }
        lemma_import_export_entries(data, off2, rest);
        assert(entry_bytes(s) =~= seq![(code, d)] + entry_bytes(rest));
    }
}

/// Importing the entries of a sorted dictionary stores each pattern, fresh,
/// under its code.
proof fn lemma_imported_patterns(s: Seq<(u32, PatternView)>)
    requires
        sorted_keys(s),
    ensures
        imported_patterns(entry_bytes(s)) == as_map(s).map_values(|p: PatternView| fresh_pattern(p.data)),
    decreases s.len(),
{
    if s.len() == 0 {
        lemma_empty_map(s);
        assert(as_map(s).map_values(|p: PatternView| fresh_pattern(p.data)) =~= Map::empty());
    } else {
        let s1 = s.drop_last();
        assert(sorted_keys(s1));
        lemma_imported_patterns(s1);
        assert(entry_bytes(s).drop_last() =~= entry_bytes(s1));
        assert(s1.push(s.last()) =~= s);
        lemma_as_map_push(s1, s.last().0, s.last().1);
        assert(as_map(s).map_values(|p: PatternView| fresh_pattern(p.data)) =~= as_map(s1).map_values(
            |p: PatternView| fresh_pattern(p.data),
        ).insert(s.last().0, fresh_pattern(s.last().1.data)));
    }
}

/// The hash input depends on the codes and bytes alone.
proof fn lemma_hash_input_same(s: Seq<(u32, PatternView)>, t: Seq<(u32, PatternView)>)
    requires
        s.len() == t.len(),
        forall|i: int| 0 <= i < s.len() ==> #[trigger] s[i].0 == t[i].0 && s[i].1.data == t[i].1.data,
    ensures
        hash_input(s) == hash_input(t),
    decreases s.len(),
{
    if s.len() > 0 {
        lemma_hash_input_same(s.drop_last(), t.drop_last());
        assert(s[s.len() - 1].0 == t[t.len() - 1].0);
    }
}

/// A full export, imported back, restores the version and the dictionary:
/// the import reads every record, each pattern is stored fresh under its
/// code, and the hash of the imported dictionary (whose entries in code
/// order are `t`) is the exported one, so the import succeeds. This holds
/// when there are fewer than 2^16 patterns of fewer than 256 bytes each.
#[verifier::spinoff_prover]
pub proof fn lemma_export_import(version: u32, s: Seq<(u32, PatternView)>, t: Seq<(u32, PatternView)>)
    requires
        sorted_keys(s),
        s.len() < 65536,
        forall|i: int| 0 <= i < s.len() ==> #[trigger] s[i].1.data.len() < 256,
        sorted_keys(t),
        as_map(t) == imported_patterns(entry_bytes(s)),
    ensures
        ({
            let b = export_bytes(version, xxh64_digest(hash_input(s), 0), s);
            &&& b.len() >= 14
            &&& read_be32(b, 0) == version
            &&& read_be64(b, 4) == xxh64_digest(hash_input(s), 0)
            &&& import_of(b) == (entry_bytes(s), None::<bool>)
        }),
        imported_patterns(entry_bytes(s)) == as_map(s).map_values(|p: PatternView| fresh_pattern(p.data)),
        hash_input(t) == hash_input(s),
{
    let h = xxh64_digest(hash_input(s), 0);
    let b = export_bytes(version, h, s);
    let e = export_entries(s);
    assert(b.len() == 14 + e.len());
    lemma_be32_roundtrip(version);
    lemma_be64_roundtrip(h);
    lemma_be16_roundtrip(s.len() as u16);
    assert(b.subrange(0, 4) =~= be32(version));
    assert(b.subrange(4, 12) =~= be64(h));
    assert(b.subrange(12, 14) =~= be16(s.len() as u16));
    assert(read_be32(b, 0) == version) by {
        assert(b[0] == be32(version)[0] && b[1] == be32(version)[1] && b[2] == be32(version)[2] && b[3]
            == be32(version)[3]);
    }
    assert(read_be64(b, 4) == h) by {
        let x = be64(h);
        assert(b[4] == x[0] && b[5] == x[1] && b[6] == x[2] && b[7] == x[3]);
        assert(b[8] == x[4] && b[9] == x[5] && b[10] == x[6] && b[11] == x[7]);
    }
    assert(read_be16(b, 12) == s.len()) by {
        assert(b[12] == be16(s.len() as u16)[0] && b[13] == be16(s.len() as u16)[1]);
    }
    assert(b.subrange(14, 14 + e.len() as int) =~= e);
    lemma_import_export_entries(b, 14, s);
    lemma_imported_patterns(s);
    assert forall|k: u32| #[trigger] has_key(s, k) <==> has_key(t, k) by {
        assert(as_map(t).contains_key(k) == has_key(t, k));
        assert(as_map(s).contains_key(k) == has_key(s, k));
    }
    lemma_sorted_same_keys(s, t);
    assert forall|i: int| 0 <= i < s.len() implies #[trigger] s[i].0 == t[i].0 && s[i].1.data == t[i].1.data by {
        lemma_key_index(s, i);
        lemma_key_index(t, i);
    }
    lemma_hash_input_same(s, t);
}

/// The little-endian bytes of `h` take eight bytes per value.
proof fn lemma_le64_values_len(h: Seq<u64>)
    ensures
        le64_values(h).len() == 8 * h.len(),
    decreases h.len(),
{
    if h.len() > 0 {
        lemma_le64_values_len(h.drop_last());
        lemma_le64_roundtrip(h.last());
    }
}

/// A source record takes 60 bytes plus eight per history value.
proof fn lemma_source_record_len(id: u32, s: SourceStatsView)
    ensures
        source_record(id, s).len() == 60 + 8 * s.history_bits.len(),
{
    reveal(source_record);
    lemma_le64_values_len(s.history_bits);
    lemma_le64_roundtrip(0);
}

/// A pattern record takes 30 bytes plus the bytes it keeps.
proof fn lemma_pattern_record_len(code: u32, p: PatternView)
    ensures
        pattern_record(code, p).len() == 30 + kept_len(p),
{
    lemma_le64_roundtrip(0);
}

/// The records of a prefix are no longer than those of the whole.
proof fn lemma_source_records_prefix(s: Seq<(u32, SourceStatsView)>, i: int)
    requires
        0 <= i <= s.len(),
    ensures
        source_records(s.take(i)).len() <= source_records(s).len(),
    decreases s.len() - i,
{
    if i < s.len() {
        lemma_source_records_prefix(s, i + 1);
        assert(s.take(i + 1).drop_last() =~= s.take(i));
    } else {
        assert(s.take(i) =~= s);
    }
}

/// The records of a prefix are no longer than those of the whole.
proof fn lemma_pattern_records_prefix(s: Seq<(u32, PatternView)>, i: int)
    requires
        0 <= i <= s.len(),
    ensures
        pattern_records(s.take(i)).len() <= pattern_records(s).len(),
    decreases s.len() - i,
{
    if i < s.len() {
        lemma_pattern_records_prefix(s, i + 1);
        assert(s.take(i + 1).drop_last() =~= s.take(i));
    } else {
        assert(s.take(i) =~= s);
    }
}

/// The length of a persisted context.
proof fn lemma_body_len(
    v: ContextView,
    sensor: Seq<u8>,
    sources: Seq<(u32, SourceStatsView)>,
    patterns: Seq<(u32, PatternView)>,
)
    ensures
        alcs_bytes(v, sensor, sources, patterns).len() == 33 + sensor.len() + source_records(sources).len() + 4
            + pattern_records(patterns).len() + 4,
{
    lemma_le64_roundtrip(v.observation_count);
}

} // verus!
