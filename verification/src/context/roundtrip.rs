//! Proof that a persisted context reads back as it was written.

use vstd::prelude::*;
use crate::bytes::{le16, le32, le64, lemma_le16_roundtrip, lemma_le32_roundtrip, lemma_le64_roundtrip, read_le16, read_le32, read_le64};
use crate::context::state::{
    after_patterns, after_sources, alcs_body, alcs_bytes, alcs_magic, alcs_read, history_span, kept_len,
    le64_values, pattern_record, pattern_records, read_pattern, read_patterns, read_source_stats, read_sources,
    source_record, source_records, AlcsContents, ContextView, ALCS_FORMAT_VERSION,
};
use crate::context::{PatternView, SourceStatsView};
use crate::hashing::crc32_iso_hdlc;

verus! {

/// Bytes read at `off` when `d` holds `piece` there.
proof fn lemma_piece(d: Seq<u8>, off: int, piece: Seq<u8>, j: int)
    requires
        0 <= off,
        off + piece.len() <= d.len(),
        d.subrange(off, off + piece.len()) == piece,
        0 <= j < piece.len(),
    ensures
        d[off + j] == piece[j],
{
    assert(d.subrange(off, off + piece.len())[j] == d[off + j]);
}

/// The part of `d` at `off + a .. off + b` when `d` holds `piece` at `off`.
proof fn lemma_sub_piece(d: Seq<u8>, off: int, piece: Seq<u8>, a: int, b: int)
    requires
        0 <= off,
        off + piece.len() <= d.len(),
        d.subrange(off, off + piece.len()) == piece,
        0 <= a <= b <= piece.len(),
    ensures
        d.subrange(off + a, off + b) == piece.subrange(a, b),
{
    assert forall|j: int| 0 <= j < b - a implies d.subrange(off + a, off + b)[j] == piece.subrange(a, b)[j] by {
        lemma_piece(d, off, piece, a + j);
    }
    assert(d.subrange(off + a, off + b) =~= piece.subrange(a, b));
}

/// `d` holds `p` at `off`.
pub open spec fn holds(d: Seq<u8>, off: int, p: Seq<u8>) -> bool {
    0 <= off && off + p.len() <= d.len() && d.subrange(off, off + p.len()) == p
}

/// Holding two pieces one after the other is holding each.
proof fn lemma_split(d: Seq<u8>, off: int, x: Seq<u8>, y: Seq<u8>)
    requires
        holds(d, off, x + y),
    ensures
        holds(d, off, x),
        holds(d, off + x.len(), y),
{
    lemma_sub_piece(d, off, x + y, 0, x.len() as int);
    assert((x + y).subrange(0, x.len() as int) =~= x);
    lemma_sub_piece(d, off, x + y, x.len() as int, (x + y).len() as int);
    assert((x + y).subrange(x.len() as int, (x + y).len() as int) =~= y);
}

proof fn lemma_read_le16_at(d: Seq<u8>, off: int, v: u16)
    requires
        0 <= off,
        off + 2 <= d.len(),
        d.subrange(off, off + 2) == le16(v),
    ensures
        read_le16(d, off) == v,
{
    lemma_le16_roundtrip(v);
    assert(d[off] == d.subrange(off, off + 2)[0] && d[off + 1] == d.subrange(off, off + 2)[1]);
}

proof fn lemma_read_le32_at(d: Seq<u8>, off: int, v: u32)
    requires
        0 <= off,
        off + 4 <= d.len(),
        d.subrange(off, off + 4) == le32(v),
    ensures
        read_le32(d, off) == v,
{
    lemma_le32_roundtrip(v);
    let t = d.subrange(off, off + 4);
    assert(d[off] == t[0] && d[off + 1] == t[1] && d[off + 2] == t[2] && d[off + 3] == t[3]);
}

proof fn lemma_read_le64_at(d: Seq<u8>, off: int, v: u64)
    requires
        0 <= off,
        off + 8 <= d.len(),
        d.subrange(off, off + 8) == le64(v),
    ensures
        read_le64(d, off) == v,
{
    lemma_le64_roundtrip(v);
    let t = d.subrange(off, off + 8);
    let x = le64(v);
    assert(d[off] == x[0] && d[off + 1] == x[1] && d[off + 2] == x[2] && d[off + 3] == x[3]);
    assert(d[off + 4] == x[4] && d[off + 5] == x[5] && d[off + 6] == x[6] && d[off + 7] == x[7]);
}

/// The bytes of `h` take eight per value.
proof fn lemma_le64_values_len(h: Seq<u64>)
    ensures
        le64_values(h).len() == 8 * h.len(),
    decreases h.len(),
{
    if h.len() > 0 {
        lemma_le64_values_len(h.drop_last());
        lemma_le64_roundtrip(h.last());
    }
}

/// The bytes of the value at position `i` of `h` among the bytes of `h`.
proof fn lemma_le64_values_at(h: Seq<u64>, i: int)
    requires
        0 <= i < h.len(),
    ensures
        le64_values(h).len() == 8 * h.len(),
        le64_values(h).subrange(8 * i, 8 * i + 8) == le64(h[i]),
    decreases h.len(),
{
    lemma_le64_roundtrip(h.last());
    lemma_le64_values_len(h);
    lemma_le64_values_len(h.drop_last());
    if i < h.len() - 1 {
        lemma_le64_values_at(h.drop_last(), i);
        let p = le64_values(h.drop_last());
        assert(le64_values(h).subrange(8 * i, 8 * i + 8) =~= p.subrange(8 * i, 8 * i + 8));
    } else {
        assert(le64_values(h).subrange(8 * i, 8 * i + 8) =~= le64(h.last()));
    }
}

/// The records of a non-empty list of sources: the first, then the others.
#[verifier::spinoff_prover]
#[verifier::rlimit(40)]
proof fn lemma_source_records_cons(s: Seq<(u32, SourceStatsView)>)
    requires
        s.len() > 0,
    ensures
        source_records(s) == source_record(s[0].0, s[0].1) + source_records(s.drop_first()),
    decreases s.len(),
{
    if s.len() == 1 {
        assert(s.drop_last() =~= Seq::empty());
        assert(s.drop_first() =~= Seq::empty());
        assert(source_records(s) =~= source_record(s[0].0, s[0].1) + source_records(s.drop_first()));
    } else {
        lemma_source_records_cons(s.drop_last());
        assert(s.drop_last().drop_first() =~= s.drop_first().drop_last());
        assert(s.drop_first().last() == s.last());
        assert(s.drop_last()[0] == s[0]);
        assert(source_records(s) =~= source_record(s[0].0, s[0].1) + source_records(s.drop_first()));
    }
}

/// The records of a non-empty list of patterns: the first, then the others.
#[verifier::spinoff_prover]
#[verifier::rlimit(40)]
proof fn lemma_pattern_records_cons(s: Seq<(u32, PatternView)>)
    requires
        s.len() > 0,
    ensures
        pattern_records(s) == pattern_record(s[0].0, s[0].1) + pattern_records(s.drop_first()),
    decreases s.len(),
{
    if s.len() == 1 {
        assert(s.drop_last() =~= Seq::empty());
        assert(s.drop_first() =~= Seq::empty());
        assert(pattern_records(s) =~= pattern_record(s[0].0, s[0].1) + pattern_records(s.drop_first()));
    } else {
        lemma_pattern_records_cons(s.drop_last());
        assert(s.drop_last().drop_first() =~= s.drop_first().drop_last());
        assert(s.drop_first().last() == s.last());
        assert(s.drop_last()[0] == s[0]);
        assert(pattern_records(s) =~= pattern_record(s[0].0, s[0].1) + pattern_records(s.drop_first()));
    }
}

/// Statistics that the persisted form carries whole.
pub open spec fn storable_stats(st: SourceStatsView) -> bool {
    st.history_bits.len() < 4294967296 && st.max_history < 4294967296
}

/// A source record takes 60 bytes plus eight per history value.
proof fn lemma_source_record_len(id: u32, st: SourceStatsView)
    ensures
        source_record(id, st).len() == 60 + 8 * st.history_bits.len(),
{
    reveal(source_record);
    lemma_le64_values_len(st.history_bits);
    lemma_le64_roundtrip(0);
}

/// The fixed fields of one source record read back.
#[verifier::spinoff_prover]
proof fn lemma_source_record_fields(d: Seq<u8>, off: int, id: u32, st: SourceStatsView)
    requires
        holds(d, off, source_record(id, st)),
    ensures
        read_le32(d, off) == id,
        read_le64(d, off + 4) == st.count,
        read_le64(d, off + 12) == st.last_value_bits,
        read_le64(d, off + 20) == st.ema_bits,
        read_le64(d, off + 28) == st.ema_alpha_bits,
        read_le64(d, off + 36) == st.sum_sq_diff_bits,
        read_le64(d, off + 44) == st.mean_bits,
        read_le32(d, off + 52) == st.max_history as u32,
        read_le32(d, off + 56) == st.history_bits.len() as u32,
        holds(d, off + 60, le64_values(st.history_bits)),
{
    reveal(source_record);
    let hv = le64_values(st.history_bits);
    lemma_le64_roundtrip(st.count);
    lemma_le64_roundtrip(st.last_value_bits);
    lemma_le64_roundtrip(st.ema_bits);
    lemma_le64_roundtrip(st.ema_alpha_bits);
    lemma_le64_roundtrip(st.sum_sq_diff_bits);
    lemma_le64_roundtrip(st.mean_bits);
    lemma_le32_roundtrip(id);
    lemma_le32_roundtrip(st.max_history as u32);
    lemma_le32_roundtrip(st.history_bits.len() as u32);
    let x1 = le32(id);
    let x2 = x1 + le64(st.count);
    let x3 = x2 + le64(st.last_value_bits);
    let x4 = x3 + le64(st.ema_bits);
    let x5 = x4 + le64(st.ema_alpha_bits);
    let x6 = x5 + le64(st.sum_sq_diff_bits);
    let x7 = x6 + le64(st.mean_bits);
    let x8 = x7 + le32(st.max_history as u32);
    let x9 = x8 + le32(st.history_bits.len() as u32);
    lemma_split(d, off, x9, hv);
    lemma_split(d, off, x8, le32(st.history_bits.len() as u32));
    lemma_split(d, off, x7, le32(st.max_history as u32));
    lemma_split(d, off, x6, le64(st.mean_bits));
    lemma_split(d, off, x5, le64(st.sum_sq_diff_bits));
    lemma_split(d, off, x4, le64(st.ema_alpha_bits));
    lemma_split(d, off, x3, le64(st.ema_bits));
    lemma_split(d, off, x2, le64(st.last_value_bits));
    lemma_split(d, off, x1, le64(st.count));
    lemma_read_le32_at(d, off, id);
    lemma_read_le64_at(d, off + 4, st.count);
    lemma_read_le64_at(d, off + 12, st.last_value_bits);
    lemma_read_le64_at(d, off + 20, st.ema_bits);
    lemma_read_le64_at(d, off + 28, st.ema_alpha_bits);
    lemma_read_le64_at(d, off + 36, st.sum_sq_diff_bits);
    lemma_read_le64_at(d, off + 44, st.mean_bits);
    lemma_read_le32_at(d, off + 52, st.max_history as u32);
    lemma_read_le32_at(d, off + 56, st.history_bits.len() as u32);
}

/// A history read back from its bytes.
proof fn lemma_history_read(d: Seq<u8>, off: int, h: Seq<u64>)
    requires
        holds(d, off + 60, le64_values(h)),
        h.len() < 4294967296,
    ensures
        Seq::new(h.len(), |i: int| read_le64(d, off + 60 + 8 * i)) == h,
{
    let hv = le64_values(h);
    let got = Seq::new(h.len(), |i: int| read_le64(d, off + 60 + 8 * i));
    assert forall|i: int| 0 <= i < h.len() implies got[i] == h[i] by {
        lemma_le64_values_at(h, i);
        lemma_sub_piece(d, off + 60, hv, 8 * i, 8 * i + 8);
        lemma_read_le64_at(d, off + 60 + 8 * i, h[i]);
    }
    assert(got =~= h);
}

/// One source record read back.
proof fn lemma_read_source_record(d: Seq<u8>, off: int, id: u32, st: SourceStatsView, limit: int)
    requires
        0 <= off,
        storable_stats(st),
        off + source_record(id, st).len() <= limit <= d.len() <= usize::MAX,
        d.subrange(off, off + source_record(id, st).len()) == source_record(id, st),
    ensures
        source_record(id, st).len() == 60 + 8 * st.history_bits.len(),
        off + 60 <= limit,
        read_le32(d, off + 56) == st.history_bits.len(),
        history_span(read_le32(d, off + 56)) == 8 * st.history_bits.len(),
        read_le32(d, off) == id,
        read_source_stats(d, off, read_le32(d, off + 56)) == st,
{
    lemma_source_record_len(id, st);
    lemma_source_record_fields(d, off, id, st);
    lemma_history_read(d, off, st.history_bits);
    let n = st.history_bits.len();
    assert((n as u32) == n);
    assert((st.max_history as u32) as usize == st.max_history);
}

/// One pattern record read back.
#[verifier::spinoff_prover]
proof fn lemma_read_pattern_record(d: Seq<u8>, off: int, code: u32, p: PatternView, limit: int)
    requires
        0 <= off,
        p.data.len() < 65536,
        off + pattern_record(code, p).len() <= limit <= d.len(),
        d.subrange(off, off + pattern_record(code, p).len()) == pattern_record(code, p),
    ensures
        pattern_record(code, p).len() == 30 + p.data.len(),
        off + 6 <= limit,
        read_le16(d, off + 4) == p.data.len(),
        read_le32(d, off) == code,
        read_pattern(d, off, p.data.len() as int) == (PatternView { value_bits: None, ..p }),
{
    let n = p.data.len() as int;
    assert(kept_len(p) == n);
    assert(p.data.take(n) =~= p.data);
    lemma_le32_roundtrip(code);
    lemma_le16_roundtrip(n as u16);
    lemma_le64_roundtrip(p.frequency);
    lemma_le64_roundtrip(p.last_used);
    lemma_le64_roundtrip(p.created_at);
    let x1 = le32(code);
    let x2 = x1 + le16(n as u16);
    let x3 = x2 + p.data;
    let x4 = x3 + le64(p.frequency);
    let x5 = x4 + le64(p.last_used);
    assert(pattern_record(code, p) == x5 + le64(p.created_at));
    lemma_split(d, off, x5, le64(p.created_at));
    lemma_split(d, off, x4, le64(p.last_used));
    lemma_split(d, off, x3, le64(p.frequency));
    lemma_split(d, off, x2, p.data);
    lemma_split(d, off, x1, le16(n as u16));
    lemma_read_le32_at(d, off, code);
    lemma_read_le16_at(d, off + 4, n as u16);
    lemma_read_le64_at(d, off + 6 + n, p.frequency);
    lemma_read_le64_at(d, off + 14 + n, p.last_used);
    lemma_read_le64_at(d, off + 22 + n, p.created_at);
}

/// The sources of `s` read back from their records.
#[verifier::spinoff_prover]
#[verifier::rlimit(40)]
proof fn lemma_read_sources(d: Seq<u8>, off: int, s: Seq<(u32, SourceStatsView)>, limit: int)
    requires
        0 <= off,
        forall|i: int| 0 <= i < s.len() ==> #[trigger] storable_stats(s[i].1),
        off + source_records(s).len() <= limit <= d.len() <= usize::MAX,
        d.subrange(off, off + source_records(s).len()) == source_records(s),
    ensures
        read_sources(d, off, s.len(), limit) == Ok::<(Seq<(u32, SourceStatsView)>, int), int>(
            (s, off + source_records(s).len()),
        ),
    decreases s.len(),
{
    if s.len() == 0 {
        assert(s =~= Seq::empty());
    } else {
        lemma_source_records_cons(s);
        let r0 = source_record(s[0].0, s[0].1);
        let rest = s.drop_first();
        assert(storable_stats(s[0].1));
        lemma_split(d, off, r0, source_records(rest));
        lemma_read_source_record(d, off, s[0].0, s[0].1, limit);
        let off2 = off + r0.len();
        assert forall|i: int| 0 <= i < rest.len() implies #[trigger] storable_stats(rest[i].1) by {
            assert(storable_stats(s[i + 1].1));
        }
        lemma_read_sources(d, off2, rest, limit);
        assert(seq![(s[0].0, s[0].1)] + rest =~= s);
    }
}

/// The patterns of `s` read back from their records, without their numeric
/// values.
#[verifier::spinoff_prover]
#[verifier::rlimit(40)]
proof fn lemma_read_patterns(d: Seq<u8>, off: int, s: Seq<(u32, PatternView)>, limit: int)
    requires
        0 <= off,
        forall|i: int| 0 <= i < s.len() ==> #[trigger] s[i].1.data.len() < 65536,
        off + pattern_records(s).len() <= limit <= d.len(),
        d.subrange(off, off + pattern_records(s).len()) == pattern_records(s),
    ensures
        read_patterns(d, off, s.len(), limit) == Ok::<(Seq<(u32, PatternView)>, int), int>(
            (without_values(s), off + pattern_records(s).len()),
        ),
    decreases s.len(),
{
    if s.len() == 0 {
        assert(without_values(s) =~= Seq::empty());
    } else {
        lemma_pattern_records_cons(s);
        let r0 = pattern_record(s[0].0, s[0].1);
        let rest = s.drop_first();
        assert(s[0].1.data.len() < 65536);
        lemma_split(d, off, r0, pattern_records(rest));
        lemma_read_pattern_record(d, off, s[0].0, s[0].1, limit);
        let off2 = off + r0.len();
        assert forall|i: int| 0 <= i < rest.len() implies #[trigger] rest[i].1.data.len() < 65536 by {
            assert(s[i + 1].1.data.len() < 65536);
        }
        lemma_read_patterns(d, off2, rest, limit);
        assert(without_values(s) =~= seq![(s[0].0, PatternView { value_bits: None, ..s[0].1 })] + without_values(
            rest,
        ));
    }
}

/// The patterns of `s` without their numeric values, which the persisted
/// form does not carry.
pub open spec fn without_values(s: Seq<(u32, PatternView)>) -> Seq<(u32, PatternView)> {
    s.map_values(|e: (u32, PatternView)| (e.0, PatternView { value_bits: None, ..e.1 }))
}

/// The fixed fields of a persisted context read back.
#[verifier::rlimit(40)]
proof fn lemma_alcs_header(
    v: ContextView,
    sensor: Seq<u8>,
    sources: Seq<(u32, SourceStatsView)>,
    patterns: Seq<(u32, PatternView)>,
)
    requires
        sensor.len() <= 255,
        sources.len() < 4294967296,
        patterns.len() < 4294967296,
    ensures
        ({
            let b = alcs_bytes(v, sensor, sources, patterns);
            let sl = sensor.len() as int;
            let sr = source_records(sources);
            let pr = pattern_records(patterns);
            let limit = b.len() - 4;
            let off = 33 + sl;
            let off2 = off + sr.len();
            &&& b.len() == 33 + sl + sr.len() + 4 + pr.len() + 4
            &&& b.subrange(0, 4) == alcs_magic()
            &&& read_le32(b, limit) == crc32_iso_hdlc(b.subrange(0, limit))
            &&& read_le32(b, 4) == ALCS_FORMAT_VERSION
            &&& read_le32(b, 8) == v.version
            &&& read_le32(b, 12) == v.scale_factor
            &&& read_le64(b, 16) == v.observation_count
            &&& read_le32(b, 24) == v.next_code
            &&& b[28] == sl
            &&& read_le32(b, 29 + sl) == sources.len()
            &&& b.subrange(off, off + sr.len()) == sr
            &&& read_le32(b, off2) == patterns.len()
            &&& b.subrange(off2 + 4, off2 + 4 + pr.len()) == pr
        }),
{
    let body = alcs_body(v, sensor, sources, patterns);
    let b = alcs_bytes(v, sensor, sources, patterns);
    let sl = sensor.len() as int;
    let sr = source_records(sources);
    let pr = pattern_records(patterns);
    lemma_le32_roundtrip(ALCS_FORMAT_VERSION);
    lemma_le32_roundtrip(v.version);
    lemma_le32_roundtrip(v.scale_factor);
    lemma_le64_roundtrip(v.observation_count);
    lemma_le32_roundtrip(v.next_code);
    lemma_le32_roundtrip(sources.len() as u32);
    lemma_le32_roundtrip(patterns.len() as u32);
    let crc = crc32_iso_hdlc(body);
    lemma_le32_roundtrip(crc);
    assert(body.len() == 33 + sl + sr.len() + 4 + pr.len());
    let limit = b.len() - 4;
    assert(b.subrange(0, limit) =~= body);
    assert(b.subrange(limit, limit + 4) =~= le32(crc));
    lemma_read_le32_at(b, limit, crc);
    assert(b.subrange(0, 4) =~= alcs_magic());
    lemma_sub_piece(b, 0, body, 4, 8);
    assert(body.subrange(4, 8) =~= le32(ALCS_FORMAT_VERSION));
    lemma_read_le32_at(b, 4, ALCS_FORMAT_VERSION);
    lemma_sub_piece(b, 0, body, 8, 12);
    assert(body.subrange(8, 12) =~= le32(v.version));
    lemma_read_le32_at(b, 8, v.version);
    lemma_sub_piece(b, 0, body, 12, 16);
    assert(body.subrange(12, 16) =~= le32(v.scale_factor));
    lemma_read_le32_at(b, 12, v.scale_factor);
    lemma_sub_piece(b, 0, body, 16, 24);
    assert(body.subrange(16, 24) =~= le64(v.observation_count));
    lemma_read_le64_at(b, 16, v.observation_count);
    lemma_sub_piece(b, 0, body, 24, 28);
    assert(body.subrange(24, 28) =~= le32(v.next_code));
    lemma_read_le32_at(b, 24, v.next_code);
    lemma_sub_piece(b, 0, body, 29 + sl, 33 + sl);
    assert(body.subrange(29 + sl, 33 + sl) =~= le32(sources.len() as u32));
    lemma_read_le32_at(b, 29 + sl, sources.len() as u32);
    let off = 33 + sl;
    lemma_sub_piece(b, 0, body, off, off + sr.len());
    assert(body.subrange(off, off + sr.len()) =~= sr);
    let off2 = off + sr.len();
    lemma_sub_piece(b, 0, body, off2, off2 + 4);
    assert(body.subrange(off2, off2 + 4) =~= le32(patterns.len() as u32));
    lemma_read_le32_at(b, off2, patterns.len() as u32);
    lemma_sub_piece(b, 0, body, off2 + 4, off2 + 4 + pr.len());
    assert(body.subrange(off2 + 4, off2 + 4 + pr.len()) =~= pr);
}

/// A persisted context reads back as it was written: the counters, the
/// sources in order and the patterns in order (without their numeric
/// values), when the sensor type is at most 255 bytes, there are fewer
/// than 2^32 sources and patterns, each history and history limit is below
/// 2^32, each pattern is shorter than 2^16 bytes, and the whole fits in
/// memory.
pub proof fn lemma_preload_roundtrip(
    v: ContextView,
    sensor: Seq<u8>,
    sources: Seq<(u32, SourceStatsView)>,
    patterns: Seq<(u32, PatternView)>,
)
    requires
        sensor.len() <= 255,
        sources.len() < 4294967296,
        patterns.len() < 4294967296,
        forall|i: int| 0 <= i < sources.len() ==> #[trigger] storable_stats(sources[i].1),
        forall|i: int| 0 <= i < patterns.len() ==> #[trigger] patterns[i].1.data.len() < 65536,
        alcs_bytes(v, sensor, sources, patterns).len() <= usize::MAX,
    ensures
        alcs_read(alcs_bytes(v, sensor, sources, patterns)) == Ok::<AlcsContents, crate::context::AlcsFault>(
            AlcsContents {
                version: v.version,
                scale_factor: v.scale_factor,
                observation_count: v.observation_count,
                next_code: v.next_code,
                sources,
                patterns: without_values(patterns),
            },
        ),
{
    let b = alcs_bytes(v, sensor, sources, patterns);
    let sl = sensor.len() as int;
    let sr = source_records(sources);
    let pr = pattern_records(patterns);
    lemma_alcs_header(v, sensor, sources, patterns);
    let limit = b.len() - 4;
    let off = 33 + sl;
    let off2 = off + sr.len();
    lemma_read_sources(b, off, sources, limit);
    lemma_read_patterns(b, off2 + 4, patterns, limit);
    assert(alcs_read(b) == after_sources(b, read_sources(b, off, sources.len(), limit)));
}

} // verus!
