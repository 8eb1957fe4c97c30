//! Fleet management for many emitters: a context per emitter, a fleet-wide
//! context for the patterns most emitters share, and fleet statistics. The
//! per-value analytics (means, deviations) work on the recorded values,
//! which are held as the bit patterns of their `f64`.

use vstd::prelude::*;

use crate::context::{
    default_context_config, empty_view, pattern_key, register_fits, registered, windowed, Context, ContextView, Pattern,
    PatternView, MAX_PATTERN_SIZE,
};
use crate::decoder::{data_frame_result_matches, Decoder};
use crate::error::Result;
use crate::protocol::{EncodedMessage, EncodingType, Priority};
use crate::hashing::xxh64;
use crate::sorted_map::{
    as_map, find_key, get_value, has_key, insert_value, key_index, lemma_key_index, lemma_map_len, sorted_keys, view_pairs,
};

verus! {

/// Unique identifier for an emitter.
pub type EmitterId = u32;

/// Fleet-wide statistics.
#[derive(Debug, Clone, Copy)]
pub struct FleetStats {
    /// Number of tracked emitters
    pub emitter_count: usize,
    /// Total messages received
    pub total_messages: u64,
    /// Messages per priority, indexed by the priority's code
    pub priority_distribution: [u64; 5],
    /// Anomalies detected
    pub anomaly_count: u64,
    /// Cross-fleet anomalies (emitter behaving differently)
    pub cross_fleet_anomalies: u64,
}

impl FleetStats {
    /// The number of messages received with priority `p`.
    pub open spec fn spec_priority_count(&self, p: Priority) -> u64 {
        self.priority_distribution@[p.spec_to_u8() as int]
    }

    /// The sum of the per-priority counts.
    pub open spec fn priority_total(&self) -> int {
        self.priority_distribution@[0] + self.priority_distribution@[1] + self.priority_distribution@[2]
            + self.priority_distribution@[3] + self.priority_distribution@[4]
    }

    /// Every message counted is counted under exactly one priority.
    pub open spec fn balanced(&self) -> bool {
        self.total_messages == self.priority_total()
    }

    /// Every count at zero.
    pub open spec fn is_zero(&self) -> bool {
        &&& self.emitter_count == 0
        &&& self.total_messages == 0
        &&& self.anomaly_count == 0
        &&& self.cross_fleet_anomalies == 0
        &&& forall|p: Priority| #[trigger] self.spec_priority_count(p) == 0
    }

    /// The number of messages received with priority `p`.
    pub fn priority_count(&self, p: Priority) -> (r: u64)
        ensures
            r == self.spec_priority_count(p),
    {
        self.priority_distribution[p.to_u8() as usize]
    }
}

impl Default for FleetStats {
    fn default() -> (r: Self)
        ensures
            r.is_zero(),
            r.balanced(),
    {
        let r = FleetStats {
            emitter_count: 0,
            total_messages: 0,
            priority_distribution: [0u64; 5],
            anomaly_count: 0,
            cross_fleet_anomalies: 0,
        };
        assert forall|p: Priority| #[trigger] r.spec_priority_count(p) == 0 by {
            assert(r.priority_distribution@[p.spec_to_u8() as int] == 0);
        }
        r
    }
}

/// State of a single emitter.
#[derive(Debug)]
pub struct EmitterState {
    /// Emitter's context
    pub context: Context,
    /// Last seen timestamp
    pub last_seen: u64,
    /// Message count from this emitter
    pub message_count: u64,
    /// Bit patterns of the recent values, oldest first (for cross-fleet
    /// comparison)
    pub recent_values_bits: Vec<u64>,
    /// Maximum recent values to keep
    pub max_recent: usize,
    /// Is this emitter behaving anomalously?
    pub is_anomalous: bool,
}

impl EmitterState {
    /// A state as a new emitter starts: a fresh context, nothing recorded,
    /// room for `max_recent` recent values.
    pub open spec fn is_fresh(&self, max_recent: usize) -> bool {
        &&& self.context.wf()
        &&& self.context@ == empty_view(default_context_config())
        &&& self.last_seen == 0
        &&& self.message_count == 0
        &&& self.recent_values_bits@.len() == 0
        &&& self.max_recent == max_recent
        &&& !self.is_anomalous
    }

    /// Create a new emitter state keeping 100 recent values.
    pub fn new() -> (r: Self)
        ensures
            r.is_fresh(100),
    {
        Self::with_capacity(100)
    }

    /// Create with custom recent values capacity.
    pub fn with_capacity(max_recent: usize) -> (r: Self)
        ensures
            r.is_fresh(max_recent),
    {
        EmitterState {
            context: Context::new(),
            last_seen: 0,
            message_count: 0,
            recent_values_bits: Vec::new(),
            max_recent,
            is_anomalous: false,
        }
    }

    /// Record a new value at `timestamp`: it becomes the last seen time,
    /// the count advances, and the value joins the recent values, which
    /// drop their oldest first when full.
    pub fn record_value(&mut self, value_bits: u64, timestamp: u64)
        requires
            old(self).message_count < u64::MAX,
            old(self).max_recent > 0,
        ensures
            final(self).context == old(self).context,
            final(self).last_seen == timestamp,
            final(self).message_count == old(self).message_count + 1,
            final(self).recent_values_bits@ == windowed(
                old(self).recent_values_bits@,
                old(self).max_recent,
                value_bits,
            ),
            final(self).max_recent == old(self).max_recent,
            final(self).is_anomalous == old(self).is_anomalous,
    {
        self.last_seen = timestamp;
        self.message_count = self.message_count + 1;
        if self.recent_values_bits.len() >= self.max_recent {
            self.recent_values_bits.remove(0);
        }
        self.recent_values_bits.push(value_bits);
    }

    /// The bit pattern of the last recorded value.
    pub fn last_value_bits(&self) -> (r: Option<u64>)
        ensures
            r == (if self.recent_values_bits@.len() == 0 {
                None
            } else {
                Some(self.recent_values_bits@.last())
            }),
    {
        let n = self.recent_values_bits.len();
        if n == 0 {
            None
        } else {
            Some(self.recent_values_bits[n - 1])
        }
    }
}

impl Default for EmitterState {
    fn default() -> (r: Self)
        ensures
            r.is_fresh(100),
    {
        Self::new()
    }
}

/// Bit pattern of the `f64` value 3.0, the default cross-fleet threshold.
pub const DEFAULT_CROSS_FLEET_THRESHOLD_BITS: u64 = 0x4008_0000_0000_0000;

/// Fleet configuration.
#[derive(Debug, Clone, Copy)]
pub struct FleetConfig {
    /// Maximum emitters to track
    pub max_emitters: usize,
    /// Timeout before considering emitter offline (in seconds)
    pub emitter_timeout: u64,
    /// Bit pattern of the threshold for cross-fleet anomaly (standard
    /// deviations)
    pub cross_fleet_threshold_bits: u64,
    /// Minimum emitters for cross-fleet analysis
    pub min_emitters_for_comparison: usize,
    /// How often to promote patterns to fleet context
    pub fleet_sync_interval: u64,
    /// Maximum recent values to track per emitter
    pub max_recent_values: usize,
}

impl Default for FleetConfig {
    fn default() -> (r: Self)
        ensures
            r.max_emitters == 1000,
            r.emitter_timeout == 300,
            r.cross_fleet_threshold_bits == DEFAULT_CROSS_FLEET_THRESHOLD_BITS,
            r.min_emitters_for_comparison == 3,
            r.fleet_sync_interval == 1000,
            r.max_recent_values == 100,
    {
        FleetConfig {
            max_emitters: 1000,
            emitter_timeout: 300,
            cross_fleet_threshold_bits: DEFAULT_CROSS_FLEET_THRESHOLD_BITS,
            min_emitters_for_comparison: 3,
            fleet_sync_interval: 1000,
            max_recent_values: 100,
        }
    }
}

/// Manages a fleet of emitters.
#[derive(Debug)]
pub struct FleetManager {
    /// Individual states per emitter, in ascending emitter order
    emitters: Vec<(EmitterId, EmitterState)>,
    /// Shared fleet-wide context (common patterns)
    fleet_context: Context,
    /// Decoder
    decoder: Decoder,
    /// Configuration
    config: FleetConfig,
    /// Statistics
    stats: FleetStats,
    /// Message counter for sync interval
    message_counter: u64,
}

/// The ids of the emitters of `es`, in order, that `keep` selects.
pub open spec fn ids_where(es: Seq<(u32, EmitterState)>, keep: spec_fn(EmitterState) -> bool) -> Seq<u32>
    decreases es.len(),
{
    if es.len() == 0 {
        Seq::empty()
    } else if keep(es.last().1) {
        ids_where(es.drop_last(), keep).push(es.last().0)
    } else {
        ids_where(es.drop_last(), keep)
    }
}

/// The emitters of `es`, in order, that `keep` selects.
pub open spec fn emitters_where(
    es: Seq<(u32, EmitterState)>,
    keep: spec_fn(EmitterState) -> bool,
) -> Seq<(u32, EmitterState)>
    decreases es.len(),
{
    if es.len() == 0 {
        Seq::empty()
    } else if keep(es.last().1) {
        emitters_where(es.drop_last(), keep).push(es.last())
    } else {
        emitters_where(es.drop_last(), keep)
    }
}

/// Whether an emitter was seen less than `timeout` before `t`.
pub open spec fn recent_at(t: u64, timeout: int) -> spec_fn(EmitterState) -> bool {
    |s: EmitterState| t - s.last_seen < timeout
}

/// Whether an emitter is flagged anomalous.
pub open spec fn flagged() -> spec_fn(EmitterState) -> bool {
    |s: EmitterState| s.is_anomalous
}

/// The values of the pairs of `s`, in order.
pub open spec fn pattern_values(s: Seq<(u32, PatternView)>) -> Seq<PatternView> {
    s.map_values(|e: (u32, PatternView)| e.1)
}

/// The views of the patterns of `s`, in order.
pub open spec fn pattern_views(s: Seq<Pattern>) -> Seq<PatternView> {
    s.map_values(|p: Pattern| p@)
}

/// The patterns of the emitters' contexts: emitter by emitter in the order
/// of `es`, each context's in ascending code order.
pub open spec fn fleet_patterns(es: Seq<(u32, EmitterState)>) -> Seq<PatternView>
    decreases es.len(),
{
    if es.len() == 0 {
        Seq::empty()
    } else {
        fleet_patterns(es.drop_last()) + pattern_values(es.last().1.context.pattern_seq())
    }
}

/// The digest of each pattern of `all`, in order.
pub open spec fn digests(all: Seq<PatternView>) -> Seq<u64> {
    all.map_values(|p: PatternView| pattern_key(p.data))
}

/// How many of the first `n` digests of `ds` equal `d`.
pub open spec fn occurrences(ds: Seq<u64>, d: u64, n: nat) -> nat
    decreases n,
{
    if n == 0 {
        0
    } else {
        occurrences(ds, d, (n - 1) as nat) + if ds[n - 1] == d {
            1nat
        } else {
            0nat
        }
    }
}

/// Whether pattern `i` of `all` is promoted: it is the first with its
/// digest, and more than `threshold` patterns of `all` have that digest.
pub open spec fn promoted_at(all: Seq<PatternView>, i: int, threshold: nat) -> bool {
    let ds = digests(all);
    &&& forall|j: int| 0 <= j < i ==> ds[j] != ds[i]
    &&& occurrences(ds, ds[i], ds.len()) > threshold
}

/// The promoted patterns of `all` from position `i` on, in order.
pub open spec fn promotions_from(all: Seq<PatternView>, i: int, threshold: nat) -> Seq<PatternView>
    decreases all.len() - i,
{
    if i >= all.len() {
        Seq::empty()
    } else if promoted_at(all, i, threshold) {
        seq![all[i]] + promotions_from(all, i + 1, threshold)
    } else {
        promotions_from(all, i + 1, threshold)
    }
}

/// Context `v` once pattern `p` is offered to it: registered, unless its
/// digest is filed already.
pub open spec fn promote(v: ContextView, p: PatternView) -> ContextView {
    if v.index.contains_key(pattern_key(p.data)) {
        v
    } else {
        registered(v, v.patterns.len(), p).0
    }
}

/// Context `v` once the patterns of `ps` are offered to it in order.
pub open spec fn promote_all(v: ContextView, ps: Seq<PatternView>) -> ContextView
    decreases ps.len(),
{
    if ps.len() == 0 {
        v
    } else {
        promote_all(promote(v, ps[0]), ps.drop_first())
    }
}

/// Whether offering the patterns of `ps` to `v` in order keeps its counters
/// in range.
pub open spec fn promote_fits(v: ContextView, ps: Seq<PatternView>) -> bool
    decreases ps.len(),
{
    ps.len() == 0 || ((!v.index.contains_key(pattern_key(ps[0].data)) ==> register_fits(
        v,
        v.patterns.len(),
        ps[0],
    )) && promote_fits(promote(v, ps[0]), ps.drop_first()))
}

/// Whether offering pattern `p` to context `v` leaves it as it is: its
/// digest is filed, it is too large, or the dictionary is full.
pub open spec fn settled(v: ContextView, p: PatternView) -> bool {
    ||| v.index.contains_key(pattern_key(p.data))
    ||| p.data.len() > MAX_PATTERN_SIZE
    ||| v.patterns.len() >= v.config.max_patterns
}

/// Context `w` has at least what `v` has: its configuration, the digests
/// `v` files, and as many patterns, held in a finite dictionary.
pub open spec fn grown_from(v: ContextView, w: ContextView) -> bool {
    &&& w.config == v.config
    &&& forall|d: u64| v.index.contains_key(d) ==> #[trigger] w.index.contains_key(d)
    &&& w.patterns.dom().finite()
    &&& w.patterns.len() >= v.patterns.len()
}

/// Offering a pattern only adds to a context, and settles that pattern.
proof fn lemma_promote_grows(v: ContextView, p: PatternView)
    requires
        v.patterns.dom().finite(),
    ensures
        grown_from(v, promote(v, p)),
        settled(promote(v, p), p),
{
    if !v.index.contains_key(pattern_key(p.data)) && v.patterns.len() < v.config.max_patterns && p.data.len()
        <= MAX_PATTERN_SIZE {
        let w = promote(v, p);
        assert(w.patterns.dom() =~= v.patterns.dom().insert(v.next_code));
        assert(w.index.contains_key(pattern_key(p.data)));
    }
}

/// Offering patterns in turn only adds to a context, and settles each of
/// them.
proof fn lemma_promote_all_grows(v: ContextView, ps: Seq<PatternView>)
    requires
        v.patterns.dom().finite(),
    ensures
        grown_from(v, promote_all(v, ps)),
        forall|i: int| 0 <= i < ps.len() ==> settled(promote_all(v, ps), #[trigger] ps[i]),
    decreases ps.len(),
{
    if ps.len() > 0 {
        let u = promote(v, ps[0]);
        lemma_promote_grows(v, ps[0]);
        lemma_promote_all_grows(u, ps.drop_first());
        let w = promote_all(v, ps);
        assert forall|i: int| 0 <= i < ps.len() implies settled(w, #[trigger] ps[i]) by {
            if i > 0 {
                assert(ps[i] == ps.drop_first()[i - 1]);
            }
        }
    }
}

/// Offering settled patterns leaves a context as it is.
proof fn lemma_promote_settled(w: ContextView, ps: Seq<PatternView>)
    requires
        forall|i: int| 0 <= i < ps.len() ==> settled(w, #[trigger] ps[i]),
    ensures
        promote_all(w, ps) == w,
    decreases ps.len(),
{
    if ps.len() > 0 {
        assert(settled(w, ps[0]));
        assert(promote(w, ps[0]) == w);
        assert forall|i: int| 0 <= i < ps.drop_first().len() implies settled(w, #[trigger] ps.drop_first()[i]) by {
            assert(ps.drop_first()[i] == ps[i + 1]);
        }
        lemma_promote_settled(w, ps.drop_first());
    }
}

/// Whether the first `i` digests of `ds` all differ from digest `i`.
fn is_first_digest(ds: &Vec<u64>, i: usize) -> (r: bool)
    requires
        i < ds@.len(),
    ensures
        r == forall|j: int| 0 <= j < i ==> ds@[j] != ds@[i as int],
{
    let mut j: usize = 0;
    while j < i
        invariant
            j <= i,
            i < ds@.len(),
            forall|m: int| 0 <= m < j ==> ds@[m] != ds@[i as int],
        decreases i - j,
    {
        if ds[j] == ds[i] {
            return false;
        }
        j = j + 1;
    }
    true
}

/// How many digests of `ds` equal `d`.
fn count_digest(ds: &Vec<u64>, d: u64) -> (r: usize)
    ensures
        r == occurrences(ds@, d, ds@.len()),
{
    let mut r: usize = 0;
    let mut j: usize = 0;
    while j < ds.len()
        invariant
            j <= ds@.len(),
            r <= j,
            r == occurrences(ds@, d, j as nat),
        decreases ds@.len() - j,
    {
        if ds[j] == d {
            r = r + 1;
        }
        j = j + 1;
    }
    r
}

/// Changing the value at position `i` of a sorted sequence keeps it sorted
/// and changes the map at that key only.
pub proof fn lemma_update_values<V>(s: Seq<(u32, V)>, i: int)
    requires
        sorted_keys(s),
        0 <= i < s.len(),
    ensures
        forall|v: V|
            #![trigger s.update(i, (s[i].0, v))]
            sorted_keys(s.update(i, (s[i].0, v))) && as_map(s.update(i, (s[i].0, v))) == as_map(s).insert(
                s[i].0,
                v,
            ),
{
    assert forall|v: V|
        #![trigger s.update(i, (s[i].0, v))]
        sorted_keys(s.update(i, (s[i].0, v))) && as_map(s.update(i, (s[i].0, v))) == as_map(s).insert(
            s[i].0,
            v,
        ) by {
        let t = s.update(i, (s[i].0, v));
        assert(sorted_keys(t));
        assert forall|k: u32| #[trigger] has_key(t, k) == has_key(s, k) by {
            if has_key(s, k) {
                let j = key_index(s, k);
                assert(t[j].0 == k);
            }
            if has_key(t, k) {
                let j = key_index(t, k);
                assert(s[j].0 == k);
            }
        }
        assert(as_map(t) =~= as_map(s).insert(s[i].0, v)) by {
            assert forall|k: u32| #[trigger] as_map(t).contains_key(k) implies as_map(t)[k] == as_map(s).insert(
                s[i].0,
                v,
            )[k] by {
                let j = key_index(t, k);
                lemma_key_index(t, j);
                if j != i {
                    lemma_key_index(s, j);
                }
            }
        }
    }
}

impl FleetManager {
    /// The emitters in ascending id order.
    pub closed spec fn emitter_seq(&self) -> Seq<(u32, EmitterState)> {
        self.emitters@
    }

    /// The emitters by id.
    pub open spec fn emitter_map(&self) -> Map<u32, EmitterState> {
        as_map(self.emitter_seq())
    }

    /// The fleet-wide context.
    pub closed spec fn spec_fleet_context(&self) -> Context {
        self.fleet_context
    }

    /// The decoder.
    pub closed spec fn spec_decoder(&self) -> Decoder {
        self.decoder
    }

    /// The configuration.
    pub closed spec fn spec_config(&self) -> FleetConfig {
        self.config
    }

    /// The statistics.
    pub closed spec fn spec_stats(&self) -> FleetStats {
        self.stats
    }

    /// Messages since the last promotion of patterns.
    pub closed spec fn spec_message_counter(&self) -> u64 {
        self.message_counter
    }

    /// The emitters are in strictly ascending id order.
    pub closed spec fn wf(&self) -> bool {
        sorted_keys(self.emitters@)
    }

    /// Create a new fleet manager with the default configuration.
    pub fn new() -> (r: Self)
        ensures
            r.wf(),
            r.emitter_seq().len() == 0,
            r.spec_fleet_context().wf(),
            r.spec_fleet_context()@ == empty_view(default_context_config()),
            r.spec_config().emitter_timeout == 300,
            r.spec_stats().is_zero(),
            r.spec_stats().balanced(),
            r.spec_message_counter() == 0,
    {
        Self::with_config(FleetConfig::default())
    }

    /// Create with custom configuration.
    pub fn with_config(config: FleetConfig) -> (r: Self)
        ensures
            r.wf(),
            r.emitter_seq().len() == 0,
            r.spec_fleet_context().wf(),
            r.spec_fleet_context()@ == empty_view(default_context_config()),
            r.spec_config() == config,
            r.spec_stats().is_zero(),
            r.spec_stats().balanced(),
            r.spec_message_counter() == 0,
    {
        FleetManager {
            emitters: Vec::new(),
            fleet_context: Context::new(),
            decoder: Decoder::new(),
            config,
            stats: FleetStats::default(),
            message_counter: 0,
        }
    }

    /// Track an emitter: one not seen before starts fresh, with room for the
    /// configured number of recent values.
    pub fn track_emitter(&mut self, id: EmitterId)
        requires
            old(self).wf(),
        ensures
            final(self).wf(),
            old(self).emitter_map().contains_key(id) ==> final(self).emitter_seq() == old(self).emitter_seq(),
            !old(self).emitter_map().contains_key(id) ==> {
                &&& final(self).emitter_map().contains_key(id)
                &&& final(self).emitter_map()[id].is_fresh(old(self).spec_config().max_recent_values)
                &&& final(self).emitter_map() == old(self).emitter_map().insert(id, final(self).emitter_map()[id])
            },
            final(self).spec_fleet_context() == old(self).spec_fleet_context(),
            final(self).spec_decoder() == old(self).spec_decoder(),
            final(self).spec_config() == old(self).spec_config(),
            final(self).spec_stats() == old(self).spec_stats(),
            final(self).spec_message_counter() == old(self).spec_message_counter(),
    {
        if find_key(&self.emitters, id).is_none() {
            let state = EmitterState::with_capacity(self.config.max_recent_values);
            insert_value(&mut self.emitters, id, state);
        }
    }

    /// Set the state of an emitter, replacing any it had.
    pub fn insert_emitter(&mut self, id: EmitterId, state: EmitterState)
        requires
            old(self).wf(),
        ensures
            final(self).wf(),
            final(self).emitter_map() == old(self).emitter_map().insert(id, state),
            final(self).spec_fleet_context() == old(self).spec_fleet_context(),
            final(self).spec_decoder() == old(self).spec_decoder(),
            final(self).spec_config() == old(self).spec_config(),
            final(self).spec_stats() == old(self).spec_stats(),
            final(self).spec_message_counter() == old(self).spec_message_counter(),
    {
        insert_value(&mut self.emitters, id, state);
    }

    /// Read the framing of a data message with the fleet's decoder: source
    /// id, encoding and offset of the value bytes.
    pub fn read_frame(&mut self, message: &EncodedMessage) -> (r: Result<(u32, EncodingType, usize)>)
        ensures
            data_frame_result_matches(message.payload@, r),
            final(self).spec_decoder().spec_last_sequence() == Some(message.header.sequence),
            final(self).spec_decoder().spec_verify_checksum() == old(self).spec_decoder().spec_verify_checksum(),
            final(self).emitter_seq() == old(self).emitter_seq(),
            final(self).wf() == old(self).wf(),
            final(self).spec_fleet_context() == old(self).spec_fleet_context(),
            final(self).spec_config() == old(self).spec_config(),
            final(self).spec_stats() == old(self).spec_stats(),
            final(self).spec_message_counter() == old(self).spec_message_counter(),
    {
        self.decoder.read_data_frame(message)
    }

    /// The fleet's decoder.
    pub fn decoder(&self) -> (r: &Decoder)
        ensures
            *r == self.spec_decoder(),
    {
        &self.decoder
    }

    /// The fleet's configuration.
    pub fn config(&self) -> (r: &FleetConfig)
        ensures
            *r == self.spec_config(),
    {
        &self.config
    }

    /// The state of an emitter.
    pub fn get_emitter(&self, id: EmitterId) -> (r: Option<&EmitterState>)
        requires
            self.wf(),
        ensures
            match r {
                Some(e) => self.emitter_map().contains_key(id) && *e == self.emitter_map()[id],
                None => !self.emitter_map().contains_key(id),
            },
    {
        get_value(&self.emitters, id)
    }

    /// The state of an emitter, to change it.
    pub fn get_emitter_mut(&mut self, id: EmitterId) -> (r: Option<&mut EmitterState>)
        requires
            old(self).wf(),
        ensures
            old(self).emitter_map().contains_key(id) ==> (r matches Some(e) && *e == old(self).emitter_map()[id]
                && final(self).wf() && final(self).emitter_map() == old(self).emitter_map().insert(id, *final(e))),
            !old(self).emitter_map().contains_key(id) ==> r is None && final(self).emitter_seq() == old(
                self,
            ).emitter_seq(),
            final(self).spec_fleet_context() == old(self).spec_fleet_context(),
            final(self).spec_decoder() == old(self).spec_decoder(),
            final(self).spec_config() == old(self).spec_config(),
            final(self).spec_stats() == old(self).spec_stats(),
            final(self).spec_message_counter() == old(self).spec_message_counter(),
    {
        match find_key(&self.emitters, id) {
            Some(i) => {
                proof {
                    lemma_key_index(self.emitters@, i as int);
                    lemma_update_values(self.emitters@, i as int);
                }
                Some(&mut self.emitters[i].1)
            },
            None => None,
        }
    }

    /// Get fleet statistics.
    pub fn stats(&self) -> (r: &FleetStats)
        ensures
            *r == self.spec_stats(),
    {
        &self.stats
    }

    /// Get the fleet-wide context.
    pub fn fleet_context(&self) -> (r: &Context)
        ensures
            *r == self.spec_fleet_context(),
    {
        &self.fleet_context
    }

    /// Get the fleet-wide context, to change it.
    pub fn fleet_context_mut(&mut self) -> (r: &mut Context)
        ensures
            *r == old(self).spec_fleet_context(),
            final(self).spec_fleet_context() == *final(r),
            final(self).emitter_seq() == old(self).emitter_seq(),
            final(self).wf() == old(self).wf(),
            final(self).spec_decoder() == old(self).spec_decoder(),
            final(self).spec_config() == old(self).spec_config(),
            final(self).spec_stats() == old(self).spec_stats(),
            final(self).spec_message_counter() == old(self).spec_message_counter(),
    {
        &mut self.fleet_context
    }

    /// Get number of tracked emitters.
    pub fn emitter_count(&self) -> (r: usize)
        ensures
            r == self.emitter_seq().len(),
    {
        self.emitters.len()
    }

    /// Every tracked emitter was last seen no later than `t`.
    pub open spec fn seen_by(&self, t: u64) -> bool {
        forall|id: u32| #[trigger] self.emitter_map().contains_key(id) ==> self.emitter_map()[id].last_seen <= t
    }

    /// The ids of the emitters seen less than the configured timeout before
    /// `current_time`, in ascending order.
    pub fn active_emitters(&self, current_time: u64) -> (r: Vec<EmitterId>)
        requires
            self.wf(),
            self.seen_by(current_time),
        ensures
            r@ == ids_where(self.emitter_seq(), recent_at(current_time, self.spec_config().emitter_timeout as int)),
    {
        let ghost keep = recent_at(current_time, self.config.emitter_timeout as int);
        let mut r: Vec<EmitterId> = Vec::new();
        let mut i: usize = 0;
        while i < self.emitters.len()
            invariant
                self.wf(),
                self.seen_by(current_time),
                keep == recent_at(current_time, self.config.emitter_timeout as int),
                i <= self.emitters@.len(),
                r@ == ids_where(self.emitters@.take(i as int), keep),
            decreases self.emitters@.len() - i,
        {
            proof {
                lemma_key_index(self.emitters@, i as int);
                assert(self.emitter_map().contains_key(self.emitters@[i as int].0));
                assert(self.emitters@.take(i + 1).drop_last() =~= self.emitters@.take(i as int));
            }
            let e = &self.emitters[i];
            if current_time - e.1.last_seen < self.config.emitter_timeout {
                r.push(e.0);
            }
            i = i + 1;
        }
        assert(self.emitters@.take(i as int) =~= self.emitters@);
        r
    }

    /// The ids of the emitters flagged anomalous, in ascending order.
    pub fn anomalous_emitters(&self) -> (r: Vec<EmitterId>)
        ensures
            r@ == ids_where(self.emitter_seq(), flagged()),
    {
        let mut r: Vec<EmitterId> = Vec::new();
        let mut i: usize = 0;
        while i < self.emitters.len()
            invariant
                i <= self.emitters@.len(),
                r@ == ids_where(self.emitters@.take(i as int), flagged()),
            decreases self.emitters@.len() - i,
        {
            assert(self.emitters@.take(i + 1).drop_last() =~= self.emitters@.take(i as int));
            let e = &self.emitters[i];
            if e.1.is_anomalous {
                r.push(e.0);
            }
            i = i + 1;
        }
        assert(self.emitters@.take(i as int) =~= self.emitters@);
        r
    }

    /// Clear the anomaly flag of an emitter; nothing else changes.
    pub fn clear_anomaly(&mut self, emitter_id: EmitterId)
        requires
            old(self).wf(),
        ensures
            final(self).wf(),
            final(self).emitter_map() == (if old(self).emitter_map().contains_key(emitter_id) {
                old(self).emitter_map().insert(
                    emitter_id,
                    EmitterState { is_anomalous: false, ..old(self).emitter_map()[emitter_id] },
                )
            } else {
                old(self).emitter_map()
            }),
            final(self).spec_fleet_context() == old(self).spec_fleet_context(),
            final(self).spec_decoder() == old(self).spec_decoder(),
            final(self).spec_config() == old(self).spec_config(),
            final(self).spec_stats() == old(self).spec_stats(),
            final(self).spec_message_counter() == old(self).spec_message_counter(),
    {
        match find_key(&self.emitters, emitter_id) {
            Some(i) => {
                proof {
                    lemma_key_index(self.emitters@, i as int);
                    lemma_update_values(self.emitters@, i as int);
                }
                self.emitters[i].1.is_anomalous = false;
                proof {
                    let s = old(self).emitters@;
                    assert(self.emitters@ =~= s.update(
                        i as int,
                        (s[i as int].0, EmitterState { is_anomalous: false, ..s[i as int].1 }),
                    ));
                }
            },
            None => {},
        }
    }

    /// Drop the emitters not seen for twice the configured timeout before
    /// `current_time`; the statistics count those left.
    pub fn cleanup_stale_emitters(&mut self, current_time: u64)
        requires
            old(self).wf(),
            old(self).seen_by(current_time),
            old(self).spec_config().emitter_timeout * 2 <= u64::MAX,
        ensures
            final(self).wf(),
            final(self).emitter_seq() == emitters_where(
                old(self).emitter_seq(),
                recent_at(current_time, old(self).spec_config().emitter_timeout * 2),
            ),
            final(self).spec_stats() == (FleetStats {
                emitter_count: final(self).emitter_seq().len() as usize,
                ..old(self).spec_stats()
            }),
            final(self).spec_fleet_context() == old(self).spec_fleet_context(),
            final(self).spec_decoder() == old(self).spec_decoder(),
            final(self).spec_config() == old(self).spec_config(),
            final(self).spec_message_counter() == old(self).spec_message_counter(),
    {
        let timeout = self.config.emitter_timeout * 2;
        let ghost keep = recent_at(current_time, timeout as int);
        let ghost orig = self.emitters@;
        let ghost mut j: int = 0;
        let mut i: usize = 0;
        proof {
            assert forall|k: int| 0 <= k < orig.len() implies #[trigger] orig[k].1.last_seen <= current_time by {
                lemma_key_index(orig, k);
                assert(old(self).emitter_map().contains_key(orig[k].0));
            }
            assert(orig.take(0) =~= Seq::<(u32, EmitterState)>::empty());
            assert(orig.skip(0) =~= orig);
        }
        while i < self.emitters.len()
            invariant
                sorted_keys(orig),
                forall|k: int| 0 <= k < orig.len() ==> #[trigger] orig[k].1.last_seen <= current_time,
                keep == recent_at(current_time, timeout as int),
                sorted_keys(self.emitters@),
                0 <= j <= orig.len(),
                i == emitters_where(orig.take(j), keep).len(),
                self.emitters@ == emitters_where(orig.take(j), keep) + orig.skip(j),
                self.fleet_context == old(self).fleet_context,
                self.decoder == old(self).decoder,
                self.config == old(self).config,
                self.stats == old(self).stats,
                self.message_counter == old(self).message_counter,
            decreases self.emitters@.len() - i,
        {
            proof {
                assert(orig.take(j + 1).drop_last() =~= orig.take(j));
                assert(self.emitters@[i as int] == orig[j]);
            }
            if current_time - self.emitters[i].1.last_seen < timeout {
                proof {
                    assert(self.emitters@ =~= emitters_where(orig.take(j + 1), keep) + orig.skip(j + 1));
                    j = j + 1;
                }
                i = i + 1;
            } else {
                let ghost before = self.emitters@;
                self.emitters.remove(i);
                proof {
                    assert(sorted_keys(self.emitters@)) by {
                        assert forall|a: int, b: int| 0 <= a < b < self.emitters@.len() implies self.emitters@[a].0
                            < self.emitters@[b].0 by {
                            let a2 = if a < i { a } else { a + 1 };
                            let b2 = if b < i { b } else { b + 1 };
                            assert(before[a2].0 < before[b2].0);
                        }
                    }
                    assert(self.emitters@ =~= emitters_where(orig.take(j + 1), keep) + orig.skip(j + 1));
                    j = j + 1;
                }
            }
        }
        proof {
            assert(orig.take(j) =~= orig);
            assert(orig.skip(j) =~= Seq::<(u32, EmitterState)>::empty());
            assert(self.emitters@ =~= emitters_where(orig, keep));
        }
        self.stats.emitter_count = self.emitters.len();
    }

    /// Whether promoting the patterns most emitters share keeps the fleet
    /// context's counters in range.
    pub open spec fn sync_fits(&self) -> bool {
        self.emitter_seq().len() >= 2 ==> promote_fits(
            self.spec_fleet_context()@,
            promotions_from(fleet_patterns(self.emitter_seq()), 0, (self.emitter_seq().len() / 2) as nat),
        )
    }

    /// The fleet context once the patterns most emitters share are promoted.
    pub open spec fn synced_fleet_context(&self) -> ContextView {
        if self.emitter_seq().len() < 2 {
            self.spec_fleet_context()@
        } else {
            promote_all(
                self.spec_fleet_context()@,
                promotions_from(fleet_patterns(self.emitter_seq()), 0, (self.emitter_seq().len() / 2) as nat),
            )
        }
    }

    /// Promote to the fleet context the patterns that more than half the
    /// emitters hold (counted by digest), each once, in the order they are
    /// first met; a digest the fleet context files already is left alone.
    /// Fewer than two emitters promote nothing.
    pub fn sync_fleet_patterns(&mut self)
        requires
            old(self).wf(),
            old(self).spec_fleet_context().wf(),
            old(self).sync_fits(),
        ensures
            final(self).wf(),
            final(self).spec_fleet_context().wf(),
            final(self).spec_fleet_context()@ == old(self).synced_fleet_context(),
            final(self).emitter_seq() == old(self).emitter_seq(),
            final(self).spec_decoder() == old(self).spec_decoder(),
            final(self).spec_config() == old(self).spec_config(),
            final(self).spec_stats() == old(self).spec_stats(),
            final(self).spec_message_counter() == old(self).spec_message_counter(),
    {
        let n = self.emitters.len();
        if n < 2 {
            return;
        }
        let threshold = n / 2;
        let ghost es = self.emitters@;
        let mut all: Vec<Pattern> = Vec::new();
        let mut ds: Vec<u64> = Vec::new();
        let mut e: usize = 0;
        while e < self.emitters.len()
            invariant
                es == self.emitters@,
                e <= es.len(),
                pattern_views(all@) == fleet_patterns(es.take(e as int)),
                ds@ == digests(pattern_views(all@)),
            decreases es.len() - e,
        {
            let ps = self.emitters[e].1.context.patterns_iter();
            let ghost vs = view_pairs(ps@);
            let mut k: usize = 0;
            assert(pattern_values(vs.take(0)) =~= Seq::<PatternView>::empty());
            assert(fleet_patterns(es.take(e as int)) + Seq::<PatternView>::empty() =~= fleet_patterns(es.take(e as int)));
            while k < ps.len()
                invariant
                    es == self.emitters@,
                    e < es.len(),
                    vs == view_pairs(ps@),
                    vs == es[e as int].1.context.pattern_seq(),
                    k <= ps@.len(),
                    pattern_views(all@) == fleet_patterns(es.take(e as int)) + pattern_values(vs.take(k as int)),
                    ds@ == digests(pattern_views(all@)),
                decreases ps@.len() - k,
            {
                let p = ps[k].1.duplicate();
                let h = xxh64(p.data.as_slice(), 0);
                let ghost before = all@;
                ds.push(h);
                all.push(p);
                proof {
                    assert(pattern_values(vs.take(k + 1)) =~= pattern_values(vs.take(k as int)).push(p@));
                    assert(pattern_views(all@) =~= pattern_views(before).push(p@));
                    assert(ds@ =~= digests(pattern_views(all@)));
                }
                k = k + 1;
            }
            proof {
                assert(vs.take(k as int) =~= vs);
                assert(es.take(e + 1).drop_last() =~= es.take(e as int));
            }
            e = e + 1;
        }
        let ghost all_v = pattern_views(all@);
        let ghost thr = threshold as nat;
        proof {
            assert(es.take(e as int) =~= es);
        }
        let mut i: usize = 0;
        while i < all.len()
            invariant
                es == self.emitters@,
                sorted_keys(es),
                all_v == pattern_views(all@),
                all_v == fleet_patterns(es),
                ds@ == digests(all_v),
                thr == threshold,
                threshold == es.len() / 2,
                i <= all@.len(),
                self.fleet_context.wf(),
                promote_all(self.fleet_context@, promotions_from(all_v, i as int, thr)) == old(self).synced_fleet_context(),
                promote_fits(self.fleet_context@, promotions_from(all_v, i as int, thr)),
                self.decoder == old(self).decoder,
                self.config == old(self).config,
                self.stats == old(self).stats,
                self.message_counter == old(self).message_counter,
            decreases all@.len() - i,
        {
            let ghost cur = self.fleet_context@;
            let ghost rest = promotions_from(all_v, i + 1, thr);
            assert(all_v[i as int] == all@[i as int]@);
            if is_first_digest(&ds, i) && count_digest(&ds, ds[i]) > threshold {
                assert(promoted_at(all_v, i as int, thr));
                assert((seq![all_v[i as int]] + rest)[0] == all_v[i as int]);
                assert((seq![all_v[i as int]] + rest).drop_first() =~= rest);
                if self.fleet_context.find_pattern(all[i].data.as_slice()).is_none() {
                    proof {
                        self.fleet_context.lemma_ordered();
                        lemma_map_len(self.fleet_context.pattern_seq());
                    }
                    let p = all[i].duplicate();
                    let _ = self.fleet_context.register_pattern(p);
                }
            } else {
                assert(!promoted_at(all_v, i as int, thr));
            }
            i = i + 1;
        }
    }

    /// Account for a message processed from `emitter_id` at `priority`:
    /// the message totals and the priority's count advance, the emitter
    /// count is refreshed, a cross-fleet anomaly is counted and flags the
    /// emitter, a critical or important priority counts as an anomaly, and
    /// every `fleet_sync_interval` messages the shared patterns are
    /// promoted and the message counter starts again.
    pub fn record_processed(&mut self, emitter_id: EmitterId, priority: Priority, cross_fleet_anomaly: bool)
        requires
            old(self).wf(),
            old(self).spec_fleet_context().wf(),
            old(self).spec_stats().total_messages < u64::MAX,
            old(self).spec_stats().spec_priority_count(priority) < u64::MAX,
            cross_fleet_anomaly ==> old(self).spec_stats().cross_fleet_anomalies < u64::MAX,
            priority.spec_to_u8() <= 1 ==> old(self).spec_stats().anomaly_count < u64::MAX,
            old(self).spec_message_counter() < u64::MAX,
            old(self).spec_message_counter() + 1 >= old(self).spec_config().fleet_sync_interval ==> old(
                self,
            ).sync_fits(),
        ensures
            final(self).wf(),
            final(self).spec_fleet_context().wf(),
            final(self).emitter_map() == (if cross_fleet_anomaly && old(self).emitter_map().contains_key(
                emitter_id,
            ) {
                old(self).emitter_map().insert(
                    emitter_id,
                    EmitterState { is_anomalous: true, ..old(self).emitter_map()[emitter_id] },
                )
            } else {
                old(self).emitter_map()
            }),
            final(self).spec_stats().emitter_count == old(self).emitter_seq().len(),
            final(self).spec_stats().total_messages == old(self).spec_stats().total_messages + 1,
            forall|q: Priority| #[trigger]
                final(self).spec_stats().spec_priority_count(q) == old(self).spec_stats().spec_priority_count(q) + if q
                    == priority {
                    1int
                } else {
                    0int
                },
            final(self).spec_stats().priority_total() == old(self).spec_stats().priority_total() + 1,
            old(self).spec_stats().balanced() ==> final(self).spec_stats().balanced(),
            final(self).spec_stats().cross_fleet_anomalies == old(self).spec_stats().cross_fleet_anomalies + if cross_fleet_anomaly {
                1int
            } else {
                0int
            },
            final(self).spec_stats().anomaly_count == old(self).spec_stats().anomaly_count + if priority.spec_to_u8() <= 1 {
                1int
            } else {
                0int
            },
            old(self).spec_message_counter() + 1 >= old(self).spec_config().fleet_sync_interval ==> {
                &&& final(self).spec_message_counter() == 0
                &&& final(self).spec_fleet_context()@ == old(self).synced_fleet_context()
            },
            old(self).spec_message_counter() + 1 < old(self).spec_config().fleet_sync_interval ==> {
                &&& final(self).spec_message_counter() == old(self).spec_message_counter() + 1
                &&& final(self).spec_fleet_context() == old(self).spec_fleet_context()
            },
            final(self).spec_decoder() == old(self).spec_decoder(),
            final(self).spec_config() == old(self).spec_config(),
    {
        self.stats.total_messages = self.stats.total_messages + 1;
        self.stats.emitter_count = self.emitters.len();
        let code = priority.to_u8() as usize;
        let ghost pd = self.stats.priority_distribution@;
        self.stats.priority_distribution[code] = self.stats.priority_distribution[code] + 1;
        proof {
            assert(self.stats.priority_distribution@ =~= pd.update(code as int, (pd[code as int] + 1) as u64));
            assert forall|q: Priority| #[trigger]
                self.stats.spec_priority_count(q) == old(self).stats.spec_priority_count(q) + if q == priority {
                    1int
                } else {
                    0int
                } by {
                if q != priority {
                    assert(q.spec_to_u8() != priority.spec_to_u8());
                }
            }
        }
        if cross_fleet_anomaly {
            self.stats.cross_fleet_anomalies = self.stats.cross_fleet_anomalies + 1;
        }
        if code <= 1 {
            self.stats.anomaly_count = self.stats.anomaly_count + 1;
        }
        self.message_counter = self.message_counter + 1;
        if self.message_counter >= self.config.fleet_sync_interval {
            self.sync_fleet_patterns();
            self.message_counter = 0;
        }
        if cross_fleet_anomaly {
            match find_key(&self.emitters, emitter_id) {
                Some(i) => {
                    proof {
                        lemma_key_index(self.emitters@, i as int);
                        lemma_update_values(self.emitters@, i as int);
                    }
                    let ghost s0 = self.emitters@;
                    self.emitters[i].1.is_anomalous = true;
                    proof {
                        assert(self.emitters@ =~= s0.update(
                            i as int,
                            (s0[i as int].0, EmitterState { is_anomalous: true, ..s0[i as int].1 }),
                        ));
                    }
                },
                None => {},
            }
        }
    }

    /// All emitters, in ascending id order.
    pub fn emitters(&self) -> (r: &[(EmitterId, EmitterState)])
        ensures
            r@ == self.emitter_seq(),
    {
        self.emitters.as_slice()
    }
}

/// Promoting the shared patterns settles them: with the emitters unchanged,
/// a second promotion leaves the fleet context as the first one left it.
pub proof fn lemma_sync_settles(f: FleetManager, g: FleetManager)
    requires
        f.spec_fleet_context().wf(),
        g.emitter_seq() == f.emitter_seq(),
        g.spec_fleet_context()@ == f.synced_fleet_context(),
    ensures
        g.synced_fleet_context() == g.spec_fleet_context()@,
{
    if f.emitter_seq().len() >= 2 {
        let c = f.spec_fleet_context();
        c.lemma_ordered();
        lemma_map_len(c.pattern_seq());
        let ps = promotions_from(fleet_patterns(f.emitter_seq()), 0, (f.emitter_seq().len() / 2) as nat);
        lemma_promote_all_grows(c@, ps);
        lemma_promote_settled(promote_all(c@, ps), ps);
    }
}

/// Counting a digest's occurrences along the digests is counting the
/// patterns with that digest.
proof fn lemma_occurrences_filter(all: Seq<PatternView>, d: u64, k: nat)
    requires
        k <= all.len(),
    ensures
        occurrences(digests(all), d, k) == all.take(k as int).filter(|p: PatternView| pattern_key(p.data) == d).len(),
    decreases k,
{
    reveal(Seq::filter);
    let pred = |p: PatternView| pattern_key(p.data) == d;
    if k > 0 {
        lemma_occurrences_filter(all, d, (k - 1) as nat);
        let t = all.take(k as int);
        assert(t.drop_last() =~= all.take(k - 1));
        assert(t.last() == all[k - 1]);
    } else {
        assert(all.take(0) =~= Seq::<PatternView>::empty());
    }
}

/// A promoted pattern at or after position `j` is among the promotions
/// from `j` on.
proof fn lemma_promotions_contain(all: Seq<PatternView>, j: int, i: int, threshold: nat)
    requires
        0 <= j <= i < all.len(),
        promoted_at(all, i, threshold),
    ensures
        exists|k: int| 0 <= k < promotions_from(all, j, threshold).len() && #[trigger] promotions_from(all, j, threshold)[k]
            == all[i],
    decreases i - j,
{
    let rest = promotions_from(all, j + 1, threshold);
    if j == i {
        assert(promotions_from(all, j, threshold)[0] == all[i]);
    } else {
        lemma_promotions_contain(all, j + 1, i, threshold);
        let k = choose|k: int| 0 <= k < rest.len() && #[trigger] rest[k] == all[i];
        if promoted_at(all, j, threshold) {
            assert(promotions_from(all, j, threshold)[k + 1] == all[i]);
        } else {
            assert(promotions_from(all, j, threshold)[k] == all[i]);
        }
    }
}

/// Patterns most emitters share reach the fleet context: with `n >= 2`
/// emitters, after a promotion every pattern whose digest occurs among the
/// emitters' patterns more than `n / 2` times (taken where it first
/// occurs) has its digest filed in the fleet context, unless it is too
/// large to register or the fleet dictionary is full.
pub proof fn lemma_sync_promotes_majority(f: FleetManager, g: FleetManager, i: int)
    requires
        f.spec_fleet_context().wf(),
        f.emitter_seq().len() >= 2,
        g.emitter_seq() == f.emitter_seq(),
        g.spec_fleet_context()@ == f.synced_fleet_context(),
        0 <= i < fleet_patterns(f.emitter_seq()).len(),
        forall|j: int|
            0 <= j < i ==> pattern_key(#[trigger] fleet_patterns(f.emitter_seq())[j].data) != pattern_key(
                fleet_patterns(f.emitter_seq())[i].data,
            ),
        fleet_patterns(f.emitter_seq()).filter(
            |p: PatternView| pattern_key(p.data) == pattern_key(fleet_patterns(f.emitter_seq())[i].data),
        ).len() > f.emitter_seq().len() / 2,
    ensures
        ({
            let p = fleet_patterns(f.emitter_seq())[i];
            let c = g.spec_fleet_context()@;
            ||| c.index.contains_key(pattern_key(p.data))
            ||| p.data.len() > MAX_PATTERN_SIZE
            ||| c.patterns.len() >= c.config.max_patterns
        }),
{
    let all = fleet_patterns(f.emitter_seq());
    let n = f.emitter_seq().len();
    let thr = (n / 2) as nat;
    let d = pattern_key(all[i].data);
    lemma_occurrences_filter(all, d, all.len());
    assert(all.take(all.len() as int) =~= all);
    let ds = digests(all);
    assert(ds[i] == d);
    assert forall|j: int| 0 <= j < i implies ds[j] != ds[i] by {
        assert(ds[j] == pattern_key(all[j].data));
    }
    assert(promoted_at(all, i, thr));
    lemma_promotions_contain(all, 0, i, thr);
    let ps = promotions_from(all, 0, thr);
    let k = choose|k: int| 0 <= k < ps.len() && #[trigger] ps[k] == all[i];
    let c0 = f.spec_fleet_context();
    c0.lemma_ordered();
    lemma_map_len(c0.pattern_seq());
    lemma_promote_all_grows(c0@, ps);
    assert(settled(promote_all(c0@, ps), ps[k]));
}

/// Offering patterns files no digest but those already filed and those of
/// the patterns offered.
proof fn lemma_promote_all_files_only(v: ContextView, ps: Seq<PatternView>)
    ensures
        forall|d: u64| #[trigger]
            promote_all(v, ps).index.contains_key(d) ==> v.index.contains_key(d) || exists|k: int|
                0 <= k < ps.len() && pattern_key(ps[k].data) == d,
    decreases ps.len(),
{
    if ps.len() > 0 {
        let u = promote(v, ps[0]);
        lemma_promote_all_files_only(u, ps.drop_first());
        assert(promote_all(v, ps) == promote_all(u, ps.drop_first()));
        assert forall|d: u64| #[trigger] u.index.contains_key(d) implies v.index.contains_key(d) || d == pattern_key(
            ps[0].data,
        ) by {}
        assert forall|d: u64| #[trigger] promote_all(v, ps).index.contains_key(d) implies v.index.contains_key(d)
            || exists|k: int| 0 <= k < ps.len() && pattern_key(ps[k].data) == d by {
            if !u.index.contains_key(d) {
                assert(exists|k: int| 0 <= k < ps.drop_first().len() && pattern_key(ps.drop_first()[k].data) == d);
                let k = choose|k: int| 0 <= k < ps.drop_first().len() && pattern_key(ps.drop_first()[k].data) == d;
                assert(ps[k + 1] == ps.drop_first()[k]);
            } else if !v.index.contains_key(d) {
                assert(pattern_key(ps[0].data) == d);
            }
        }
    }
}

/// Every pattern among the promotions from position `j` on is a promoted
/// pattern of `all`.
proof fn lemma_promotions_are_promoted(all: Seq<PatternView>, j: int, threshold: nat)
    requires
        0 <= j,
    ensures
        forall|k: int|
            0 <= k < promotions_from(all, j, threshold).len() ==> exists|i: int|
                j <= i < all.len() && promoted_at(all, i, threshold) && all[i] == #[trigger] promotions_from(
                    all,
                    j,
                    threshold,
                )[k],
    decreases all.len() - j,
{
    if j < all.len() {
        lemma_promotions_are_promoted(all, j + 1, threshold);
        let rest = promotions_from(all, j + 1, threshold);
        let ps = promotions_from(all, j, threshold);
        if promoted_at(all, j, threshold) {
            assert(ps == seq![all[j]] + rest);
        } else {
            assert(ps == rest);
        }
        assert forall|k: int| 0 <= k < ps.len() implies exists|i: int|
            j <= i < all.len() && promoted_at(all, i, threshold) && all[i] == #[trigger] ps[k] by {
            if promoted_at(all, j, threshold) {
                if k == 0 {
                    assert(ps[0] == all[j]);
                } else {
                    assert(ps[k] == rest[k - 1]);
                }
            } else {
                assert(ps[k] == rest[k]);
            }
        }
    }
}

/// Only patterns most emitters share reach the fleet context: after a
/// promotion, every digest the fleet context files that it did not file
/// before is the digest of one of the emitters' patterns whose digest
/// occurs among them more than `n / 2` times.
pub proof fn lemma_sync_promotes_only_majority(f: FleetManager, g: FleetManager, d: u64)
    requires
        g.emitter_seq() == f.emitter_seq(),
        g.spec_fleet_context()@ == f.synced_fleet_context(),
        g.spec_fleet_context()@.index.contains_key(d),
        !f.spec_fleet_context()@.index.contains_key(d),
    ensures
        exists|i: int|
            0 <= i < fleet_patterns(f.emitter_seq()).len() && pattern_key(
                #[trigger] fleet_patterns(f.emitter_seq())[i].data,
            ) == d && fleet_patterns(f.emitter_seq()).filter(|p: PatternView| pattern_key(p.data) == d).len()
                > f.emitter_seq().len() / 2,
{
    let all = fleet_patterns(f.emitter_seq());
    let n = f.emitter_seq().len();
    let thr = (n / 2) as nat;
    let ps = promotions_from(all, 0, thr);
    let v = f.spec_fleet_context()@;
    if n >= 2 {
        lemma_promote_all_files_only(v, ps);
        let k = choose|k: int| 0 <= k < ps.len() && pattern_key(ps[k].data) == d;
        lemma_promotions_are_promoted(all, 0, thr);
        let i = choose|i: int| 0 <= i < all.len() && promoted_at(all, i, thr) && all[i] == #[trigger] ps[k];
        lemma_occurrences_filter(all, d, all.len());
        assert(all.take(all.len() as int) =~= all);
        assert(digests(all)[i] == d);
    }
}

impl Default for FleetManager {
    fn default() -> (r: Self)
        ensures
            r.wf(),
            r.emitter_seq().len() == 0,
            r.spec_fleet_context().wf(),
            r.spec_fleet_context()@ == empty_view(default_context_config()),
            r.spec_config().emitter_timeout == 300,
            r.spec_stats().is_zero(),
            r.spec_stats().balanced(),
            r.spec_message_counter() == 0,
    {
        Self::new()
    }
}

} // verus!
