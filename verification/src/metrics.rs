//! Compression statistics: byte and message counters, the distribution of
//! encoding types and prediction hits.

use vstd::prelude::*;

use crate::context::Context;
use crate::protocol::EncodingType;

verus! {

/// The slot of an encoding type in the distribution (0 to 9, in the order
/// of declaration).
pub open spec fn encoding_slot(e: EncodingType) -> int {
    match e {
        EncodingType::Raw64 => 0,
        EncodingType::Raw32 => 1,
        EncodingType::Delta8 => 2,
        EncodingType::Delta16 => 3,
        EncodingType::Delta32 => 4,
        EncodingType::Pattern => 5,
        EncodingType::PatternDelta => 6,
        EncodingType::Repeated => 7,
        EncodingType::Interpolated => 8,
        EncodingType::Multi => 9,
    }
}

/// The encoding type of a slot.
pub open spec fn slot_encoding(i: int) -> EncodingType {
    if i == 0 {
        EncodingType::Raw64
    } else if i == 1 {
        EncodingType::Raw32
    } else if i == 2 {
        EncodingType::Delta8
    } else if i == 3 {
        EncodingType::Delta16
    } else if i == 4 {
        EncodingType::Delta32
    } else if i == 5 {
        EncodingType::Pattern
    } else if i == 6 {
        EncodingType::PatternDelta
    } else if i == 7 {
        EncodingType::Repeated
    } else if i == 8 {
        EncodingType::Interpolated
    } else {
        EncodingType::Multi
    }
}

/// Slots and encoding types correspond one to one.
pub proof fn lemma_encoding_slots(e: EncodingType, i: int)
    ensures
        0 <= encoding_slot(e) < 10,
        slot_encoding(encoding_slot(e)) == e,
        0 <= i < 10 ==> encoding_slot(slot_encoding(i)) == i,
{
}

fn slot_of(e: EncodingType) -> (r: usize)
    ensures
        r == encoding_slot(e),
{
    match e {
        EncodingType::Raw64 => 0,
        EncodingType::Raw32 => 1,
        EncodingType::Delta8 => 2,
        EncodingType::Delta16 => 3,
        EncodingType::Delta32 => 4,
        EncodingType::Pattern => 5,
        EncodingType::PatternDelta => 6,
        EncodingType::Repeated => 7,
        EncodingType::Interpolated => 8,
        EncodingType::Multi => 9,
    }
}

fn encoding_of_slot(i: usize) -> (r: EncodingType)
    requires
        i < 10,
    ensures
        r == slot_encoding(i as int),
{
    match i {
        0 => EncodingType::Raw64,
        1 => EncodingType::Raw32,
        2 => EncodingType::Delta8,
        3 => EncodingType::Delta16,
        4 => EncodingType::Delta32,
        5 => EncodingType::Pattern,
        6 => EncodingType::PatternDelta,
        7 => EncodingType::Repeated,
        8 => EncodingType::Interpolated,
        _ => EncodingType::Multi,
    }
}

/// Compression statistics collector.
#[derive(Debug, Clone)]
pub struct CompressionMetrics {
    /// Total raw bytes (before compression)
    pub raw_bytes: u64,
    /// Total encoded bytes (after compression)
    pub encoded_bytes: u64,
    /// Number of messages processed
    pub message_count: u64,
    /// Messages per encoding type, by slot
    pub encoding_counts: [u64; 10],
    /// Prediction hits (value matched prediction)
    pub prediction_hits: u64,
    /// Prediction misses
    pub prediction_misses: u64,
}

impl CompressionMetrics {
    /// The number of messages recorded with an encoding type.
    pub open spec fn spec_count(&self, e: EncodingType) -> u64 {
        self.encoding_counts@[encoding_slot(e)]
    }

    /// The messages counted over all encoding slots.
    pub open spec fn slot_total(&self) -> int {
        let c = self.encoding_counts@;
        c[0] + c[1] + c[2] + c[3] + c[4] + c[5] + c[6] + c[7] + c[8] + c[9]
    }

    /// Every message counted is counted under exactly one encoding.
    pub open spec fn balanced(&self) -> bool {
        self.message_count == self.slot_total()
    }

    /// Every counter at zero.
    pub open spec fn is_zero(&self) -> bool {
        &&& self.raw_bytes == 0
        &&& self.encoded_bytes == 0
        &&& self.message_count == 0
        &&& self.prediction_hits == 0
        &&& self.prediction_misses == 0
        &&& forall|e: EncodingType| #[trigger] self.spec_count(e) == 0
    }

    /// Create a new metrics collector.
    pub fn new() -> (r: Self)
        ensures
            r.is_zero(),
            r.balanced(),
    {
        Self::default()
    }

    /// The number of messages recorded with an encoding type.
    pub fn encoding_count(&self, e: EncodingType) -> (r: u64)
        ensures
            r == self.spec_count(e),
    {
        self.encoding_counts[slot_of(e)]
    }

    /// Record an encoding operation.
    pub fn record_encode(&mut self, raw_size: usize, encoded_size: usize, encoding: EncodingType)
        requires
            old(self).raw_bytes + raw_size <= u64::MAX,
            old(self).encoded_bytes + encoded_size <= u64::MAX,
            old(self).message_count < u64::MAX,
            old(self).spec_count(encoding) < u64::MAX,
        ensures
            final(self).raw_bytes == old(self).raw_bytes + raw_size,
            final(self).encoded_bytes == old(self).encoded_bytes + encoded_size,
            final(self).message_count == old(self).message_count + 1,
            final(self).spec_count(encoding) == old(self).spec_count(encoding) + 1,
            forall|e: EncodingType| e != encoding ==> #[trigger] final(self).spec_count(e) == old(self).spec_count(e),
            final(self).prediction_hits == old(self).prediction_hits,
            final(self).prediction_misses == old(self).prediction_misses,
            final(self).slot_total() == old(self).slot_total() + 1,
            old(self).balanced() ==> final(self).balanced(),
    {
        let ghost before = self.encoding_counts@;
        self.raw_bytes = self.raw_bytes + raw_size as u64;
        self.encoded_bytes = self.encoded_bytes + encoded_size as u64;
        self.message_count = self.message_count + 1;
        let i = slot_of(encoding);
        let c = self.encoding_counts[i];
        self.encoding_counts[i] = c + 1;
        assert(self.encoding_counts@ =~= before.update(i as int, (c + 1) as u64));
        proof {
            assert forall|e: EncodingType| e != encoding implies #[trigger] self.spec_count(e) == old(self).spec_count(e) by {
                lemma_encoding_slots(e, 0);
                lemma_encoding_slots(encoding, 0);
            }
        }
    }

    /// Record a prediction result.
    pub fn record_prediction(&mut self, hit: bool)
        requires
            hit ==> old(self).prediction_hits < u64::MAX,
            !hit ==> old(self).prediction_misses < u64::MAX,
        ensures
            final(self).prediction_hits == old(self).prediction_hits + if hit {
                1int
            } else {
                0int
            },
            final(self).prediction_misses == old(self).prediction_misses + if hit {
                0int
            } else {
                1int
            },
            final(self).raw_bytes == old(self).raw_bytes,
            final(self).encoded_bytes == old(self).encoded_bytes,
            final(self).message_count == old(self).message_count,
            forall|e: EncodingType| #[trigger] final(self).spec_count(e) == old(self).spec_count(e),
            final(self).slot_total() == old(self).slot_total(),
    {
        if hit {
            self.prediction_hits = self.prediction_hits + 1;
        } else {
            self.prediction_misses = self.prediction_misses + 1;
        }
    }

    /// The most used encoding type: one recorded the most times, none if
    /// nothing was recorded.
    pub fn most_used_encoding(&self) -> (r: Option<EncodingType>)
        ensures
            r is None <==> forall|e: EncodingType| #[trigger] self.spec_count(e) == 0,
            r matches Some(m) ==> self.spec_count(m) > 0 && forall|e: EncodingType|
                #[trigger] self.spec_count(e) <= self.spec_count(m),
    {
        let mut best: usize = 0;
        let mut i: usize = 1;
        while i < 10
            invariant
                1 <= i <= 10,
                best < i,
                forall|j: int| 0 <= j < i ==> self.encoding_counts@[j] <= self.encoding_counts@[best as int],
            decreases 10 - i,
        {
            if self.encoding_counts[i] > self.encoding_counts[best] {
                best = i;
            }
            i = i + 1;
        }
        proof {
            assert forall|e: EncodingType| #[trigger] self.spec_count(e) <= self.encoding_counts@[best as int] by {
                lemma_encoding_slots(e, 0);
            }
            lemma_encoding_slots(slot_encoding(best as int), best as int);
            assert(self.spec_count(slot_encoding(best as int)) == self.encoding_counts@[best as int]);
        }
        if self.encoding_counts[best] == 0 {
            None
        } else {
            Some(encoding_of_slot(best))
        }
    }

    /// Reset all metrics.
    pub fn reset(&mut self)
        ensures
            final(self).is_zero(),
            final(self).balanced(),
    {
        *self = Self::default();
    }
}

impl Default for CompressionMetrics {
    fn default() -> (r: Self)
        ensures
            r.is_zero(),
            r.balanced(),
    {
        CompressionMetrics {
            raw_bytes: 0,
            encoded_bytes: 0,
            message_count: 0,
            encoding_counts: [0u64; 10],
            prediction_hits: 0,
            prediction_misses: 0,
        }
    }
}

/// Context statistics.
#[derive(Debug, Clone, Copy)]
pub struct ContextMetrics {
    /// Number of patterns in the dictionary
    pub pattern_count: usize,
    /// Total memory used by the context (estimated)
    pub memory_bytes: usize,
    /// Number of sources tracked
    pub source_count: usize,
    /// Context version
    pub version: u32,
}

impl ContextMetrics {
    /// The statistics of a context: its pattern and source counts, its
    /// estimated memory and its version.
    pub fn from_context(context: &Context) -> (r: Self)
        requires
            context.spec_memory_usage() <= usize::MAX,
        ensures
            r.pattern_count == context.pattern_seq().len(),
            r.memory_bytes == context.spec_memory_usage(),
            r.source_count == context.source_seq().len(),
            r.version == context@.version,
    {
        ContextMetrics {
            pattern_count: context.pattern_count(),
            memory_bytes: context.estimated_memory(),
            source_count: context.source_count(),
            version: context.version(),
        }
    }
}

impl Default for ContextMetrics {
    fn default() -> (r: Self)
        ensures
            r.pattern_count == 0,
            r.memory_bytes == 0,
            r.source_count == 0,
            r.version == 0,
    {
        ContextMetrics { pattern_count: 0, memory_bytes: 0, source_count: 0, version: 0 }
    }
}

} // verus!
