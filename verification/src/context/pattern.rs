//! The values a context keeps: dictionary patterns, per-source statistics
//! and the context configuration. Floating-point quantities are held as
//! the bit patterns of their IEEE-754 `f64` values, which is exactly what
//! the persisted formats carry.

use vstd::prelude::*;
use crate::bytes::{be64, push_be64};
use crate::context::{EvolutionConfig, MAX_PATTERNS, DEFAULT_MEMORY_LIMIT};

verus! {

/// A dictionary pattern, by value.
#[verifier::ext_equal]
pub struct PatternView {
    pub data: Seq<u8>,
    pub value_bits: Option<u64>,
    pub frequency: u64,
    pub last_used: u64,
    pub created_at: u64,
}

/// A pattern in the dictionary with its usage statistics.
#[derive(Debug, Clone, PartialEq)]
pub struct Pattern {
    /// Raw bytes of the pattern
    pub data: Vec<u8>,
    /// Bit pattern of the associated `f64` value, for a numeric pattern
    pub value_bits: Option<u64>,
    /// Usage frequency counter
    pub frequency: u64,
    /// Last time this pattern was used (observation count)
    pub last_used: u64,
    /// When the pattern was created (observation count)
    pub created_at: u64,
}

impl View for Pattern {
    type V = PatternView;

    open spec fn view(&self) -> PatternView {
        PatternView {
            data: self.data@,
            value_bits: self.value_bits,
            frequency: self.frequency,
            last_used: self.last_used,
            created_at: self.created_at,
        }
    }
}

/// Copies the bytes of `src`.
fn copy_bytes(src: &Vec<u8>) -> (r: Vec<u8>)
    ensures
        r@ == src@,
{
    let mut r: Vec<u8> = Vec::new();
    let mut i: usize = 0;
    while i < src.len()
        invariant
            i <= src@.len(),
            r@ == src@.subrange(0, i as int),
        decreases src@.len() - i,
    {
        r.push(src[i]);
        i = i + 1;
        assert(r@ =~= src@.subrange(0, i as int));
    }
    assert(src@.subrange(0, src@.len() as int) =~= src@);
    r
}

impl Pattern {
    /// A pattern seen once, at time 0.
    pub fn new(data: Vec<u8>) -> (r: Self)
        ensures
            r@ == (PatternView { data: data@, value_bits: None, frequency: 1, last_used: 0, created_at: 0 }),
    {
        Pattern { data, value_bits: None, frequency: 1, last_used: 0, created_at: 0 }
    }

    /// A pattern seen once, at `timestamp`.
    pub fn with_timestamp(data: Vec<u8>, timestamp: u64) -> (r: Self)
        ensures
            r@ == (PatternView {
                data: data@,
                value_bits: None,
                frequency: 1,
                last_used: timestamp,
                created_at: timestamp,
            }),
    {
        Pattern { data, value_bits: None, frequency: 1, last_used: timestamp, created_at: timestamp }
    }

    /// A numeric pattern: its bytes are the big-endian bytes of the value's
    /// bit pattern.
    pub fn numeric(value_bits: u64) -> (r: Self)
        ensures
            r@ == (PatternView {
                data: be64(value_bits),
                value_bits: Some(value_bits),
                frequency: 1,
                last_used: 0,
                created_at: 0,
            }),
    {
        let mut data: Vec<u8> = Vec::new();
        push_be64(&mut data, value_bits);
        assert(data@ =~= be64(value_bits));
        Pattern { data, value_bits: Some(value_bits), frequency: 1, last_used: 0, created_at: 0 }
    }

    /// A numeric pattern seen once, at `timestamp`.
    pub fn numeric_with_timestamp(value_bits: u64, timestamp: u64) -> (r: Self)
        ensures
            r@ == (PatternView {
                data: be64(value_bits),
                value_bits: Some(value_bits),
                frequency: 1,
                last_used: timestamp,
                created_at: timestamp,
            }),
    {
        let mut data: Vec<u8> = Vec::new();
        push_be64(&mut data, value_bits);
        assert(data@ =~= be64(value_bits));
        Pattern {
            data,
            value_bits: Some(value_bits),
            frequency: 1,
            last_used: timestamp,
            created_at: timestamp,
        }
    }

    /// Records one more use at `timestamp`; the counter stops at its maximum.
    pub fn touch(&mut self, timestamp: u64)
        ensures
            final(self)@ == (PatternView {
                frequency: if old(self).frequency == u64::MAX {
                    u64::MAX
                } else {
                    (old(self).frequency + 1) as u64
                },
                last_used: timestamp,
                ..old(self)@
            }),
    {
        self.frequency = self.frequency.saturating_add(1);
        self.last_used = timestamp;
    }

    /// An equal pattern with its own copy of the bytes.
    pub fn duplicate(&self) -> (r: Self)
        ensures
            r@ == self@,
    {
        Pattern {
            data: copy_bytes(&self.data),
            value_bits: self.value_bits,
            frequency: self.frequency,
            last_used: self.last_used,
            created_at: self.created_at,
        }
    }
}

/// Per-source statistics, by value.
#[verifier::ext_equal]
pub struct SourceStatsView {
    pub last_value_bits: u64,
    pub ema_bits: u64,
    pub ema_alpha_bits: u64,
    pub count: u64,
    pub sum_sq_diff_bits: u64,
    pub mean_bits: u64,
    pub history_bits: Seq<u64>,
    pub max_history: usize,
}

/// Statistics of one source, as the predictor keeps them.
#[derive(Debug, Clone, PartialEq)]
pub struct SourceStats {
    /// Bit pattern of the last observed value
    pub last_value_bits: u64,
    /// Bit pattern of the exponential moving average
    pub ema_bits: u64,
    /// Bit pattern of the EMA smoothing factor
    pub ema_alpha_bits: u64,
    /// Number of observations
    pub count: u64,
    /// Bit pattern of the sum of squared differences (for the variance)
    pub sum_sq_diff_bits: u64,
    /// Bit pattern of the running mean
    pub mean_bits: u64,
    /// Bit patterns of the recent values, oldest first
    pub history_bits: Vec<u64>,
    /// Maximum history size
    pub max_history: usize,
}

impl View for SourceStats {
    type V = SourceStatsView;

    open spec fn view(&self) -> SourceStatsView {
        SourceStatsView {
            last_value_bits: self.last_value_bits,
            ema_bits: self.ema_bits,
            ema_alpha_bits: self.ema_alpha_bits,
            count: self.count,
            sum_sq_diff_bits: self.sum_sq_diff_bits,
            mean_bits: self.mean_bits,
            history_bits: self.history_bits@,
            max_history: self.max_history,
        }
    }
}

impl SourceStats {
    /// Fresh statistics: no observation yet, every value zero.
    pub fn new(max_history: usize, ema_alpha_bits: u64) -> (r: Self)
        ensures
            r@ == (SourceStatsView {
                last_value_bits: 0,
                ema_bits: 0,
                ema_alpha_bits,
                count: 0,
                sum_sq_diff_bits: 0,
                mean_bits: 0,
                history_bits: Seq::empty(),
                max_history,
            }),
    {
        SourceStats {
            last_value_bits: 0,
            ema_bits: 0,
            ema_alpha_bits,
            count: 0,
            sum_sq_diff_bits: 0,
            mean_bits: 0,
            history_bits: Vec::new(),
            max_history,
        }
    }

    /// Records one observation whose value is `value_bits`, with the moving
    /// average, mean and sum of squared differences updated for it: the
    /// count advances, the value becomes the last one and joins the history,
    /// which drops its oldest value when full.
    pub fn record_value(&mut self, value_bits: u64, ema_bits: u64, mean_bits: u64, sum_sq_diff_bits: u64)
        requires
            old(self)@.count < u64::MAX,
            old(self)@.max_history > 0,
        ensures
            final(self)@ == (SourceStatsView {
                last_value_bits: value_bits,
                ema_bits,
                count: (old(self)@.count + 1) as u64,
                sum_sq_diff_bits,
                mean_bits,
                history_bits: windowed(old(self)@.history_bits, old(self)@.max_history, value_bits),
                ..old(self)@
            }),
    {
        self.count = self.count + 1;
        self.last_value_bits = value_bits;
        self.ema_bits = ema_bits;
        self.mean_bits = mean_bits;
        self.sum_sq_diff_bits = sum_sq_diff_bits;
        if self.history_bits.len() >= self.max_history {
            self.history_bits.remove(0);
        }
        self.history_bits.push(value_bits);
    }

    /// Equal statistics with their own copy of the history.
    pub fn duplicate(&self) -> (r: Self)
        ensures
            r@ == self@,
    {
        let mut history: Vec<u64> = Vec::new();
        let mut i: usize = 0;
        while i < self.history_bits.len()
            invariant
                i <= self.history_bits@.len(),
                history@ == self.history_bits@.subrange(0, i as int),
            decreases self.history_bits@.len() - i,
        {
            history.push(self.history_bits[i]);
            i = i + 1;
            assert(history@ =~= self.history_bits@.subrange(0, i as int));
        }
        assert(self.history_bits@.subrange(0, self.history_bits@.len() as int) =~= self.history_bits@);
        SourceStats {
            last_value_bits: self.last_value_bits,
            ema_bits: self.ema_bits,
            ema_alpha_bits: self.ema_alpha_bits,
            count: self.count,
            sum_sq_diff_bits: self.sum_sq_diff_bits,
            mean_bits: self.mean_bits,
            history_bits: history,
            max_history: self.max_history,
        }
    }
}

/// The history after adding `v`: the oldest value is dropped first when
/// the history holds `max` values or more.
pub open spec fn windowed(h: Seq<u64>, max: usize, v: u64) -> Seq<u64> {
    if h.len() >= max {
        h.drop_first().push(v)
    } else {
        h.push(v)
    }
}

/// A history never grows past its maximum, and its newest value is the
/// last one added.
pub proof fn lemma_windowed_bounded(h: Seq<u64>, max: usize, v: u64)
    requires
        max > 0,
        h.len() <= max,
    ensures
        windowed(h, max, v).len() <= max,
        windowed(h, max, v).last() == v,
        h.len() < max ==> windowed(h, max, v).len() == h.len() + 1,
{
}

/// Bit pattern of the `f64` value 0.3, the default EMA smoothing factor.
pub const DEFAULT_EMA_ALPHA_BITS: u64 = 0x3FD3333333333333;

/// Configuration of a context.
#[derive(Debug, Clone, Copy)]
pub struct ContextConfig {
    /// Maximum patterns in dictionary
    pub max_patterns: usize,
    /// Maximum memory usage in bytes
    pub max_memory: usize,
    /// History size per source for predictions
    pub history_size: usize,
    /// Bit pattern of the EMA smoothing factor for predictions
    pub ema_alpha_bits: u64,
    /// Evolution configuration
    pub evolution: EvolutionConfig,
}

/// The default configuration: the library's limits, a history of 100
/// values, smoothing factor 0.3 and the default evolution settings.
pub open spec fn default_context_config() -> ContextConfig {
    ContextConfig {
        max_patterns: MAX_PATTERNS,
        max_memory: DEFAULT_MEMORY_LIMIT,
        history_size: 100,
        ema_alpha_bits: DEFAULT_EMA_ALPHA_BITS,
        evolution: EvolutionConfig {
            min_frequency: 2,
            max_age: 10000,
            evolution_interval: 100,
            promotion_threshold: 10,
            enabled: true,
        },
    }
}

impl Default for ContextConfig {
    fn default() -> (r: Self)
        ensures
            r == default_context_config(),
    {
        ContextConfig {
            max_patterns: MAX_PATTERNS,
            max_memory: DEFAULT_MEMORY_LIMIT,
            history_size: 100,
            ema_alpha_bits: DEFAULT_EMA_ALPHA_BITS,
            evolution: EvolutionConfig::default(),
        }
    }
}

} // verus!
