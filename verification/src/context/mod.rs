//! Shared-context definitions: prediction models, evolution settings and
//! the preload file entries.

use vstd::prelude::*;

mod pattern;
mod preload;
mod preload_file;
mod roundtrip;
mod state;

pub use pattern::{
    default_context_config, lemma_windowed_bounded, windowed, ContextConfig, Pattern, PatternView, SourceStats, SourceStatsView, DEFAULT_EMA_ALPHA_BITS,
};

pub use preload::{
    PreloadDictEntry, PreloadPredictionType, VersionCheckResult, MAX_SENSOR_TYPE_LEN, PRELOAD_FORMAT_VERSION,
    PRELOAD_HEADER_SIZE, PRELOAD_MAGIC,
};
pub use state::{
    with_pattern, without_pattern, fresh_pattern, lemma_export_entries_cons, export_entry, export_entries, export_bytes, import_entries, import_of, entry_bytes, lemma_export_import, keeps, pruned, pruned_digests, reordered, reindexed,
    imported_patterns, imported_index, imported_next_code, register_fits, alcs_bytes, alcs_body, alcs_read, alcs_error, restored_view, AlcsContents, AlcsFault, ALCS_FORMAT_VERSION,
    empty_view, hash_entry, hash_input, pattern_key, patterns_footprint, registered, reused, Context, ContextView,
};
pub use preload_file::{
    after_entries, computed_checksum, default_statistics, dict_bytes, entry_view, header_bytes, parse_preload_file, preload_dictionary, preload_file_bytes, preload_magic,
    lossy_text, preload_result, preload_sections, preloaded_index, preloaded_next_code, preloaded_pattern, preloaded_patterns, preloaded_view, lemma_preload_file_roundtrip, lemma_preload_context_roundtrip, context_preload, preload_kept, lemma_statistics_roundtrip, lemma_model_roundtrip, read_dict, sections_bytes, sensor_end, sensor_field, sensor_len, trim_nul, PreloadFault, PreloadFile, PreloadFileView,
};
pub use roundtrip::{lemma_preload_roundtrip, storable_stats, without_values};
pub use preload::{
    dict_entry_bytes, le64_list, lemma_dict_entry_roundtrip, lemma_prediction_model_store_load, lemma_prediction_type_code_roundtrip, loaded_prediction_model, model_bytes,
    parse_model, parse_statistics, read_le64_list, spec_parse_dict_entry, statistics_bytes, stored_prediction_type, PreloadPredictionModel, PreloadPredictionModelView,
    PreloadStatistics, PreloadStatisticsView, F64_MAX_BITS, F64_MIN_BITS,
};

verus! {

/// Maximum number of patterns in the dictionary.
pub const MAX_PATTERNS: usize = 65535;

/// Maximum pattern size in bytes.
pub const MAX_PATTERN_SIZE: usize = 255;

/// Default memory limit of a context (64 KB).
pub const DEFAULT_MEMORY_LIMIT: usize = 65536;

/// Type of prediction model.
#[derive(Debug, Clone, Copy, PartialEq, Eq, Structural, Default)]
pub enum PredictionModel {
    /// No model, using last value
    #[default]
    LastValue,
    /// Simple moving average
    MovingAverage,
    /// Linear regression
    LinearRegression,
    /// Periodic pattern detected
    Periodic,
}

/// Configuration of context evolution.
#[derive(Debug, Clone, Copy)]
pub struct EvolutionConfig {
    /// Minimum frequency to keep a pattern during pruning
    pub min_frequency: u64,
    /// Maximum age (in observations) before pruning
    pub max_age: u64,
    /// How often to run evolution (every N observations)
    pub evolution_interval: u64,
    /// Threshold for promotion (frequency)
    pub promotion_threshold: u64,
    /// Whether evolution is enabled
    pub enabled: bool,
}

impl Default for EvolutionConfig {
    fn default() -> (r: Self)
        ensures
            r.min_frequency == 2,
            r.max_age == 10000,
            r.evolution_interval == 100,
            r.promotion_threshold == 10,
            r.enabled,
    {
        EvolutionConfig {
            min_frequency: 2,
            max_age: 10000,
            evolution_interval: 100,
            promotion_threshold: 10,
            enabled: true,
        }
    }
}

} // verus!
