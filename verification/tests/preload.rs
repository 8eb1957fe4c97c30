use alec::context::{PreloadDictEntry, PreloadPredictionType, VersionCheckResult};
use alec::error::{AlecError, DecodeError};

#[test]
fn test_dict_entry_roundtrip() {
    let entry = PreloadDictEntry { pattern: vec![0x42, 0x43, 0x44], code: 123, frequency: 456789 };

    let bytes = entry.to_bytes();
    let (restored, consumed) = PreloadDictEntry::from_bytes(&bytes).unwrap();

    assert_eq!(entry, restored);
    assert_eq!(consumed, bytes.len());
}

#[test]
fn test_version_check_result() {
    assert!(VersionCheckResult::Match.is_match());
    assert!(!VersionCheckResult::Mismatch { expected: 1, actual: 2 }.is_match());
}

#[test]
fn dict_entry_layout_is_little_endian() {
    let entry = PreloadDictEntry { pattern: vec![9], code: 0x0102, frequency: 0x03040506 };
    assert_eq!(entry.to_bytes(), vec![1, 9, 0x02, 0x01, 0x06, 0x05, 0x04, 0x03]);
}

#[test]
fn dict_entry_from_short_buffer_fails() {
    assert!(matches!(
        PreloadDictEntry::from_bytes(&[]),
        Err(AlecError::Decode(DecodeError::BufferTooShort { .. }))
    ));
    assert!(PreloadDictEntry::from_bytes(&[3, 1, 2]).is_err());
}

#[test]
fn prediction_type_codes() {
    for code in 0u8..5 {
        assert_eq!(PreloadPredictionType::from_u8(code).unwrap().to_u8(), code);
    }
    assert_eq!(PreloadPredictionType::from_u8(5), None);
    assert_eq!(PreloadPredictionType::default(), PreloadPredictionType::NoPrediction);
}

#[test]
fn version_check_compares_versions() {
    assert!(VersionCheckResult::check(3, 3).is_match());
    assert_eq!(VersionCheckResult::check(3, 4), VersionCheckResult::Mismatch { expected: 3, actual: 4 });
}

use alec::context::{
    Context, ContextConfig, EvolutionConfig, Pattern, PreloadFile, PreloadPredictionModel, PreloadStatistics,
    SourceStats, DEFAULT_EMA_ALPHA_BITS, PRELOAD_FORMAT_VERSION,
};

fn bits(v: &[f64]) -> Vec<u64> {
    v.iter().map(|x| x.to_bits()).collect()
}

#[test]
fn test_statistics_roundtrip() {
    let stats = PreloadStatistics {
        mean_bits: 25.5f64.to_bits(),
        variance_bits: 0.1f64.to_bits(),
        min_observed_bits: 20.0f64.to_bits(),
        max_observed_bits: 30.0f64.to_bits(),
        min_expected_bits: 15.0f64.to_bits(),
        max_expected_bits: 35.0f64.to_bits(),
        recent_values_bits: bits(&[24.0, 25.0, 26.0]),
    };

    let bytes = stats.to_bytes();
    let (restored, consumed) = PreloadStatistics::from_bytes(&bytes).unwrap();

    assert_eq!(stats, restored);
    assert_eq!(consumed, bytes.len());
}

#[test]
fn test_prediction_model_roundtrip() {
    let model = PreloadPredictionModel {
        model_type: PreloadPredictionType::Linear,
        coefficients_bits: bits(&[0.1, 2.5]),
        period_samples: 100,
    };

    let bytes = model.to_bytes();
    let (restored, consumed) = PreloadPredictionModel::from_bytes(&bytes).unwrap();

    assert_eq!(model, restored);
    assert_eq!(consumed, bytes.len());
}

fn sample_preload() -> PreloadFile {
    PreloadFile {
        format_version: PRELOAD_FORMAT_VERSION,
        context_version: 42,
        sensor_type: "temperature".to_string(),
        created_timestamp: 1234567890,
        training_samples: 10000,
        dictionary: vec![
            PreloadDictEntry { pattern: vec![0x00, 0x01], code: 0, frequency: 100 },
            PreloadDictEntry { pattern: vec![0x02, 0x03, 0x04], code: 1, frequency: 50 },
        ],
        statistics: PreloadStatistics {
            mean_bits: 22.5f64.to_bits(),
            variance_bits: 0.5f64.to_bits(),
            min_observed_bits: 18.0f64.to_bits(),
            max_observed_bits: 28.0f64.to_bits(),
            min_expected_bits: 15.0f64.to_bits(),
            max_expected_bits: 35.0f64.to_bits(),
            recent_values_bits: bits(&[22.0, 22.5, 23.0]),
        },
        prediction: PreloadPredictionModel {
            model_type: PreloadPredictionType::MovingAverage,
            coefficients_bits: bits(&[5.0]),
            period_samples: 0,
        },
    }
}

#[test]
fn test_preload_file_roundtrip() {
    let preload = sample_preload();

    let bytes = preload.to_bytes();
    let restored = PreloadFile::from_bytes(&bytes).unwrap();

    assert_eq!(preload.format_version, restored.format_version);
    assert_eq!(preload.context_version, restored.context_version);
    assert_eq!(preload.sensor_type, restored.sensor_type);
    assert_eq!(preload.created_timestamp, restored.created_timestamp);
    assert_eq!(preload.training_samples, restored.training_samples);
    assert_eq!(preload.dictionary.len(), restored.dictionary.len());
}

#[test]
fn test_invalid_magic() {
    let mut data = vec![0u8; 100];
    data[0..4].copy_from_slice(b"BADM");

    let result = PreloadFile::from_bytes(&data);
    assert!(result.is_err());
}

#[test]
fn preload_file_roundtrip_is_exact() {
    let preload = sample_preload();
    let restored = PreloadFile::from_bytes(&preload.to_bytes()).unwrap();
    assert_eq!(preload, restored);
}

#[test]
fn preload_file_header_layout() {
    let bytes = sample_preload().to_bytes();
    assert_eq!(&bytes[0..4], b"ALEC");
    assert_eq!(&bytes[4..8], &1u32.to_le_bytes());
    assert_eq!(&bytes[8..12], &42u32.to_le_bytes());
    assert_eq!(&bytes[12..14], &11u16.to_le_bytes());
    assert_eq!(&bytes[14..25], b"temperature");
    assert!(bytes[25..46].iter().all(|b| *b == 0));
    assert_eq!(&bytes[46..54], &1234567890u64.to_le_bytes());
    assert_eq!(&bytes[54..62], &10000u64.to_le_bytes());
    let mut covered = bytes[..62].to_vec();
    covered.extend_from_slice(&bytes[66..]);
    assert_eq!(&bytes[62..66], &crc32fast::hash(&covered).to_le_bytes());
    assert_eq!(&bytes[66..70], &2u32.to_le_bytes());
    // 70 header and count bytes, entries of 9 and 10 bytes, statistics of
    // 49 + 24 bytes, model of 6 + 8 bytes.
    assert_eq!(bytes.len(), 70 + 9 + 10 + 73 + 14);
}

#[test]
fn preload_file_errors() {
    let good = sample_preload().to_bytes();
    assert_eq!(
        PreloadFile::from_bytes(&good[..65]),
        Err(AlecError::Decode(DecodeError::BufferTooShort { needed: 66, available: 65 }))
    );
    match PreloadFile::from_bytes(&[0u8; 100]) {
        Err(AlecError::Decode(DecodeError::MalformedMessage { offset, reason })) => {
            assert_eq!(offset, 0);
            assert_eq!(reason, "Invalid magic bytes");
        }
        other => panic!("unexpected {:?}", other),
    }
    let mut corrupt = good.clone();
    corrupt[70] ^= 0xFF;
    assert!(matches!(
        PreloadFile::from_bytes(&corrupt),
        Err(AlecError::Decode(DecodeError::InvalidChecksum { .. }))
    ));
    // A well-formed header whose sections are cut short.
    let mut short = good[..66].to_vec();
    let crc = crc32fast::hash(&short[..62]);
    short[62..66].copy_from_slice(&crc.to_le_bytes());
    assert_eq!(
        PreloadFile::from_bytes(&short),
        Err(AlecError::Decode(DecodeError::BufferTooShort { needed: 70, available: 66 }))
    );
}

#[test]
fn preload_file_trims_and_truncates_sensor_type() {
    let mut preload = sample_preload();
    preload.sensor_type = "abc\0\0".to_string();
    assert_eq!(PreloadFile::from_bytes(&preload.to_bytes()).unwrap().sensor_type, "abc");
    preload.sensor_type = "x".repeat(40);
    assert_eq!(PreloadFile::from_bytes(&preload.to_bytes()).unwrap().sensor_type, "x".repeat(32));
}

fn trained_context() -> Context {
    let config = ContextConfig {
        evolution: EvolutionConfig { enabled: false, ..Default::default() },
        ..Default::default()
    };
    let mut ctx = Context::with_config(config);
    ctx.register_pattern(Pattern::new(vec![0x00, 0x01, 0x02])).unwrap();
    ctx.register_pattern(Pattern::new(vec![0x10, 0x20, 0x30, 0x40])).unwrap();
    ctx.register_pattern(Pattern::new(vec![0xFF])).unwrap();
    for i in 0..100u64 {
        let mut stats = SourceStats::new(100, DEFAULT_EMA_ALPHA_BITS);
        stats.last_value_bits = (20.0 + i as f64 * 0.1).to_bits();
        ctx.record_observation(0, stats);
    }
    ctx
}

fn save_and_load(ctx: &Context, sensor_type: &str) -> Context {
    let bytes = PreloadFile::from_context(ctx, sensor_type).to_bytes();
    Context::from_preload(&PreloadFile::from_bytes(&bytes).unwrap()).unwrap()
}

#[test]
fn test_save_load_roundtrip() {
    let original_ctx = trained_context();
    let loaded_ctx = save_and_load(&original_ctx, "temperature");
    assert_eq!(loaded_ctx.pattern_count(), original_ctx.pattern_count(), "Pattern count should match");
    assert_eq!(loaded_ctx.context_version(), original_ctx.context_version(), "Version should match");
    let code = loaded_ctx.find_pattern(&[0x00, 0x01, 0x02]);
    assert!(code.is_some(), "Pattern should be found in loaded context");
}

#[test]
fn test_version_match_detection() {
    let ctx = trained_context();
    let version = ctx.context_version();
    let result = ctx.check_version(version);
    assert!(result.is_match(), "Same version should match");
    assert_eq!(result, VersionCheckResult::Match);
    let result = ctx.check_version(version + 1);
    assert!(!result.is_match(), "Different version should not match");
    match result {
        VersionCheckResult::Mismatch { expected, actual } => {
            assert_eq!(expected, version);
            assert_eq!(actual, version + 1);
        }
        _ => panic!("Expected mismatch result"),
    }
}

#[test]
fn test_empty_context_roundtrip() {
    let ctx = Context::new();
    let loaded = save_and_load(&ctx, "empty");
    assert_eq!(loaded.pattern_count(), 0);
    assert_eq!(loaded.context_version(), 0);
}

#[test]
fn test_large_pattern_dictionary() {
    let mut ctx = Context::new();
    for i in 0..1000 {
        let pattern = vec![(i & 0xFF) as u8, ((i >> 8) & 0xFF) as u8];
        ctx.register_pattern(Pattern::new(pattern)).unwrap();
    }
    let loaded = save_and_load(&ctx, "large_test");
    assert_eq!(loaded.pattern_count(), 1000);
}

#[test]
fn test_corrupt_file_detection() {
    let ctx = trained_context();
    let mut data = PreloadFile::from_context(&ctx, "test").to_bytes();
    if data.len() > 70 {
        data[70] ^= 0xFF;
    }
    assert!(PreloadFile::from_bytes(&data).is_err(), "Corrupt file should fail to load");
}

#[test]
fn test_invalid_magic_bytes() {
    let mut data = vec![0u8; 100];
    data[0..4].copy_from_slice(b"BADM");
    assert!(PreloadFile::from_bytes(&data).is_err(), "Invalid magic should fail to load");
}

#[test]
fn test_sensor_type_preserved() {
    let ctx = trained_context();
    let data = PreloadFile::from_context(&ctx, "soil_moisture_v2").to_bytes();
    let preload = PreloadFile::from_bytes(&data).unwrap();
    assert_eq!(preload.sensor_type, "soil_moisture_v2");
}

#[test]
fn test_preload_file_metadata() {
    let ctx = trained_context();
    let preload = PreloadFile::from_context(&ctx, "temperature");
    assert_eq!(preload.format_version, 1);
    assert_eq!(preload.context_version, ctx.context_version());
    assert_eq!(preload.sensor_type, "temperature");
    assert!(preload.created_timestamp > 0);
    assert_eq!(preload.training_samples, ctx.observation_count());
}

#[test]
fn test_loaded_context_can_encode() {
    let mut ctx = trained_context();
    ctx.register_pattern(Pattern::numeric(25.0f64.to_bits())).unwrap();
    let loaded = save_and_load(&ctx, "test");
    let code = loaded.find_pattern(&25.0_f64.to_be_bytes());
    assert!(code.is_some());
    let pattern = loaded.get_pattern(code.unwrap());
    assert!(pattern.is_some());
}

#[test]
fn test_multiple_save_load_cycles() {
    let mut ctx = trained_context();
    for _ in 0..5 {
        ctx = save_and_load(&ctx, "cycle_test");
        let stats = SourceStats::new(100, DEFAULT_EMA_ALPHA_BITS);
        ctx.record_observation(0, stats);
    }
    assert_eq!(ctx.pattern_count(), 3);
}

#[test]
fn preload_keeps_codes_frequencies_and_version() {
    let mut ctx = Context::new();
    let a = ctx.register_pattern(Pattern::new(vec![7, 7])).unwrap();
    ctx.register_pattern(Pattern::new(vec![7, 7])).unwrap();
    let preload = PreloadFile::from_context_at(&ctx, "t", 5);
    assert_eq!(preload.created_timestamp, 5);
    assert_eq!(preload.dictionary, vec![PreloadDictEntry { pattern: vec![7, 7], code: a as u16, frequency: 2 }]);
    assert_eq!(preload.prediction.model_type, PreloadPredictionType::LastValue);
    let loaded = Context::from_preload(&preload).unwrap();
    assert_eq!(loaded.version(), ctx.version());
    assert_eq!(loaded.get_pattern(a).unwrap().frequency, 2);
    assert_eq!(loaded.get_pattern(a).unwrap().last_used, 0);
}
