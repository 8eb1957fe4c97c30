use alec::context::{Context, ContextConfig, EvolutionConfig, Pattern, SourceStats, DEFAULT_EMA_ALPHA_BITS};
use alec::error::{AlecError, ContextError, DecodeError, EncodeError};

#[test]
fn mod_test_context_new() {
    let ctx = Context::new();
    assert_eq!(ctx.version(), 0);
    assert_eq!(ctx.pattern_count(), 0);
}

#[test]
fn mod_test_register_pattern() {
    let mut ctx = Context::new();

    let pattern = Pattern::new(vec![1, 2, 3, 4]);
    let code = ctx.register_pattern(pattern.clone()).unwrap();

    assert_eq!(ctx.pattern_count(), 1);
    assert!(ctx.get_pattern(code).is_some());

    let code2 = ctx.register_pattern(pattern).unwrap();
    assert_eq!(code, code2);
    assert_eq!(ctx.pattern_count(), 1);
}

#[test]
fn mod_test_context_hash() {
    let mut ctx1 = Context::new();
    let mut ctx2 = Context::new();

    ctx1.register_pattern(Pattern::new(vec![1, 2, 3])).unwrap();
    ctx2.register_pattern(Pattern::new(vec![1, 2, 3])).unwrap();

    assert_eq!(ctx1.hash(), ctx2.hash());

    ctx1.register_pattern(Pattern::new(vec![4, 5, 6])).unwrap();
    assert_ne!(ctx1.hash(), ctx2.hash());
}

#[test]
fn mod_test_export_import() {
    let mut ctx1 = Context::new();
    ctx1.register_pattern(Pattern::new(vec![1, 2, 3])).unwrap();
    ctx1.register_pattern(Pattern::new(vec![4, 5, 6])).unwrap();

    let exported = ctx1.export_full();

    let mut ctx2 = Context::new();
    ctx2.import_full(&exported).unwrap();

    assert_eq!(ctx1.hash(), ctx2.hash());
    assert_eq!(ctx1.pattern_count(), ctx2.pattern_count());
}

#[test]
fn register_counts_reuse_and_bumps_version() {
    let mut ctx = Context::new();
    let a = ctx.register_pattern(Pattern::new(vec![9, 9])).unwrap();
    assert_eq!(ctx.version(), 1);
    let b = ctx.register_pattern(Pattern::new(vec![9, 9])).unwrap();
    assert_eq!(a, b);
    assert_eq!(ctx.version(), 1);
    assert_eq!(ctx.get_pattern(a).unwrap().frequency, 2);
    assert_eq!(ctx.find_pattern(&[9, 9]), Some(a));
    assert_eq!(ctx.find_pattern(&[8]), None);
    let c = ctx.register_pattern(Pattern::new(vec![1])).unwrap();
    assert_eq!(c, 1);
    assert_eq!(ctx.pattern_ids(), vec![0, 1]);
}

#[test]
fn register_refuses_oversize_and_full() {
    let mut ctx = Context::new();
    assert_eq!(
        ctx.register_pattern(Pattern::new(vec![0; 256])),
        Err(AlecError::Context(ContextError::PatternTooLarge { size: 256, max: 255 }))
    );
    let config = ContextConfig { max_patterns: 1, ..ContextConfig::default() };
    let mut ctx = Context::with_config(config);
    ctx.register_pattern(Pattern::new(vec![1])).unwrap();
    assert_eq!(
        ctx.register_pattern(Pattern::new(vec![2])),
        Err(AlecError::Context(ContextError::DictionaryFull { max: 1 }))
    );
}

#[test]
fn remove_and_set_patterns() {
    let mut ctx = Context::new();
    ctx.set_pattern(10, Pattern::new(vec![3, 3]));
    assert!(ctx.has_pattern(10));
    assert_eq!(ctx.find_pattern(&[3, 3]), Some(10));
    ctx.register_pattern(Pattern::new(vec![4])).unwrap();
    assert_eq!(ctx.pattern_ids(), vec![10, 11]);
    ctx.remove_pattern(10);
    assert!(!ctx.has_pattern(10));
    assert_eq!(ctx.find_pattern(&[3, 3]), None);
    assert!(ctx.verify(ctx.hash()));
}

#[test]
fn export_layout_and_import_errors() {
    let mut ctx = Context::new();
    ctx.register_pattern(Pattern::new(vec![0xAB])).unwrap();
    let bytes = ctx.export_full();
    assert_eq!(bytes.len(), 14 + 5 + 1);
    assert_eq!(&bytes[0..4], &[0, 0, 0, 1]);
    assert_eq!(&bytes[12..14], &[0, 1]);
    assert_eq!(&bytes[14..], &[0, 0, 0, 0, 1, 0xAB]);

    let mut other = Context::new();
    match other.import_full(&bytes[..10]) {
        Err(AlecError::Context(ContextError::SyncFailed { reason })) => assert_eq!(reason, "Data too short"),
        r => panic!("unexpected {:?}", r),
    }
    match other.import_full(&bytes[..16]) {
        Err(AlecError::Context(ContextError::SyncFailed { reason })) => assert_eq!(reason, "Truncated data"),
        r => panic!("unexpected {:?}", r),
    }
    let mut corrupt = bytes.clone();
    corrupt[4] ^= 1;
    assert!(matches!(other.import_full(&corrupt), Err(AlecError::Context(ContextError::HashMismatch { .. }))));
}

#[test]
fn reset_and_baseline() {
    let mut ctx = Context::new();
    ctx.register_pattern(Pattern::new(vec![1])).unwrap();
    let stats = SourceStats::new(10, DEFAULT_EMA_ALPHA_BITS);
    ctx.record_observation(4, stats);
    assert_eq!(ctx.source_count(), 1);
    assert_eq!(ctx.observation_count(), 1);
    ctx.reset_to_baseline();
    assert_eq!(ctx.source_count(), 0);
    assert_eq!(ctx.pattern_count(), 1);
    ctx.reset();
    assert_eq!(ctx.version(), 0);
    assert_eq!(ctx.pattern_count(), 0);
    assert_eq!(ctx.observation_count(), 0);
}

#[test]
fn evolution_becomes_due_on_interval() {
    let config = ContextConfig {
        evolution: EvolutionConfig {
            min_frequency: 1,
            max_age: 10000,
            evolution_interval: 5,
            promotion_threshold: 5,
            enabled: true,
        },
        ..ContextConfig::default()
    };
    let mut ctx = Context::with_config(config);
    for i in 1..=5u64 {
        let due = ctx.record_observation(0, SourceStats::new(100, DEFAULT_EMA_ALPHA_BITS));
        assert_eq!(due, i == 5);
    }
    assert_eq!(ctx.observation_count(), 5);
    assert_eq!(ctx.version(), 5);
}

#[test]
fn pruning_removes_rare_and_old_patterns() {
    let config = ContextConfig {
        evolution: EvolutionConfig {
            min_frequency: 3,
            max_age: 50,
            evolution_interval: 10,
            promotion_threshold: 5,
            enabled: false,
        },
        ..ContextConfig::default()
    };
    let mut ctx = Context::with_config(config);
    let mut rare = Pattern::new(vec![42]);
    rare.frequency = 1;
    ctx.register_pattern(rare).unwrap();
    let mut frequent = Pattern::new(vec![43]);
    frequent.frequency = 10;
    frequent.last_used = 90;
    ctx.register_pattern(frequent).unwrap();
    assert_eq!(ctx.pattern_count(), 2);
    ctx.prune_patterns(100);
    assert_eq!(ctx.pattern_ids(), vec![1]);
    assert_eq!(ctx.find_pattern(&[42]), None);
    assert_eq!(ctx.find_pattern(&[43]), Some(1));
}

#[test]
fn reordering_renumbers_in_the_given_order() {
    let mut ctx = Context::new();
    ctx.register_pattern(Pattern::with_timestamp(vec![1], 0)).unwrap();
    ctx.register_pattern(Pattern::with_timestamp(vec![2], 0)).unwrap();
    ctx.reorder_patterns(&[1, 0]);
    assert_eq!(ctx.get_pattern(0).unwrap().data, vec![2]);
    assert_eq!(ctx.get_pattern(1).unwrap().data, vec![1]);
    assert_eq!(ctx.find_pattern(&[2]), Some(0));
    let code = ctx.register_pattern(Pattern::new(vec![3])).unwrap();
    assert_eq!(code, 2);
}

fn stats_with_history(count: u64, history: Vec<u64>) -> SourceStats {
    let mut s = SourceStats::new(100, DEFAULT_EMA_ALPHA_BITS);
    s.count = count;
    s.last_value_bits = 22.5f64.to_bits();
    s.ema_bits = 22.4f64.to_bits();
    s.sum_sq_diff_bits = 0.01f64.to_bits();
    s.mean_bits = 22.45f64.to_bits();
    s.history_bits = history;
    s
}

fn persisted_context() -> Context {
    let mut ctx = Context::new();
    ctx.record_observation(2, stats_with_history(15, vec![1013.25f64.to_bits(); 3]));
    ctx.record_observation(1, stats_with_history(30, vec![22.5f64.to_bits(), 22.51f64.to_bits()]));
    ctx.register_pattern(Pattern::new(vec![0xBE, 0xEF])).unwrap();
    ctx
}

#[test]
fn test_to_preload_bytes_from_preload_bytes_roundtrip() {
    let ctx = persisted_context();
    let bytes = ctx.to_preload_bytes("em500-co2").unwrap();
    assert!(bytes.len() < 3072, "serialized context should be well under 3 KB, got {}", bytes.len());
    assert_eq!(bytes.len(), ctx.preload_bytes_len("em500-co2").unwrap());
    assert_eq!(&bytes[0..4], b"ALCS");

    let restored = Context::from_preload_bytes(&bytes).unwrap();
    assert_eq!(restored.version(), ctx.version());
    assert_eq!(restored.scale_factor(), ctx.scale_factor());
    assert_eq!(restored.observation_count(), ctx.observation_count());
    assert_eq!(restored.source_count(), ctx.source_count());
    assert_eq!(restored.pattern_count(), ctx.pattern_count());
    for sid in [1u32, 2] {
        assert_eq!(restored.source_stats(sid), ctx.source_stats(sid));
    }
    assert_eq!(restored.hash(), ctx.hash());
    assert_eq!(restored.find_pattern(&[0xBE, 0xEF]), Some(0));
}

#[test]
fn preload_bytes_written_into_a_buffer() {
    let ctx = persisted_context();
    let bytes = ctx.to_preload_bytes("x").unwrap();
    let mut out = vec![0xEEu8; bytes.len() + 3];
    assert_eq!(ctx.write_preload_bytes("x", &mut out).unwrap(), bytes.len());
    assert_eq!(&out[..bytes.len()], &bytes[..]);
    assert_eq!(&out[bytes.len()..], &[0xEE, 0xEE, 0xEE]);
    let mut small = vec![0u8; 10];
    assert_eq!(
        ctx.write_preload_bytes("x", &mut small),
        Err(AlecError::Encode(EncodeError::BufferTooSmall { needed: bytes.len(), available: 10 }))
    );
    assert_eq!(small, vec![0u8; 10]);
    let long = "s".repeat(256);
    assert_eq!(
        ctx.preload_bytes_len(&long),
        Err(AlecError::Context(ContextError::PatternTooLarge { size: 256, max: 255 }))
    );
}

#[test]
fn preload_bytes_rejects_bad_magic_and_crc() {
    let mut bytes = persisted_context().to_preload_bytes("x").unwrap();
    let good = bytes.clone();
    bytes[0] = b'X';
    assert!(matches!(Context::from_preload_bytes(&bytes), Err(AlecError::Decode(DecodeError::InvalidHeader))));
    let mut bytes = good.clone();
    let mid = bytes.len() / 2;
    bytes[mid] ^= 0xFF;
    assert!(matches!(
        Context::from_preload_bytes(&bytes),
        Err(AlecError::Decode(DecodeError::InvalidChecksum { .. }))
    ));
    assert!(matches!(
        Context::from_preload_bytes(&good[..40]),
        Err(AlecError::Decode(DecodeError::BufferTooShort { needed: 41, available: 40 }))
    ));
}

#[test]
fn context_test_context_new() {
    let ctx = Context::new();
    assert_eq!(ctx.version(), 0);
    assert_eq!(ctx.pattern_count(), 0);
}

#[test]
fn context_test_register_pattern() {
    let mut ctx = Context::new();
    let pattern = Pattern::new(vec![1, 2, 3, 4]);
    let code = ctx.register_pattern(pattern.clone()).unwrap();
    assert_eq!(ctx.pattern_count(), 1);
    assert!(ctx.get_pattern(code).is_some());
    let code2 = ctx.register_pattern(pattern).unwrap();
    assert_eq!(code, code2);
    assert_eq!(ctx.pattern_count(), 1);
}

#[test]
fn context_test_context_hash() {
    let mut ctx1 = Context::new();
    let mut ctx2 = Context::new();
    ctx1.register_pattern(Pattern::new(vec![1, 2, 3])).unwrap();
    ctx2.register_pattern(Pattern::new(vec![1, 2, 3])).unwrap();
    assert_eq!(ctx1.hash(), ctx2.hash());
    ctx1.register_pattern(Pattern::new(vec![4, 5, 6])).unwrap();
    assert_ne!(ctx1.hash(), ctx2.hash());
}

#[test]
fn context_test_export_import() {
    let mut ctx1 = Context::new();
    ctx1.register_pattern(Pattern::new(vec![1, 2, 3])).unwrap();
    ctx1.register_pattern(Pattern::new(vec![4, 5, 6])).unwrap();
    let exported = ctx1.export_full();
    let mut ctx2 = Context::new();
    ctx2.import_full(&exported).unwrap();
    assert_eq!(ctx1.hash(), ctx2.hash());
    assert_eq!(ctx1.pattern_count(), ctx2.pattern_count());
}

#[test]
fn test_from_preload_bytes_rejects_bad_magic() {
    let mut bytes = persisted_context().to_preload_bytes("x").unwrap();
    bytes[0] = b'X';
    let r = Context::from_preload_bytes(&bytes);
    assert!(r.is_err());
}

#[test]
fn test_from_preload_bytes_rejects_bad_crc() {
    let mut bytes = persisted_context().to_preload_bytes("x").unwrap();
    let mid = bytes.len() / 2;
    bytes[mid] ^= 0xFF;
    match Context::from_preload_bytes(&bytes) {
        Err(AlecError::Decode(DecodeError::InvalidChecksum { .. })) => {}
        other => panic!("expected InvalidChecksum, got {:?}", other),
    }
}

#[test]
fn test_to_preload_bytes_rejects_oversize_sensor_type() {
    let ctx = Context::new();
    let long: String = "a".repeat(300);
    let r = ctx.to_preload_bytes(&long);
    assert!(r.is_err());
}

#[test]
fn context_pattern_hashes_lists_each_digest() {
    let mut ctx = Context::new();
    ctx.register_pattern(Pattern::new(vec![1, 2, 3])).unwrap();
    ctx.register_pattern(Pattern::new(vec![4, 5])).unwrap();
    ctx.register_pattern(Pattern::new(vec![1, 2, 3])).unwrap();
    let mut hashes = ctx.pattern_hashes();
    hashes.sort();
    let mut expected = vec![xxhash_rust::xxh64::xxh64(&[1, 2, 3], 0), xxhash_rust::xxh64::xxh64(&[4, 5], 0)];
    expected.sort();
    assert_eq!(hashes, expected);
}

#[test]
fn test_pattern_pruning() {
    let config = ContextConfig {
        evolution: EvolutionConfig {
            min_frequency: 3,
            max_age: 50,
            evolution_interval: 10,
            promotion_threshold: 5,
            enabled: false,
        },
        ..ContextConfig::default()
    };

    let mut ctx = Context::with_config(config);

    let mut pattern = Pattern::new(vec![42]);
    pattern.frequency = 1;
    pattern.last_used = 0;
    ctx.register_pattern(pattern).unwrap();

    assert_eq!(ctx.pattern_count(), 1);

    // Pruning at observation 100, as evolution does then.
    ctx.prune_patterns(100);

    assert_eq!(ctx.pattern_count(), 0);
}

#[test]
fn test_pattern_kept_if_frequent() {
    let config = ContextConfig {
        evolution: EvolutionConfig {
            min_frequency: 2,
            max_age: 1000,
            evolution_interval: 10,
            promotion_threshold: 5,
            enabled: false,
        },
        ..ContextConfig::default()
    };

    let mut ctx = Context::with_config(config);

    let mut pattern = Pattern::new(vec![42]);
    pattern.frequency = 10;
    pattern.last_used = 50;
    ctx.register_pattern(pattern).unwrap();

    // Pruning at observation 100, as evolution does then.
    ctx.prune_patterns(100);

    assert_eq!(ctx.pattern_count(), 1);
}
