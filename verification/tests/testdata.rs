use alec::testdata::{AnomalyConfig, AnomalyType, GeneratorConfig, DEFAULT_START_TIME_MS};

#[test]
fn test_anomaly_config_active() {
    let config = AnomalyConfig { anomaly_type: AnomalyType::Stuck, start_sample: 100, duration_samples: Some(50) };

    assert!(!config.is_active(99));
    assert!(config.is_active(100));
    assert!(config.is_active(149));
    assert!(!config.is_active(150));
}

#[test]
fn test_anomaly_config_no_duration() {
    let config = AnomalyConfig { anomaly_type: AnomalyType::Stuck, start_sample: 100, duration_samples: None };

    assert!(!config.is_active(99));
    assert!(config.is_active(100));
    assert!(config.is_active(1000));
}

#[test]
fn test_expected_event() {
    assert_eq!(AnomalyType::Stuck.expected_event(), "STRUCTURE_BREAK");
    assert_eq!(AnomalyType::Spike { magnitude_bits: 10.0f64.to_bits() }.expected_event(), "PAYLOAD_ENTROPY_SPIKE");
    assert_eq!(AnomalyType::Drift { rate_per_sample_bits: 0.1f64.to_bits() }.expected_event(), "COMPLEXITY_SURGE");
}

#[test]
fn test_generator_config_default() {
    let config = GeneratorConfig::default();
    assert_eq!(config.sample_interval_ms, 60_000);
    assert_eq!(config.num_samples, 60);
}

#[test]
fn testdata_expected_events_of_every_type() {
    assert_eq!(AnomalyType::Dropout.expected_event(), "REDUNDANCY_DROP");
    assert_eq!(AnomalyType::Intermittent { failure_prob_bits: 0 }.expected_event(), "REDUNDANCY_DROP");
    assert_eq!(AnomalyType::Clipping { min_bits: 0, max_bits: 0 }.expected_event(), "STRUCTURE_BREAK");
    assert_eq!(AnomalyType::decorrelate(0, 0).expected_event(), "STRUCTURE_BREAK");
    assert_eq!(AnomalyType::NoiseIncrease { factor_bits: 0 }.expected_event(), "PAYLOAD_ENTROPY_SPIKE");
    assert_eq!(AnomalyType::Oscillation { amplitude_bits: 0, frequency_hz_bits: 0 }.expected_event(), "COMPLEXITY_SURGE");
    assert_eq!(AnomalyType::BiasShift { offset_bits: 0 }.expected_event(), "COMPLEXITY_SURGE");
}

#[test]
fn testdata_anomaly_config_builder_and_offsets() {
    let config = AnomalyConfig::new(AnomalyType::stuck(), 50).with_duration(30);
    assert_eq!(config.duration_samples, Some(30));
    assert!(config.is_active(79));
    assert!(!config.is_active(80));
    assert_eq!(config.samples_since_start(40), 0);
    assert_eq!(config.samples_since_start(57), 7);
    let open_ended = AnomalyConfig::new(AnomalyType::Stuck, usize::MAX - 1).with_duration(10);
    assert!(open_ended.is_active(usize::MAX));
}

#[test]
fn testdata_generator_timing() {
    let config = GeneratorConfig::new().with_start_time(1_000).with_sample_interval_secs(2).with_num_samples(11).with_seed(7);
    assert_eq!(config.sample_interval_ms, 2_000);
    assert_eq!(config.seed, Some(7));
    assert_eq!(config.duration_ms(), 20_000);
    assert_eq!(config.end_time_ms(), 21_000);
    assert_eq!(GeneratorConfig::new().with_num_samples(0).duration_ms(), 0);
    assert_eq!(GeneratorConfig::new().start_time_ms, DEFAULT_START_TIME_MS);
}
