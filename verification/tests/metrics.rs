use alec::metrics::{CompressionMetrics, ContextMetrics};
use alec::protocol::EncodingType;

#[test]
fn test_encoding_distribution() {
    let mut metrics = CompressionMetrics::new();
    metrics.record_encode(100, 10, EncodingType::Delta8);
    metrics.record_encode(100, 10, EncodingType::Delta8);
    metrics.record_encode(100, 1, EncodingType::Repeated);

    assert_eq!(metrics.most_used_encoding(), Some(EncodingType::Delta8));
    assert_eq!(metrics.message_count, 3);
}

#[test]
fn test_reset() {
    let mut metrics = CompressionMetrics::new();
    metrics.record_encode(100, 25, EncodingType::Delta8);
    metrics.record_prediction(true);

    metrics.reset();

    assert_eq!(metrics.message_count, 0);
    assert_eq!(metrics.raw_bytes, 0);
    assert_eq!(metrics.prediction_hits, 0);
}

#[test]
fn empty_metrics_have_no_encoding() {
    let metrics = CompressionMetrics::new();
    assert_eq!(metrics.most_used_encoding(), None);
    assert_eq!(metrics.encoding_count(EncodingType::Raw64), 0);
}

#[test]
fn record_encode_sums_sizes_and_counts() {
    let mut metrics = CompressionMetrics::new();
    metrics.record_encode(100, 25, EncodingType::Delta8);
    metrics.record_encode(60, 5, EncodingType::Repeated);
    metrics.record_prediction(true);
    metrics.record_prediction(false);
    assert_eq!(metrics.raw_bytes, 160);
    assert_eq!(metrics.encoded_bytes, 30);
    assert_eq!(metrics.encoding_count(EncodingType::Delta8), 1);
    assert_eq!(metrics.prediction_hits, 1);
    assert_eq!(metrics.prediction_misses, 1);
}

#[test]
fn context_metrics_from_context() {
    let mut ctx = alec::context::Context::new();
    ctx.register_pattern(alec::context::Pattern::new(vec![1, 2, 3])).unwrap();
    ctx.register_pattern(alec::context::Pattern::new(vec![4])).unwrap();
    let m = ContextMetrics::from_context(&ctx);
    assert_eq!(m.pattern_count, 2);
    assert_eq!(m.memory_bytes, ctx.estimated_memory());
    assert_eq!(m.source_count, 0);
    assert_eq!(m.version, 2);
}

#[test]
fn metrics_distribution_sums_to_message_count() {
    let mut m = CompressionMetrics::new();
    m.record_encode(16, 5, EncodingType::Raw32);
    m.record_encode(16, 2, EncodingType::Delta8);
    m.record_encode(16, 2, EncodingType::Delta8);
    m.record_prediction(true);
    let total: u64 = [
        EncodingType::Raw64,
        EncodingType::Raw32,
        EncodingType::Delta8,
        EncodingType::Delta16,
        EncodingType::Delta32,
        EncodingType::Pattern,
        EncodingType::PatternDelta,
        EncodingType::Repeated,
        EncodingType::Interpolated,
        EncodingType::Multi,
    ]
    .iter()
    .map(|e| m.encoding_count(*e))
    .sum();
    assert_eq!(total, m.message_count);
    assert_eq!(m.message_count, 3);
}
