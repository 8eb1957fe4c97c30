use alec::context::{Context, Pattern};
use alec::sync::{
    DetailResponse, RangeRequest, SyncAnnounce, SyncConfig, SyncDiff, SyncMessage, SyncMessageType, SyncRequest,
    SyncState, Synchronizer,
};

#[test]
fn test_sync_announce_creation() {
    let context = Context::new();
    let announce = Synchronizer::create_announce(&context);

    match announce {
        SyncMessage::Announce(a) => {
            assert_eq!(a.version, 0);
            assert_eq!(a.pattern_count, 0);
        }
        _ => panic!("Expected Announce message"),
    }
}

#[test]
fn test_sync_needed_detection_same_state() {
    let mut sync = Synchronizer::new();
    let local = Context::new();

    let result = sync.check_sync_needed(0, local.hash(), &local);
    assert!(result.is_none());
    assert!(sync.is_synchronized());
}

#[test]
fn test_sync_needed_detection_version_mismatch() {
    let mut sync = Synchronizer::new();
    let local = Context::new();

    let result = sync.check_sync_needed(5, 12345, &local);
    assert!(result.is_some());

    match result.unwrap() {
        SyncMessage::Request(req) => {
            assert_eq!(req.from_version, 0);
            assert_eq!(req.to_version, Some(5));
        }
        _ => panic!("Expected Request message"),
    }
}

#[test]
fn test_sync_needed_large_gap() {
    let mut sync = Synchronizer::with_config(SyncConfig { max_version_gap: 5, ..Default::default() });
    let local = Context::new();

    let result = sync.check_sync_needed(100, 12345, &local);
    assert!(result.is_some());
    assert_eq!(sync.state, SyncState::Diverged);
}

#[test]
fn test_diff_generation() {
    let old_ctx = Context::new();
    let mut new_ctx = Context::new();

    new_ctx.register_pattern(Pattern::new(vec![1, 2, 3])).unwrap();

    let diff = Synchronizer::generate_diff(&old_ctx, &new_ctx);

    assert_eq!(diff.added.len(), 1);
    assert_eq!(diff.removed.len(), 0);
    assert_eq!(diff.base_version, 0);
    assert_eq!(diff.new_version, new_ctx.version());
}

#[test]
fn test_diff_application() {
    let mut ctx1 = Context::new();
    let mut ctx2 = Context::new();

    ctx1.register_pattern(Pattern::new(vec![1, 2, 3])).unwrap();

    let diff = Synchronizer::generate_diff(&Context::new(), &ctx1);
    Synchronizer::apply_diff(&mut ctx2, &diff).unwrap();

    assert_eq!(ctx1.hash(), ctx2.hash());
    assert_eq!(ctx1.pattern_count(), ctx2.pattern_count());
}

#[test]
fn test_sync_state_transitions() {
    let mut sync = Synchronizer::new();
    let mut local = Context::new();

    assert!(sync.is_synchronized());

    sync.check_sync_needed(5, 12345, &local);
    assert!(!sync.is_synchronized());

    let diff = SyncDiff { base_version: 0, new_version: 5, added: vec![], removed: vec![], hash: local.hash() };

    local.set_version(5);
    let new_diff = SyncDiff { hash: local.hash(), ..diff };

    sync.handle_diff(&new_diff, &mut local).unwrap();
    assert!(sync.is_synchronized());
}

#[test]
fn test_announce_serialization() {
    let announce = SyncMessage::Announce(SyncAnnounce { version: 42, hash: 0x123456789ABCDEF0, pattern_count: 100 });

    let bytes = announce.to_bytes();
    let parsed = SyncMessage::from_bytes(&bytes).unwrap();

    assert_eq!(announce, parsed);
}

#[test]
fn test_request_serialization() {
    let request = SyncMessage::Request(SyncRequest { from_version: 10, to_version: Some(20) });

    let bytes = request.to_bytes();
    let parsed = SyncMessage::from_bytes(&bytes).unwrap();

    assert_eq!(request, parsed);
}

#[test]
fn test_request_serialization_no_to_version() {
    let request = SyncMessage::Request(SyncRequest { from_version: 10, to_version: None });

    let bytes = request.to_bytes();
    let parsed = SyncMessage::from_bytes(&bytes).unwrap();

    assert_eq!(request, parsed);
}

#[test]
fn test_diff_serialization() {
    let diff = SyncMessage::Diff(SyncDiff {
        base_version: 5,
        new_version: 10,
        added: vec![(1, Pattern::new(vec![1, 2, 3]))],
        removed: vec![0],
        hash: 0xDEADBEEF,
    });

    let bytes = diff.to_bytes();
    let parsed = SyncMessage::from_bytes(&bytes).unwrap();

    match (&diff, &parsed) {
        (SyncMessage::Diff(d1), SyncMessage::Diff(d2)) => {
            assert_eq!(d1.base_version, d2.base_version);
            assert_eq!(d1.new_version, d2.new_version);
            assert_eq!(d1.added.len(), d2.added.len());
            assert_eq!(d1.removed, d2.removed);
            assert_eq!(d1.hash, d2.hash);
        }
        _ => panic!("Expected Diff messages"),
    }
}

#[test]
fn test_should_announce() {
    let mut sync = Synchronizer::with_config(SyncConfig { announce_interval: 3, ..Default::default() });

    assert!(!sync.should_announce());
    assert!(!sync.should_announce());
    assert!(sync.should_announce());
    assert!(!sync.should_announce());
}

#[test]
fn test_sync_timeout() {
    let mut sync = Synchronizer::with_config(SyncConfig { sync_timeout: 100, ..Default::default() });

    sync.state = SyncState::WaitingForSync { requested_at: 0 };

    assert!(!sync.check_timeout(50));

    assert!(sync.check_timeout(150));
    assert_eq!(sync.state, SyncState::Diverged);
}

#[test]
fn test_synchronizer_reset() {
    let mut sync = Synchronizer::new();
    sync.state = SyncState::Diverged;
    sync.local_version = 100;
    sync.remote_version = Some(200);

    sync.reset();

    assert!(sync.is_synchronized());
    assert_eq!(sync.local_version, 0);
    assert!(sync.remote_version.is_none());
}

#[test]
fn diff_wire_form_exact_and_roundtrip() {
    let diff = SyncMessage::Diff(SyncDiff {
        base_version: 1,
        new_version: 2,
        added: vec![(7, Pattern::new(vec![0xAA, 0xBB]))],
        removed: vec![3, 4],
        hash: 0x0102030405060708,
    });
    let bytes = diff.to_bytes();
    assert_eq!(
        bytes,
        vec![
            0x12, 0, 0, 0, 1, 0, 0, 0, 2, 1, 2, 3, 4, 5, 6, 7, 8, 0, 1, 0, 0, 0, 7, 2, 0xAA, 0xBB, 0, 2, 0, 0, 0, 3, 0,
            0, 0, 4
        ]
    );
    assert_eq!(SyncMessage::from_bytes(&bytes).unwrap(), diff);
    assert!(SyncMessage::from_bytes(&bytes[..bytes.len() - 1]).is_none());
}

#[test]
fn other_messages_roundtrip() {
    let messages = vec![
        Synchronizer::create_detail_request(77),
        Synchronizer::create_range_request(3, 100, 200),
        Synchronizer::create_detail_response(9, 4, 0x4036800000000000, 1234),
        Synchronizer::create_request(1, None),
    ];
    for m in messages {
        assert_eq!(SyncMessage::from_bytes(&m.to_bytes()).unwrap(), m);
    }
    assert_eq!(
        Synchronizer::create_range_request(3, 100, 200),
        SyncMessage::ReqRange(RangeRequest { source_id: 3, from_timestamp: 100, to_timestamp: 200 })
    );
    assert_eq!(
        Synchronizer::create_detail_response(9, 4, 5, 6),
        SyncMessage::DetailResponse(DetailResponse { sequence: 9, source_id: 4, timestamp: 6, value_bits: 5 })
    );
    assert!(SyncMessage::from_bytes(&[]).is_none());
    assert!(SyncMessage::from_bytes(&[0x99, 0, 0, 0, 0]).is_none());
    assert_eq!(Synchronizer::create_detail_request(1).message_type(), SyncMessageType::ReqDetail);
    assert_eq!(SyncMessageType::Diff.to_u8(), 0x12);
}

#[test]
fn apply_diff_with_wrong_hash_diverges() {
    let mut sync = Synchronizer::new();
    let mut ctx = Context::new();
    let diff = SyncDiff { base_version: 0, new_version: 3, added: vec![(0, Pattern::new(vec![5]))], removed: vec![], hash: 1 };
    assert!(sync.handle_diff(&diff, &mut ctx).is_err());
    assert_eq!(sync.state, SyncState::Diverged);
    assert_eq!(ctx.version(), 3);
    assert!(ctx.has_pattern(0));
}

#[test]
fn handle_request_sends_every_pattern() {
    let mut sync = Synchronizer::new();
    let mut ctx = Context::new();
    ctx.register_pattern(Pattern::new(vec![1])).unwrap();
    ctx.register_pattern(Pattern::new(vec![2])).unwrap();
    match sync.handle_request(&SyncRequest { from_version: 1, to_version: None }, &ctx) {
        Some(SyncMessage::Diff(d)) => {
            assert_eq!(d.base_version, 1);
            assert_eq!(d.new_version, ctx.version());
            assert_eq!(d.added.len(), 2);
            assert_eq!(d.hash, ctx.hash());
        }
        _ => panic!("Expected Diff message"),
    }
}

#[test]
fn removed_patterns_are_listed() {
    let mut old_ctx = Context::new();
    old_ctx.register_pattern(Pattern::new(vec![1])).unwrap();
    old_ctx.register_pattern(Pattern::new(vec![2])).unwrap();
    let mut new_ctx = Context::new();
    new_ctx.register_pattern(Pattern::new(vec![1])).unwrap();
    let diff = Synchronizer::generate_diff(&old_ctx, &new_ctx);
    assert_eq!(diff.removed, vec![1]);
    assert!(diff.added.is_empty());
    let mut target = old_ctx.clone();
    Synchronizer::apply_diff(&mut target, &diff).unwrap();
    assert_eq!(target.hash(), new_ctx.hash());
}
