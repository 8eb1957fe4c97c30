use alec::context::Pattern;
use alec::fleet::{EmitterState, FleetConfig, FleetManager, FleetStats, DEFAULT_CROSS_FLEET_THRESHOLD_BITS};
use alec::protocol::Priority;

#[test]
fn test_fleet_manager_creation() {
    let fleet = FleetManager::new();
    assert_eq!(fleet.stats().emitter_count, 0);
    assert_eq!(fleet.stats().total_messages, 0);
}

#[test]
fn test_active_emitters() {
    let mut fleet = FleetManager::with_config(FleetConfig { emitter_timeout: 100, ..Default::default() });

    let mut state1 = EmitterState::new();
    state1.last_seen = 100;
    fleet.insert_emitter(1, state1);

    let mut state2 = EmitterState::new();
    state2.last_seen = 150;
    fleet.insert_emitter(2, state2);

    let mut state3 = EmitterState::new();
    state3.last_seen = 10;
    fleet.insert_emitter(3, state3);

    let active = fleet.active_emitters(160);
    assert_eq!(active.len(), 2);

    let active = fleet.active_emitters(249);
    assert_eq!(active.len(), 1);
    assert!(active.contains(&2));
}

#[test]
fn test_cleanup_stale_emitters() {
    let mut fleet = FleetManager::with_config(FleetConfig { emitter_timeout: 100, ..Default::default() });

    let mut state1 = EmitterState::new();
    state1.last_seen = 150;
    fleet.insert_emitter(1, state1);

    let mut state2 = EmitterState::new();
    state2.last_seen = 10;
    fleet.insert_emitter(2, state2);

    fleet.cleanup_stale_emitters(250);

    assert_eq!(fleet.emitter_count(), 1);
    assert!(fleet.get_emitter(1).is_some());
    assert!(fleet.get_emitter(2).is_none());
}

#[test]
fn test_anomalous_emitters() {
    let mut fleet = FleetManager::new();

    let mut state1 = EmitterState::new();
    state1.is_anomalous = true;
    fleet.insert_emitter(1, state1);

    let mut state2 = EmitterState::new();
    state2.is_anomalous = false;
    fleet.insert_emitter(2, state2);

    let anomalous = fleet.anomalous_emitters();
    assert_eq!(anomalous.len(), 1);
    assert!(anomalous.contains(&1));
}

#[test]
fn test_recent_values_capacity() {
    let mut state = EmitterState::with_capacity(5);

    for i in 0..10u64 {
        state.record_value((i as f64).to_bits(), i);
    }

    assert_eq!(state.recent_values_bits.len(), 5);
    let expected: Vec<u64> = vec![5.0f64, 6.0, 7.0, 8.0, 9.0].into_iter().map(f64::to_bits).collect();
    assert_eq!(state.recent_values_bits, expected);
}

#[test]
fn fleet_record_value_updates_counters() {
    let mut state = EmitterState::new();
    state.record_value(10.0f64.to_bits(), 0);
    state.record_value(20.0f64.to_bits(), 1);
    state.record_value(30.0f64.to_bits(), 2);
    assert_eq!(state.message_count, 3);
    assert_eq!(state.last_seen, 2);
    assert_eq!(state.last_value_bits(), Some(30.0f64.to_bits()));
    assert_eq!(EmitterState::new().last_value_bits(), None);
}

#[test]
fn fleet_default_config() {
    let config = FleetConfig::default();
    assert_eq!(config.max_emitters, 1000);
    assert_eq!(config.emitter_timeout, 300);
    assert_eq!(f64::from_bits(config.cross_fleet_threshold_bits), 3.0);
    assert_eq!(config.cross_fleet_threshold_bits, DEFAULT_CROSS_FLEET_THRESHOLD_BITS);
    assert_eq!(config.min_emitters_for_comparison, 3);
    assert_eq!(config.fleet_sync_interval, 1000);
    assert_eq!(config.max_recent_values, 100);
}

#[test]
fn fleet_track_emitter_starts_fresh_once() {
    let mut fleet = FleetManager::with_config(FleetConfig { max_recent_values: 7, ..Default::default() });
    fleet.track_emitter(4);
    assert_eq!(fleet.emitter_count(), 1);
    assert_eq!(fleet.get_emitter(4).unwrap().max_recent, 7);

    fleet.get_emitter_mut(4).unwrap().record_value(1.0f64.to_bits(), 9);
    fleet.track_emitter(4);
    assert_eq!(fleet.emitter_count(), 1);
    assert_eq!(fleet.get_emitter(4).unwrap().message_count, 1);
}

#[test]
fn fleet_emitters_in_ascending_order() {
    let mut fleet = FleetManager::new();
    for id in [9u32, 2, 5] {
        fleet.insert_emitter(id, EmitterState::new());
    }
    let ids: Vec<u32> = fleet.emitters().iter().map(|(id, _)| *id).collect();
    assert_eq!(ids, vec![2, 5, 9]);
}

#[test]
fn fleet_clear_anomaly() {
    let mut fleet = FleetManager::new();
    let mut state = EmitterState::new();
    state.is_anomalous = true;
    fleet.insert_emitter(3, state);
    fleet.clear_anomaly(3);
    fleet.clear_anomaly(8);
    assert!(fleet.anomalous_emitters().is_empty());
    assert_eq!(fleet.emitter_count(), 1);
}

#[test]
fn fleet_sync_promotes_shared_patterns() {
    let mut fleet = FleetManager::new();
    for id in 0..3u32 {
        let mut state = EmitterState::new();
        state.context.register_pattern(Pattern::new(vec![1, 2, 3])).unwrap();
        if id == 0 {
            state.context.register_pattern(Pattern::new(vec![9, 9])).unwrap();
        }
        fleet.insert_emitter(id, state);
    }
    fleet.sync_fleet_patterns();
    assert_eq!(fleet.fleet_context().pattern_count(), 1);
    assert!(fleet.fleet_context().find_pattern(&[1, 2, 3]).is_some());
    assert!(fleet.fleet_context().find_pattern(&[9, 9]).is_none());

    // A second promotion adds nothing already filed.
    fleet.sync_fleet_patterns();
    assert_eq!(fleet.fleet_context().pattern_count(), 1);
}

#[test]
fn fleet_sync_needs_more_than_half() {
    let mut fleet = FleetManager::new();
    for id in 0..4u32 {
        let mut state = EmitterState::new();
        if id < 2 {
            state.context.register_pattern(Pattern::new(vec![7])).unwrap();
        }
        fleet.insert_emitter(id, state);
    }
    fleet.sync_fleet_patterns();
    assert_eq!(fleet.fleet_context().pattern_count(), 0);
}

#[test]
fn fleet_sync_single_emitter_does_nothing() {
    let mut fleet = FleetManager::new();
    let mut state = EmitterState::new();
    state.context.register_pattern(Pattern::new(vec![7])).unwrap();
    fleet.insert_emitter(0, state);
    fleet.sync_fleet_patterns();
    assert_eq!(fleet.fleet_context().pattern_count(), 0);
}

#[test]
fn fleet_record_processed_counts() {
    let mut fleet = FleetManager::with_config(FleetConfig { fleet_sync_interval: 3, ..Default::default() });
    fleet.insert_emitter(1, EmitterState::new());
    fleet.insert_emitter(2, EmitterState::new());

    fleet.record_processed(1, Priority::P1Critical, false);
    fleet.record_processed(2, Priority::P3Normal, true);

    let stats: FleetStats = *fleet.stats();
    assert_eq!(stats.total_messages, 2);
    assert_eq!(stats.emitter_count, 2);
    assert_eq!(stats.priority_count(Priority::P1Critical), 1);
    assert_eq!(stats.priority_count(Priority::P3Normal), 1);
    assert_eq!(stats.priority_count(Priority::P5Disposable), 0);
    assert_eq!(stats.anomaly_count, 1);
    assert_eq!(stats.cross_fleet_anomalies, 1);
    assert_eq!(fleet.anomalous_emitters(), vec![2]);
}

#[test]
fn fleet_record_processed_syncs_at_interval() {
    let mut fleet = FleetManager::with_config(FleetConfig { fleet_sync_interval: 2, ..Default::default() });
    for id in 0..2u32 {
        let mut state = EmitterState::new();
        state.context.register_pattern(Pattern::new(vec![4, 2])).unwrap();
        fleet.insert_emitter(id, state);
    }
    fleet.record_processed(0, Priority::P4Deferred, false);
    assert_eq!(fleet.fleet_context().pattern_count(), 0);
    fleet.record_processed(1, Priority::P4Deferred, false);
    assert_eq!(fleet.fleet_context().pattern_count(), 1);
}

#[test]
fn fleet_stats_default_is_zero() {
    let stats = FleetStats::default();
    assert_eq!(stats.total_messages, 0);
    assert_eq!(stats.priority_count(Priority::P2Important), 0);
}
