//! The configuration of replication.

use ant_node::replication::config::{ReplicationConfig, AUDIT_FAILURE_TRUST_WEIGHT};
use ant_node::replication::config::AUDIT_RESPONSE_FLOOR_SECS;
use ant_node::replication::config::{MAX_PRUNE_AUDIT_CHALLENGES_PER_PASS, QUORUM_THRESHOLD};
use ant_node::time::Duration;

#[test]
fn defaults_pass_validation() {
    let config = ReplicationConfig::default();
    assert!(config.validate().is_ok(), "default config must be valid");
}

#[test]
fn default_prune_hysteresis_is_three_days() {
    let config = ReplicationConfig::default();
    assert_eq!(
        config.prune_hysteresis_duration,
        Duration::from_secs(3 * 24 * 60 * 60)
    );
}

#[test]
fn audit_failure_weight_is_five() {
    assert!((f64::from(AUDIT_FAILURE_TRUST_WEIGHT) - 5.0).abs() <= f64::EPSILON);
}

#[test]
fn audit_response_timeout_floor_at_zero_keys() {
    let config = ReplicationConfig::default();
    assert_eq!(
        config.audit_response_timeout(0),
        Duration::from_secs(AUDIT_RESPONSE_FLOOR_SECS),
        "zero-key challenge should yield the floor exactly"
    );
}

#[test]
fn audit_response_timeout_scales_with_key_count() {
    let config = ReplicationConfig::default();
    let t1 = config.audit_response_timeout(1);
    let t10 = config.audit_response_timeout(10);
    let t100 = config.audit_response_timeout(100);
    assert!(t1 <= t10 && t10 < t100, "timeout must not decrease with k");

    assert_eq!(t1, Duration::from_secs(2));

    assert_eq!(t10, Duration::from_secs(6));

    assert_eq!(t100, Duration::from_secs(42));
}

#[test]
fn audit_response_timeout_fits_honest_hdd_at_typical_sample_size() {
    let config = ReplicationConfig::default();
    let budget = config.audit_response_timeout(10);
    let realistic_hdd_bps: u64 = 20 * 1024 * 1024;
    let bytes: u64 = 10 * 4 * 1024 * 1024;
    let honest_envelope_secs = bytes / realistic_hdd_bps + 1;
    assert!(
        Duration::from_secs(honest_envelope_secs) < budget,
        "honest HDD envelope ({honest_envelope_secs}s) must fit inside k=10 budget ({}s)",
        budget.as_secs(),
    );
}

#[test]
fn audit_response_timeout_relay_is_outside_envelope() {
    let config = ReplicationConfig::default();
    let budget = config.audit_response_timeout(100);
    let relay_data_only = Duration::from_secs(100 * 4 * 1024 * 1024 / (5 * 1024 * 1024));
    assert!(
        relay_data_only > budget,
        "relay fetch ({}s) must exceed honest audit budget ({}s)",
        relay_data_only.as_secs(),
        budget.as_secs(),
    );
}

#[test]
fn audit_response_timeout_saturates_on_huge_k() {
    let config = ReplicationConfig::default();
    let _ = config.audit_response_timeout(usize::MAX);
}

#[test]
fn quorum_threshold_zero_rejected() {
    let config = ReplicationConfig {
        quorum_threshold: 0,
        ..ReplicationConfig::default()
    };
    assert!(config.validate().is_err());
}

#[test]
fn quorum_threshold_exceeds_close_group_rejected() {
    let defaults = ReplicationConfig::default();
    let config = ReplicationConfig {
        quorum_threshold: defaults.close_group_size + 1,
        ..defaults
    };
    assert!(config.validate().is_err());
}

#[test]
fn close_group_size_zero_rejected() {
    let config = ReplicationConfig {
        close_group_size: 0,
        ..ReplicationConfig::default()
    };
    assert!(config.validate().is_err());
}

#[test]
fn close_group_size_exceeding_prune_audit_budget_rejected() {
    let config = ReplicationConfig {
        close_group_size: MAX_PRUNE_AUDIT_CHALLENGES_PER_PASS + 1,
        quorum_threshold: QUORUM_THRESHOLD,
        ..ReplicationConfig::default()
    };

    let err = config.validate().unwrap_err();

    assert!(
        err.contains("MAX_PRUNE_AUDIT_CHALLENGES_PER_PASS"),
        "error should mention prune audit budget: {err}"
    );
}

#[test]
fn paid_list_close_group_size_zero_rejected() {
    let config = ReplicationConfig {
        paid_list_close_group_size: 0,
        ..ReplicationConfig::default()
    };
    assert!(config.validate().is_err());
}

#[test]
fn neighbor_sync_interval_inverted_rejected() {
    let config = ReplicationConfig {
        neighbor_sync_interval_min: Duration::from_secs(100),
        neighbor_sync_interval_max: Duration::from_secs(50),
        ..ReplicationConfig::default()
    };
    assert!(config.validate().is_err());
}

#[test]
fn audit_tick_interval_inverted_rejected() {
    let config = ReplicationConfig {
        audit_tick_interval_min: Duration::from_secs(100),
        audit_tick_interval_max: Duration::from_secs(50),
        ..ReplicationConfig::default()
    };
    assert!(config.validate().is_err());
}

#[test]
fn self_lookup_interval_inverted_rejected() {
    let config = ReplicationConfig {
        self_lookup_interval_min: Duration::from_secs(100),
        self_lookup_interval_max: Duration::from_secs(50),
        ..ReplicationConfig::default()
    };
    assert!(config.validate().is_err());
}

#[test]
fn neighbor_sync_peer_count_zero_rejected() {
    let config = ReplicationConfig {
        neighbor_sync_peer_count: 0,
        ..ReplicationConfig::default()
    };
    assert!(config.validate().is_err());
}

#[test]
fn audit_sample_count_scales_with_sqrt() {
    assert_eq!(ReplicationConfig::audit_sample_count(0), 0);

    assert_eq!(ReplicationConfig::audit_sample_count(1), 1);

    assert_eq!(ReplicationConfig::audit_sample_count(3), 1);

    assert_eq!(ReplicationConfig::audit_sample_count(4), 2);
    assert_eq!(ReplicationConfig::audit_sample_count(25), 5);
    assert_eq!(ReplicationConfig::audit_sample_count(100), 10);
    assert_eq!(ReplicationConfig::audit_sample_count(1_000), 31);
    assert_eq!(ReplicationConfig::audit_sample_count(10_000), 100);
    assert_eq!(ReplicationConfig::audit_sample_count(1_000_000), 1_000);
}

#[test]
fn max_incoming_audit_keys_scales_dynamically() {
    assert_eq!(ReplicationConfig::max_incoming_audit_keys(0), 1);

    assert_eq!(ReplicationConfig::max_incoming_audit_keys(1), 2);

    assert_eq!(ReplicationConfig::max_incoming_audit_keys(100), 20);

    assert_eq!(ReplicationConfig::max_incoming_audit_keys(1_000_000), 2_000);

    assert_eq!(ReplicationConfig::max_incoming_audit_keys(5_000_000), 4_472);
}

#[test]
fn quorum_needed_uses_smaller_of_threshold_and_majority() {
    let config = ReplicationConfig::default();

    assert_eq!(config.quorum_needed(7), 4);

    assert_eq!(config.quorum_needed(3), 2);

    assert_eq!(config.quorum_needed(0), 0);

    assert_eq!(config.quorum_needed(100), 4);
}

#[test]
fn confirm_needed_is_strict_majority() {
    assert_eq!(ReplicationConfig::confirm_needed(1), 1);
    assert_eq!(ReplicationConfig::confirm_needed(2), 2);
    assert_eq!(ReplicationConfig::confirm_needed(3), 2);
    assert_eq!(ReplicationConfig::confirm_needed(4), 3);
    assert_eq!(ReplicationConfig::confirm_needed(20), 11);
}

#[test]
fn random_intervals_within_bounds() {
    let config = ReplicationConfig::default();

    let iterations = 50;
    for _ in 0..iterations {
        let ns = config.random_neighbor_sync_interval();
        assert!(ns >= config.neighbor_sync_interval_min);
        assert!(ns <= config.neighbor_sync_interval_max);

        let at = config.random_audit_tick_interval();
        assert!(at >= config.audit_tick_interval_min);
        assert!(at <= config.audit_tick_interval_max);

        let sl = config.random_self_lookup_interval();
        assert!(sl >= config.self_lookup_interval_min);
        assert!(sl <= config.self_lookup_interval_max);
    }
}

#[test]
fn random_interval_equal_bounds_is_deterministic() {
    let fixed = Duration::from_secs(42);
    let config = ReplicationConfig {
        neighbor_sync_interval_min: fixed,
        neighbor_sync_interval_max: fixed,
        ..ReplicationConfig::default()
    };
    assert_eq!(config.random_neighbor_sync_interval(), fixed);
}

#[test]
fn scenario_18_invalid_config_rejected() {
    let config = ReplicationConfig {
        quorum_threshold: 10,
        close_group_size: 7,
        ..ReplicationConfig::default()
    };
    let err = config.validate().unwrap_err();
    assert!(
        err.contains("quorum_threshold"),
        "error should mention quorum_threshold: {err}"
    );

    let config = ReplicationConfig {
        close_group_size: 0,
        ..ReplicationConfig::default()
    };
    let err = config.validate().unwrap_err();
    assert!(
        err.contains("close_group_size"),
        "error should mention close_group_size: {err}"
    );

    let config = ReplicationConfig {
        neighbor_sync_interval_min: Duration::from_secs(200),
        neighbor_sync_interval_max: Duration::from_secs(100),
        ..ReplicationConfig::default()
    };
    let err = config.validate().unwrap_err();
    assert!(
        err.contains("neighbor_sync_interval"),
        "error should mention neighbor_sync_interval: {err}"
    );

    let config = ReplicationConfig {
        self_lookup_interval_min: Duration::from_secs(999),
        self_lookup_interval_max: Duration::from_secs(1),
        ..ReplicationConfig::default()
    };
    let err = config.validate().unwrap_err();
    assert!(
        err.contains("self_lookup_interval"),
        "error should mention self_lookup_interval: {err}"
    );

    let config = ReplicationConfig {
        audit_tick_interval_min: Duration::from_secs(500),
        audit_tick_interval_max: Duration::from_secs(10),
        ..ReplicationConfig::default()
    };
    let err = config.validate().unwrap_err();
    assert!(
        err.contains("audit_tick_interval"),
        "error should mention audit_tick_interval: {err}"
    );
}

#[test]
fn scenario_26_dynamic_paid_threshold_undersized() {
    assert_eq!(ReplicationConfig::confirm_needed(8), 5, "floor(8/2)+1 = 5");

    assert_eq!(
        ReplicationConfig::confirm_needed(1),
        1,
        "single peer requires 1 confirmation"
    );
    assert_eq!(
        ReplicationConfig::confirm_needed(2),
        2,
        "2 peers require 2 confirmations"
    );
    assert_eq!(
        ReplicationConfig::confirm_needed(3),
        2,
        "3 peers require 2 confirmations"
    );
    assert_eq!(
        ReplicationConfig::confirm_needed(0),
        1,
        "0 peers yields floor(0/2)+1 = 1 (degenerate case)"
    );
}

#[test]
fn scenario_31_audit_cadence_within_jitter_bounds() {
    let config = ReplicationConfig {
        audit_tick_interval_min: Duration::from_secs(600),
        audit_tick_interval_max: Duration::from_secs(1200),
        ..ReplicationConfig::default()
    };

    let iterations = 100;
    let mut saw_different = false;
    let mut prev = Duration::from_secs(0);

    for _ in 0..iterations {
        let interval = config.random_audit_tick_interval();
        assert!(
            interval >= config.audit_tick_interval_min,
            "interval {interval:?} below min {:?}",
            config.audit_tick_interval_min,
        );
        assert!(
            interval <= config.audit_tick_interval_max,
            "interval {interval:?} above max {:?}",
            config.audit_tick_interval_max,
        );
        if interval != prev && prev != Duration::from_secs(0) {
            saw_different = true;
        }
        prev = interval;
    }

    assert!(
        saw_different,
        "audit intervals should exhibit randomized jitter across samples"
    );
}
