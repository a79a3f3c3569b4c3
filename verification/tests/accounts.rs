//! What follows from failed audits, and how audits are spaced.

use ant_node::ant_protocol::XorName;
use ant_node::name_map::NameMap;
use ant_node::replication::accounting::{adaptive_timeout_threshold, cooldown_allows_audit};
use ant_node::replication::accounting::{apply_audit_failure_credit_revocation, plan_failed_audit};
use ant_node::replication::accounting::{audit_failure_clears_bootstrap_claim, AuditFailureAction};
use ant_node::replication::accounting::{audit_failure_revokes_holder_credit, audit_launch_decision};
use ant_node::replication::accounting::{decide_audit_failure_action, record_audit_timeout_strike};
use ant_node::replication::accounting::{median_timeout_strikes_excluding, AUDIT_TIMEOUT_STRIKE_MAX};
use ant_node::replication::accounting::{timeout_strike_reaches_threshold, MAX_ADAPTIVE_TIMEOUT_GRACE};
use ant_node::replication::config;
use ant_node::replication::recent_provers::RecentProvers;
use ant_node::replication::types::{AuditFailureReason, PeerId};
use ant_node::time::Instant;

fn test_peer(b: u8) -> PeerId {
    let mut bytes = [0u8; 32];
    bytes[0] = b;
    bytes
}

/// So many seconds after some moment.
fn moment(secs: u64) -> Instant {
    Instant { nanos: 1_000_000_000_000 + u128::from(secs) * 1_000_000_000 }
}

fn test_key(b: u8) -> XorName {
    let mut k = [0u8; 32];
    k[0] = b;
    k
}

#[test]
fn audit_timeout_preserves_active_bootstrap_claim() {
    assert!(!audit_failure_clears_bootstrap_claim(
        &AuditFailureReason::Timeout
    ));
}

fn strike_peer(b: u8) -> PeerId {
    let mut bytes = [0u8; 32];
    bytes[0] = b;
    bytes
}

#[test]
fn single_timeout_then_success_emits_no_failure_and_resets() {
    let peer = strike_peer(1);
    let mut strikes: NameMap<u32> = NameMap::new();
    let base = config::AUDIT_TIMEOUT_STRIKE_THRESHOLD;
    let after_one = record_audit_timeout_strike(&mut strikes, &peer);
    assert_eq!(after_one, 1);
    assert!(!timeout_strike_reaches_threshold(after_one, base));
    strikes.remove(&peer);
    assert!(!strikes.contains(&peer));
}

#[test]
fn consecutive_timeouts_cross_threshold_at_n() {
    let peer = strike_peer(2);
    let mut strikes: NameMap<u32> = NameMap::new();
    let n = config::AUDIT_TIMEOUT_STRIKE_THRESHOLD;
    let mut last = 0;
    for i in 1..=n {
        last = record_audit_timeout_strike(&mut strikes, &peer);
        if i < n {
            assert!(!timeout_strike_reaches_threshold(last, n));
        }
    }
    assert!(timeout_strike_reaches_threshold(last, n));
    let mut c = last;
    for _ in 0..200 {
        c = record_audit_timeout_strike(&mut strikes, &peer);
    }
    assert_eq!(
        c,
        AUDIT_TIMEOUT_STRIKE_MAX,
        "count saturates at the max cap"
    );
    assert!(c > n, "count must be able to exceed the base threshold");
}

#[test]
fn median_timeout_strikes_basics() {
    let target = strike_peer(99);
    let mut strikes: NameMap<u32> = NameMap::new();
    assert_eq!(median_timeout_strikes_excluding(&strikes, &target), 0);
    strikes.insert(strike_peer(1), 1);
    strikes.insert(strike_peer(2), 3);
    strikes.insert(strike_peer(3), 5);
    assert_eq!(median_timeout_strikes_excluding(&strikes, &target), 3);
}

#[test]
fn even_count_takes_lower_median_and_sybil_cohort_cannot_exceed_grace_bound() {
    let target = strike_peer(150);

    let mut two: NameMap<u32> = NameMap::new();
    two.insert(strike_peer(1), 1);
    two.insert(strike_peer(2), 4);
    assert_eq!(
        median_timeout_strikes_excluding(&two, &target),
        1,
        "even-count median must take the LOWER middle value (1), not the upper (4)"
    );

    let mut four: NameMap<u32> = NameMap::new();
    for (i, v) in [2u32, 4, 6, 8].into_iter().enumerate() {
        four.insert(strike_peer(10 + i as u8), v);
    }
    assert_eq!(
        median_timeout_strikes_excluding(&four, &target),
        4,
        "even-count median must be the lower middle (4), not the upper (6)"
    );

    for cohort in [2u8, 5, 8, 20] {
        let mut strikes: NameMap<u32> = NameMap::new();
        for i in 0..cohort {
            strikes.insert(strike_peer(50 + i), AUDIT_TIMEOUT_STRIKE_MAX);
        }
        let threshold = adaptive_timeout_threshold(&strikes, &target);
        assert_eq!(
            threshold,
            config::AUDIT_TIMEOUT_STRIKE_THRESHOLD + MAX_ADAPTIVE_TIMEOUT_GRACE,
            "a sybil cohort at the strike cap (size {cohort}) must saturate the grace at \
             the bound, never exceed it"
        );
    }

    let mut strikes: NameMap<u32> = NameMap::new();
    for i in 0..8u8 {
        strikes.insert(strike_peer(80 + i), AUDIT_TIMEOUT_STRIKE_MAX);
    }
    let threshold = adaptive_timeout_threshold(&strikes, &target);
    let mut c = 0;
    for _ in 0..(threshold + 5) {
        c = record_audit_timeout_strike(&mut strikes, &target);
    }
    assert!(
        timeout_strike_reaches_threshold(c, threshold),
        "target must still cross the bounded inflated threshold ({c} vs {threshold})"
    );
}

#[test]
fn lone_timing_out_peer_does_not_inflate_its_own_grace() {
    let bad = strike_peer(7);
    let mut strikes: NameMap<u32> = NameMap::new();
    strikes.insert(bad, 5);
    assert_eq!(
        adaptive_timeout_threshold(&strikes, &bad),
        config::AUDIT_TIMEOUT_STRIKE_THRESHOLD
    );
}

#[test]
fn widespread_timeouts_widen_the_grace() {
    let target = strike_peer(100);
    let mut strikes: NameMap<u32> = NameMap::new();
    for i in 0..9u8 {
        strikes.insert(strike_peer(i), 4);
    }
    assert_eq!(
        adaptive_timeout_threshold(&strikes, &target),
        4 + config::AUDIT_TIMEOUT_STRIKE_THRESHOLD
    );
    assert!(
        adaptive_timeout_threshold(&strikes, &target) > config::AUDIT_TIMEOUT_STRIKE_THRESHOLD
    );
}

#[test]
fn adaptive_grace_only_responds_to_timeouts_not_deterministic_failures() {
    let target = strike_peer(101);
    let mut strikes: NameMap<u32> = NameMap::new();
    for i in 0..9u8 {
        let action = plan_failed_audit(
            &AuditFailureReason::DigestMismatch,
            &mut strikes,
            &strike_peer(i),
        );
        assert_eq!(action, AuditFailureAction::ConfirmedPenalize);
    }
    assert!(
        strikes.len() == 0,
        "deterministic failures must not record strikes"
    );
    assert_eq!(
        adaptive_timeout_threshold(&strikes, &target),
        config::AUDIT_TIMEOUT_STRIKE_THRESHOLD
    );
}

#[test]
fn gossip_flood_yields_at_most_one_audit_per_cooldown_window() {
    let peer = strike_peer(1);
    let mut map: NameMap<Instant> = NameMap::new();
    let t0 = moment(0);
    assert!(cooldown_allows_audit(&mut map, &peer, t0));
    let mut passed = 1;
    for _ in 0..100 {
        if cooldown_allows_audit(&mut map, &peer, t0) {
            passed += 1;
        }
    }
    assert_eq!(
        passed, 1,
        "a flood at one instant must trigger exactly one audit"
    );
}

#[test]
fn losing_lottery_still_consumes_cooldown_window() {
    let peer = strike_peer(3);
    let mut map: NameMap<Instant> = NameMap::new();
    let t0 = moment(0);

    assert!(
        !audit_launch_decision(&mut map, &peer, t0, false),
        "a losing ticket launches no audit"
    );

    let mut audits = 0;
    for _ in 0..99 {
        if audit_launch_decision(&mut map, &peer, t0, true) {
            audits += 1;
        }
    }
    assert_eq!(
        audits, 0,
        "a losing first ticket must consume the window so no later flooded \
         message in the same window can audit"
    );

    let after = moment(config::AUDIT_ON_GOSSIP_COOLDOWN_SECS + 1);
    assert!(
        audit_launch_decision(&mut map, &peer, after, true),
        "after the cooldown a winning ticket audits again"
    );
}

#[test]
fn cooldown_lets_audit_through_after_the_window() {
    let peer = strike_peer(2);
    let mut map: NameMap<Instant> = NameMap::new();
    let t0 = moment(0);
    assert!(cooldown_allows_audit(&mut map, &peer, t0));
    let within = moment(config::AUDIT_ON_GOSSIP_COOLDOWN_SECS - 1);
    assert!(!cooldown_allows_audit(&mut map, &peer, within));
    let after = moment(config::AUDIT_ON_GOSSIP_COOLDOWN_SECS + 1);
    assert!(cooldown_allows_audit(&mut map, &peer, after));
}

#[test]
fn cooldown_is_per_peer_independent() {
    let mut map: NameMap<Instant> = NameMap::new();
    let t0 = moment(0);
    for i in 0..20u8 {
        assert!(
            cooldown_allows_audit(&mut map, &strike_peer(i), t0),
            "peer {i} should be auditable independently"
        );
    }
}

#[test]
fn inflated_adaptive_threshold_is_still_reachable_and_bounded() {
    let target = strike_peer(200);
    let mut strikes: NameMap<u32> = NameMap::new();
    for i in 0..9u8 {
        strikes.insert(strike_peer(i), 10);
    }
    let threshold = adaptive_timeout_threshold(&strikes, &target);
    assert!(
        threshold <= config::AUDIT_TIMEOUT_STRIKE_THRESHOLD + MAX_ADAPTIVE_TIMEOUT_GRACE
    );
    assert!(threshold > config::AUDIT_TIMEOUT_STRIKE_THRESHOLD);
    let mut c = 0;
    for _ in 0..threshold + 5 {
        c = record_audit_timeout_strike(&mut strikes, &target);
    }
    assert!(
        timeout_strike_reaches_threshold(c, threshold),
        "a persistent peer must be able to cross the inflated threshold ({c} vs {threshold})"
    );
}

#[test]
fn audit_on_gossip_constants_match_adr() {
    assert_eq!(config::AUDIT_SPOTCHECK_COUNT, 8);
    let probability = f64::from(config::AUDIT_ON_GOSSIP_PERCENT) / 100.0;
    assert!((probability - 0.2).abs() < f64::EPSILON);
    assert_eq!(config::AUDIT_ON_GOSSIP_COOLDOWN_SECS, 30 * 60);
}

#[test]
fn digest_mismatch_is_not_a_timeout_and_penalizes_immediately() {
    assert!(audit_failure_clears_bootstrap_claim(
        &AuditFailureReason::DigestMismatch
    ));
    assert!(audit_failure_revokes_holder_credit(
        &AuditFailureReason::DigestMismatch
    ));
}

#[test]
fn e2e_honest_intermittent_timeouts_never_penalized() {
    let peer = strike_peer(10);
    let base = config::AUDIT_TIMEOUT_STRIKE_THRESHOLD;
    let mut strikes: NameMap<u32> = NameMap::new();
    for _ in 0..10 {
        let after = record_audit_timeout_strike(&mut strikes, &peer);
        assert_eq!(
            decide_audit_failure_action(&AuditFailureReason::Timeout, after, base),
            AuditFailureAction::TimeoutGrace
        );
        strikes.remove(&peer);
    }
    assert!(!strikes.contains(&peer));
}

#[test]
fn e2e_persistent_timeouts_get_penalized() {
    let peer = strike_peer(11);
    let mut strikes: NameMap<u32> = NameMap::new();
    let threshold = config::AUDIT_TIMEOUT_STRIKE_THRESHOLD;
    let mut penalized_at = None;
    for tick in 1..=(threshold + 2) {
        let after = record_audit_timeout_strike(&mut strikes, &peer);
        if decide_audit_failure_action(&AuditFailureReason::Timeout, after, threshold)
            == AuditFailureAction::TimeoutPenalize
            && penalized_at.is_none()
        {
            penalized_at = Some(tick);
        }
    }
    assert_eq!(penalized_at, Some(threshold));
}

#[test]
fn e2e_glue_timeout_records_strike_and_penalizes_at_threshold() {
    let peer = strike_peer(20);
    let mut strikes: NameMap<u32> = NameMap::new();
    let threshold = config::AUDIT_TIMEOUT_STRIKE_THRESHOLD;
    let mut action = AuditFailureAction::TimeoutGrace;
    for tick in 1..=threshold {
        action = plan_failed_audit(&AuditFailureReason::Timeout, &mut strikes, &peer);
        assert_eq!(strikes.get(&peer).copied(), Some(tick));
    }
    assert_eq!(action, AuditFailureAction::TimeoutPenalize);
}

#[test]
fn e2e_glue_confirmed_failure_leaves_strike_map_untouched() {
    let peer = strike_peer(21);
    let mut strikes: NameMap<u32> = NameMap::new();
    for reason in [
        AuditFailureReason::DigestMismatch,
        AuditFailureReason::KeyAbsent,
        AuditFailureReason::Rejected,
        AuditFailureReason::MalformedResponse,
    ] {
        assert_eq!(
            plan_failed_audit(&reason, &mut strikes, &peer),
            AuditFailureAction::ConfirmedPenalize
        );
    }
    assert!(strikes.len() == 0);
}

#[test]
fn deterministic_failure_penalizes_first_time_under_inflated_grace() {
    let mut strikes: NameMap<u32> = NameMap::new();
    for b in 100..150u8 {
        let other = strike_peer(b);
        for _ in 0..AUDIT_TIMEOUT_STRIKE_MAX {
            record_audit_timeout_strike(&mut strikes, &other);
        }
    }
    let victim = strike_peer(7);
    let inflated = adaptive_timeout_threshold(&strikes, &victim);
    assert!(
        inflated > config::AUDIT_TIMEOUT_STRIKE_THRESHOLD,
        "test precondition: grace must be inflated, got {inflated}"
    );

    for reason in [
        AuditFailureReason::DigestMismatch,
        AuditFailureReason::Rejected,
        AuditFailureReason::MalformedResponse,
    ] {
        let action = plan_failed_audit(&reason, &mut strikes, &victim);
        assert_eq!(
            action,
            AuditFailureAction::ConfirmedPenalize,
            "{reason:?} must penalize on the first occurrence regardless of grace"
        );
        assert_ne!(
            action,
            AuditFailureAction::TimeoutPenalize,
            "a deterministic failure must NOT be routed through the (eviction-gated) \
             timeout-penalize lane"
        );
        assert!(
            !strikes.contains(&victim),
            "deterministic failure must not touch the timeout strike map"
        );
        assert!(audit_failure_revokes_holder_credit(&reason));
        assert!(audit_failure_clears_bootstrap_claim(&reason));
    }

    let timeout_action = plan_failed_audit(&AuditFailureReason::Timeout, &mut strikes, &victim);
    assert_eq!(timeout_action, AuditFailureAction::TimeoutGrace);
    assert_eq!(strikes.get(&victim).copied(), Some(1));
    assert!(!audit_failure_revokes_holder_credit(
        &AuditFailureReason::Timeout
    ));
    assert!(!audit_failure_clears_bootstrap_claim(
        &AuditFailureReason::Timeout
    ));
}

#[test]
fn confirmed_failures_revoke_credit_timeout_does_not() {
    for reason in [
        AuditFailureReason::MalformedResponse,
        AuditFailureReason::DigestMismatch,
        AuditFailureReason::KeyAbsent,
        AuditFailureReason::Rejected,
    ] {
        assert!(
            audit_failure_revokes_holder_credit(&reason),
            "confirmed failure {reason:?} must revoke holder credit"
        );
    }
    assert!(
        !audit_failure_revokes_holder_credit(&AuditFailureReason::Timeout),
        "Timeout must NOT revoke credit (single dropped packet != storage loss)"
    );
}

#[test]
fn apply_revocation_strips_on_digest_mismatch_retains_on_timeout() {
    let peer = test_peer(0xAB);
    let key = test_key(1);
    let hash = [0xCD; 32];

    let mut provers = RecentProvers::new();
    provers.record_proof(key, peer, hash, moment(0));
    assert!(
        provers.is_credited_holder(&key, &peer, &hash, moment(0)),
        "precondition: peer credited before failure"
    );
    apply_audit_failure_credit_revocation(
        &mut provers,
        &peer,
        &AuditFailureReason::DigestMismatch,
    );
    assert!(
        !provers.is_credited_holder(&key, &peer, &hash, moment(0)),
        "DigestMismatch must strip the peer's holder credit"
    );

    let mut provers_timeout = RecentProvers::new();
    provers_timeout.record_proof(key, peer, hash, moment(0));
    apply_audit_failure_credit_revocation(
        &mut provers_timeout,
        &peer,
        &AuditFailureReason::Timeout,
    );
    assert!(
        provers_timeout.is_credited_holder(&key, &peer, &hash, moment(0)),
        "Timeout must retain holder credit (deliberate liveness cushion)"
    );
}

#[test]
fn decoded_audit_failures_clear_active_bootstrap_claim() {
    for reason in [
        AuditFailureReason::MalformedResponse,
        AuditFailureReason::DigestMismatch,
        AuditFailureReason::KeyAbsent,
        AuditFailureReason::Rejected,
    ] {
        assert!(
            audit_failure_clears_bootstrap_claim(&reason),
            "decoded non-bootstrap failure {reason:?} should clear active claim"
        );
    }
}
