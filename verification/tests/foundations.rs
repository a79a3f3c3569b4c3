//! Names, numbers, settings and records.

use ant_node::adversary::{config, config_from_settings, current, is_bootstrap_shield, is_silent};
use ant_node::adversary::{is_fake_storage, is_relay, is_storage_deleter, is_throwaway_key};
use ant_node::adversary::{AdversaryMode, AdversaryState};
use ant_node::client::{compute_address, hex_node_id_to_encoded_peer_id, peer_id_to_xor_name};
use ant_node::client::{xor_distance, EncodedPeerId, PeerIdError};
use ant_node::hashing::HexError;
use ant_node::name_map::NameMap;
use ant_node::names::{comes_before, sort_entries};
use ant_node::replication::accounting::{cooldown_allows_audit, sig_verify_rate_limit_ok};
use ant_node::replication::config::{interval_from_draw, max_parallel_fetch, ReplicationConfig};
use ant_node::replication::events::{audit_issued, audit_outcome, commitment_rotated, V12Event};
use ant_node::replication::events::{gossip_ingest, hex32, holder_credit_dropped, key_hex};
use ant_node::replication::events::{holder_credit_recorded, node_started, peer_hex};
use ant_node::replication::events::{peer_removed, quorum_decision};
use ant_node::replication::recent_provers::{RecentProvers, MAX_PROVERS_PER_KEY};
use ant_node::roots::{compute_ceil_sqrt, compute_floor_sqrt};
use ant_node::text::{decimal_text, parse_number};
use ant_node::time::{Duration, Instant};

fn at(secs: u64) -> Instant {
    Instant { nanos: u128::from(secs) * 1_000_000_000 }
}

#[test]
fn address_is_the_blake3_digest() {
    let hex = "d74981efa70a0c880b8d8c1985d075dbcbf679b99a5f9914e5aaf96b831a9e24";
    assert_eq!(hex32(&compute_address(b"hello world")), hex);
    let empty = "af1349b9f5f9a1a6a0404dea36dcc9499bcb25c9adc112b7cc9a93cae41f3262";
    assert_eq!(key_hex(&compute_address(b"")), empty);
}

#[test]
fn distance_is_the_xor_of_the_bytes() {
    let mut a = [0u8; 32];
    let mut b = [0u8; 32];
    a[0] = 0b1100;
    b[0] = 0b1010;
    b[31] = 0xFF;
    let mut d = [0u8; 32];
    d[0] = 0b0110;
    d[31] = 0xFF;
    assert_eq!(xor_distance(&a, &b), d);
    assert_eq!(xor_distance(&b, &a), d);
    assert_eq!(xor_distance(&a, &a), [0u8; 32]);
    assert_eq!(peer_id_to_xor_name(&a), a);
}

#[test]
fn peer_identities_are_read_from_hex() {
    let text = "ab".repeat(32);
    assert_eq!(
        hex_node_id_to_encoded_peer_id(&text),
        Ok(EncodedPeerId::new([0xAB; 32]))
    );
    assert_eq!(
        hex_node_id_to_encoded_peer_id(&text.to_uppercase()),
        Ok(EncodedPeerId::new([0xAB; 32]))
    );
    let short = hex_node_id_to_encoded_peer_id("abcd").unwrap_err();
    assert_eq!(short, PeerIdError::WrongLength { len: 2 });
    assert_eq!(short.message("abcd"), "Peer ID must be 32 bytes, got 2");
    let odd = hex_node_id_to_encoded_peer_id("abc").unwrap_err();
    assert_eq!(odd, PeerIdError::InvalidHex(HexError::OddLength));
    assert_eq!(odd.message("abc"), "Invalid hex peer ID 'abc': Odd number of digits");
    let bad = hex_node_id_to_encoded_peer_id("abxd").unwrap_err();
    assert_eq!(bad, PeerIdError::InvalidHex(HexError::InvalidCharacter { c: 'x', index: 2 }));
    assert_eq!(
        bad.message("abxd"),
        "Invalid hex peer ID 'abxd': Invalid character 'x' at position 2"
    );
}

#[test]
fn modes_are_read_in_any_case() {
    let named = [
        ("lazy", AdversaryMode::Lazy),
        ("Chunk-Deleter", AdversaryMode::ChunkDeleter),
        ("chunk_deleter", AdversaryMode::ChunkDeleter),
        ("SILENT", AdversaryMode::Silent),
        ("throwaway-key", AdversaryMode::ThrowawayKey),
        ("throwaway_key", AdversaryMode::ThrowawayKey),
        ("bootstrap-shield", AdversaryMode::BootstrapShield),
        ("bootstrap_shield", AdversaryMode::BootstrapShield),
        ("fake-storage", AdversaryMode::FakeStorage),
        ("fake_storage", AdversaryMode::FakeStorage),
        ("relay", AdversaryMode::Relay),
    ];
    for (word, mode) in named {
        assert_eq!(AdversaryMode::parse(word), Some(mode));
    }
    assert_eq!(AdversaryMode::parse("none"), None);
    assert_eq!(AdversaryMode::parse(""), None);
    assert_eq!(AdversaryMode::parse("lazy "), None);
}

#[test]
fn settings_have_their_defaults() {
    assert!(config_from_settings(None, Some("5"), None, None).is_none());
    assert!(config_from_settings(Some("none"), None, None, None).is_none());
    let c = config_from_settings(Some("relay"), None, None, None).unwrap();
    assert_eq!(c.mode, AdversaryMode::Relay);
    assert_eq!(c.go_bad_at, 0);
    assert_eq!(c.delete_after, Duration::from_secs(600));
    assert_eq!(c.delete_every, Duration::from_secs(1800));
    let c = config_from_settings(Some("lazy"), Some("77"), Some("1"), Some("two")).unwrap();
    assert_eq!(c.go_bad_at, 77);
    assert_eq!(c.delete_after, Duration::from_secs(1));
    assert_eq!(c.delete_every, Duration::from_secs(1800));
}

#[test]
fn mode_is_settled_once_and_begins_in_time() {
    let mut state = AdversaryState::new();
    assert_eq!(current(&state, 100), None);
    assert!(config(&state).is_none());
    state.settle(config_from_settings(Some("silent"), Some("50"), None, None));
    state.settle(config_from_settings(Some("relay"), None, None, None));
    assert_eq!(current(&state, 49), None);
    assert_eq!(current(&state, 50), Some(AdversaryMode::Silent));
    assert_eq!(config(&state).unwrap().go_bad_at, 50);
    assert!(is_silent(&state, 50));
    assert!(!is_silent(&state, 49));
    let acts = |word: &str| {
        let mut state = AdversaryState::new();
        state.settle(config_from_settings(Some(word), None, None, None));
        [
            is_silent(&state, 1),
            is_throwaway_key(&state, 1),
            is_bootstrap_shield(&state, 1),
            is_fake_storage(&state, 1),
            is_relay(&state, 1),
            is_storage_deleter(&state, 1),
        ]
    };
    assert_eq!(acts("silent"), [true, false, false, false, false, false]);
    assert_eq!(acts("throwaway-key"), [false, true, false, false, false, false]);
    assert_eq!(acts("bootstrap-shield"), [false, false, true, false, false, false]);
    assert_eq!(acts("fake-storage"), [false, false, false, true, false, false]);
    assert_eq!(acts("relay"), [false, false, false, false, true, false]);
    assert_eq!(acts("lazy"), [false, false, false, false, false, true]);
    assert_eq!(acts("chunk-deleter"), [false, false, false, false, false, true]);
    assert_eq!(acts("none"), [false; 6]);
}

#[test]
fn numbers_are_written_and_read() {
    for n in [0u64, 7, 10, 99, 100, 1_234_567_890, u64::MAX] {
        assert_eq!(decimal_text(n), n.to_string());
        assert_eq!(parse_number(&n.to_string()), Some(n));
    }
    assert_eq!(parse_number("+12"), Some(12));
    assert_eq!(parse_number("007"), Some(7));
    for text in ["", "+", "-1", " 1", "1 ", "1a", "18446744073709551616"] {
        assert_eq!(parse_number(text), text.parse().ok());
        assert_eq!(parse_number(text), None);
    }
}

#[test]
fn roots_are_rounded() {
    assert_eq!(compute_floor_sqrt(0), 0);
    assert_eq!(compute_floor_sqrt(24), 4);
    assert_eq!(compute_floor_sqrt(25), 5);
    assert_eq!(compute_floor_sqrt(u64::MAX), 4_294_967_295);
    assert_eq!(compute_ceil_sqrt(0), 0);
    assert_eq!(compute_ceil_sqrt(25), 5);
    assert_eq!(compute_ceil_sqrt(26), 6);
}

#[test]
fn names_are_ordered_by_their_bytes() {
    let mut a = [0u8; 32];
    let mut b = [0u8; 32];
    a[1] = 1;
    b[0] = 1;
    assert!(comes_before(&a, &b));
    assert!(!comes_before(&b, &a));
    assert!(!comes_before(&a, &a));
    let sorted = sort_entries(&vec![(b, [1; 32]), (a, [2; 32])]);
    assert_eq!(sorted, vec![(a, [2; 32]), (b, [1; 32])]);
}

#[test]
fn maps_hold_what_was_put_in() {
    let mut map: NameMap<u32> = NameMap::new();
    for i in [5u8, 1, 9, 3] {
        map.insert([i; 32], u32::from(i));
    }
    map.insert([9; 32], 90);
    assert_eq!(map.len(), 4);
    assert_eq!(map.get(&[9; 32]), Some(&90));
    assert_eq!(*map.at(0), ([1; 32], 1));
    assert_eq!(map.remove(&[3; 32]), Some(3));
    assert_eq!(map.remove(&[3; 32]), None);
    assert!(!map.contains(&[3; 32]));
}

#[test]
fn spans_are_counted_in_nanoseconds() {
    assert_eq!(Duration::from_millis(1500).as_secs(), 1);
    assert_eq!(Duration::from_secs(2).as_millis(), 2000);
    assert_eq!(
        Duration::from_secs(2).saturating_add(Duration::from_millis(5)),
        Duration::from_millis(2005)
    );
    assert_eq!(at(5).saturating_duration_since(at(3)), Duration::from_secs(2));
    assert_eq!(at(3).saturating_duration_since(at(5)), Duration::from_secs(0));
}

#[test]
fn configurations_say_what_is_wrong() {
    let defaults = ReplicationConfig::default();
    let wrong = |config: ReplicationConfig| config.validate().unwrap_err();
    assert_eq!(
        wrong(ReplicationConfig { close_group_size: 0, ..defaults }),
        "close_group_size must be >= 1"
    );
    assert_eq!(
        wrong(ReplicationConfig { quorum_threshold: 9, ..defaults }),
        "quorum_threshold (9) must satisfy 1 <= quorum_threshold <= close_group_size (7)"
    );
    assert_eq!(
        wrong(ReplicationConfig { close_group_size: 65, ..defaults }),
        "close_group_size (65) must be <= MAX_PRUNE_AUDIT_CHALLENGES_PER_PASS (64)"
    );
    assert_eq!(
        wrong(ReplicationConfig {
            neighbor_sync_interval_min: Duration::from_millis(1500),
            neighbor_sync_interval_max: Duration::from_secs(1),
            ..defaults
        }),
        "neighbor_sync_interval_min (1.5s) must be <= neighbor_sync_interval_max (1s)"
    );
    assert_eq!(
        wrong(ReplicationConfig { neighbor_sync_scope: 0, ..defaults }),
        "neighbor_sync_scope must be >= 1"
    );
}

#[test]
fn fetches_follow_the_threads() {
    assert_eq!(max_parallel_fetch(Some(16)), 16);
    assert_eq!(max_parallel_fetch(None), 4);
}

#[test]
fn spans_beyond_the_longest_do_not_fit() {
    assert!(ReplicationConfig::default().spans_fit());
    let config = ReplicationConfig {
        self_lookup_interval_max: Duration { nanos: u128::MAX },
        ..ReplicationConfig::default()
    };
    assert!(!config.spans_fit());
}

#[test]
fn drawn_intervals_keep_to_the_bounds() {
    let min = Duration::from_secs(10);
    let max = Duration::from_secs(20);
    assert_eq!(interval_from_draw(min, max, 12_345), Duration::from_millis(12_345));
    assert_eq!(interval_from_draw(max, max, 20_000), max);
    assert_eq!(interval_from_draw(min, max, 9_999), min);
    assert_eq!(interval_from_draw(min, max, 20_001), max);
    // Bounds between two milliseconds are kept too.
    let low = Duration { nanos: 1_200_000 };
    let high = Duration { nanos: 1_700_000 };
    assert_eq!(interval_from_draw(low, high, 1), low);
    let config = ReplicationConfig {
        neighbor_sync_interval_min: low,
        neighbor_sync_interval_max: high,
        ..ReplicationConfig::default()
    };
    for _ in 0..20 {
        let span = config.random_neighbor_sync_interval();
        assert!(low <= span && span <= high);
    }
}

#[test]
fn credit_expires_and_makes_room() {
    let mut provers = RecentProvers::new();
    let key = [1u8; 32];
    for i in 0..=MAX_PROVERS_PER_KEY {
        let peer = [u8::try_from(i).unwrap(); 32];
        provers.record_proof(key, peer, [7; 32], at(100 + i as u64));
    }
    // The oldest made room for the newest.
    assert!(!provers.is_credited_holder(&key, &[0; 32], &[7; 32], at(120)));
    assert!(provers.is_credited_holder(&key, &[1; 32], &[7; 32], at(120)));
    assert!(!provers.is_credited_holder(&key, &[1; 32], &[8; 32], at(120)));
    // Credit lasts for forty minutes.
    assert!(provers.is_credited_holder(&key, &[1; 32], &[7; 32], at(101 + 2399)));
    assert!(!provers.is_credited_holder(&key, &[1; 32], &[7; 32], at(101 + 2401)));
    assert_eq!(provers.sweep_expired(at(10_000)), MAX_PROVERS_PER_KEY);
    assert_eq!(provers.sweep_expired(at(10_000)), 0);
    // A new proof takes the place of the peer's old one.
    provers.record_proof(key, [1; 32], [7; 32], at(1));
    provers.record_proof(key, [1; 32], [8; 32], at(2));
    assert!(!provers.is_credited_holder(&key, &[1; 32], &[7; 32], at(3)));
    assert!(provers.is_credited_holder(&key, &[1; 32], &[8; 32], at(3)));
}

#[test]
fn full_tables_of_stamps_lose_the_oldest() {
    let mut stamps: NameMap<Instant> = NameMap::new();
    for i in 0..4096u32 {
        let mut peer = [0u8; 32];
        peer[..4].copy_from_slice(&i.to_be_bytes());
        stamps.insert(peer, at(if i == 77 { 10 } else { 20 }));
    }
    let mut oldest = [0u8; 32];
    oldest[..4].copy_from_slice(&77u32.to_be_bytes());
    assert!(cooldown_allows_audit(&mut stamps, &[0xFF; 32], at(30)));
    assert_eq!(stamps.len(), 4096);
    assert!(!stamps.contains(&oldest));
    assert!(stamps.contains(&[0xFF; 32]));
    let mut attempts: NameMap<Instant> = NameMap::new();
    assert!(sig_verify_rate_limit_ok(&mut attempts, &[1; 32], at(100)));
    assert!(!sig_verify_rate_limit_ok(&mut attempts, &[1; 32], at(159)));
    assert!(sig_verify_rate_limit_ok(&mut attempts, &[2; 32], at(159)));
    assert!(sig_verify_rate_limit_ok(&mut attempts, &[1; 32], at(160)));
}

#[test]
fn records_hold_what_they_are_given() {
    assert_eq!(peer_hex(&[0x0F; 32]), "0f".repeat(32));
    assert_eq!(
        node_started("p", "honest", "0.1"),
        V12Event::NodeStarted { peer: "p", role: "honest", version: "0.1" }
    );
    assert_eq!(
        gossip_ingest("p", true, "accepted", 3),
        V12Event::GossipIngest { source: "p", accept: true, reason: "accepted", cache_size: 3 }
    );
    assert_eq!(
        audit_issued("p", 4, 5, Some("ff"), true),
        V12Event::AuditIssued {
            challenged_peer: "p",
            challenge_id: 4,
            keys: 5,
            pin: Some("ff"),
            commitment_capable: true,
        }
    );
    assert_eq!(
        audit_outcome("p", 4, "failed", Some("pin")),
        V12Event::AuditOutcome {
            challenged_peer: "p",
            challenge_id: 4,
            outcome: "failed",
            gate: Some("pin"),
        }
    );
    assert_eq!(
        holder_credit_recorded("p", "k", "ff"),
        V12Event::HolderCreditRecorded { peer: "p", key: "k", pin: "ff" }
    );
    assert_eq!(
        holder_credit_dropped(None, Some("ff"), "expired", 2),
        V12Event::HolderCreditDropped {
            peer: None,
            pin: Some("ff"),
            reason: "expired",
            entries_dropped: 2,
        }
    );
    assert_eq!(peer_removed("p"), V12Event::PeerRemoved { peer: "p" });
    assert_eq!(
        quorum_decision("k", "verified", 1, 2, 3, 4),
        V12Event::QuorumDecision {
            key: "k",
            outcome: "verified",
            present_credited: 1,
            present_uncredited: 2,
            absent: 3,
            unresolved: 4,
        }
    );
    assert_eq!(
        commitment_rotated("ff", 9, 2),
        V12Event::CommitmentRotated { new_pin: "ff", key_count: 9, retained_slots: 2 }
    );
}
