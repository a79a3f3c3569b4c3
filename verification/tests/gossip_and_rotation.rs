//! Commitments that peers publish, and the node's own.

use ant_node::adversary::AdversaryMode;
use ant_node::ant_protocol::XorName;
use ant_node::name_map::NameMap;
use ant_node::replication::commitment::{verify_commitment_signature, CommitmentError};
use ant_node::replication::commitment::StorageCommitment;
use ant_node::replication::commitment_state::{BuiltCommitment, PeerCommitmentRecord};
use ant_node::replication::commitment_state::ResponderCommitmentState;
use ant_node::replication::gossip::{cached_target, forget_departed_peer, ingest_peer_commitment};
use ant_node::replication::gossip::{maybe_trigger_gossip_audit, AuditTarget, IngestVerdict};
use ant_node::replication::recent_provers::RecentProvers;
use ant_node::replication::rotation::{rebuild_and_rotate_commitment, sign_and_rotate};
use ant_node::replication::rotation::RotationOutcome;
use ant_node::replication::sync::publish_current;
use ant_node::time::Instant;
use saorsa_pqc::api::sig::ml_dsa_65;

struct Identity {
    peer: [u8; 32],
    public: Vec<u8>,
    secret: Vec<u8>,
}

fn identity() -> Identity {
    let (pk, sk) = ml_dsa_65().generate_keypair().unwrap();
    let public = pk.to_bytes();
    Identity { peer: *blake3::hash(&public).as_bytes(), public, secret: sk.to_bytes() }
}

fn at(secs: u64) -> Instant {
    Instant { nanos: u128::from(secs) * 1_000_000_000 }
}

fn key(byte: u8) -> XorName {
    let mut k = [0u8; 32];
    k[31] = byte;
    k
}

fn commitment_of(id: &Identity, keys: u8) -> StorageCommitment {
    let entries = (0..keys).map(|i| (key(i), key(i))).collect();
    BuiltCommitment::build(entries, &id.peer, &id.secret, &id.public).unwrap().commitment().clone()
}

struct Tables {
    last: NameMap<PeerCommitmentRecord>,
    capable: NameMap<()>,
    attempts: NameMap<Instant>,
}

impl Tables {
    fn new() -> Self {
        Self { last: NameMap::new(), capable: NameMap::new(), attempts: NameMap::new() }
    }

    fn ingest(
        &mut self,
        source: &[u8; 32],
        commitment: Option<&StorageCommitment>,
        in_rt: bool,
        secs: u64,
    ) -> (IngestVerdict, Option<AuditTarget>, usize) {
        let outcome = ingest_peer_commitment(
            source,
            commitment,
            in_rt,
            &mut self.last,
            &mut self.capable,
            &mut self.attempts,
            at(secs),
        );
        (outcome.verdict, outcome.target, outcome.cache_size)
    }
}

#[test]
fn valid_commitment_is_kept_and_makes_a_target() {
    let id = identity();
    let c = commitment_of(&id, 5);
    let mut t = Tables::new();
    let pin = ant_node::replication::commitment::commitment_hash(&c).unwrap();
    let target = Some(AuditTarget { pin_hash: pin, key_count: 5 });
    assert_eq!(t.ingest(&id.peer, Some(&c), true, 100), (IngestVerdict::Accepted, target, 1));
    assert!(t.capable.contains(&id.peer));
    assert_eq!(cached_target(&t.last, &id.peer), target);
    // The same commitment again makes a target again, once the rate allows it.
    assert_eq!(
        t.ingest(&id.peer, Some(&c), true, 159).0,
        IngestVerdict::SigVerifyRateLimited
    );
    assert_eq!(t.ingest(&id.peer, Some(&c), true, 160), (IngestVerdict::Accepted, target, 1));
    // A peer that stops publishing is still audited against what is known.
    assert_eq!(t.ingest(&id.peer, None, false, 161), (IngestVerdict::NoCommitment, target, 1));
}

#[test]
fn every_gate_turns_down_what_it_should() {
    let id = identity();
    let other = identity();
    let c = commitment_of(&id, 3);
    let mut t = Tables::new();
    assert_eq!(t.ingest(&id.peer, None, true, 1), (IngestVerdict::NoCommitment, None, 0));
    assert_eq!(t.ingest(&id.peer, Some(&c), false, 1), (IngestVerdict::RtGate, None, 0));
    assert_eq!(
        t.ingest(&other.peer, Some(&c), true, 1),
        (IngestVerdict::PeerIdMismatch, None, 0)
    );
    let stolen = BuiltCommitment::build(vec![(key(1), key(1))], &id.peer, &other.secret, &other.public)
        .unwrap()
        .commitment()
        .clone();
    assert_eq!(
        t.ingest(&id.peer, Some(&stolen), true, 1),
        (IngestVerdict::PubkeyBindMismatch, None, 0)
    );
    assert_eq!(t.attempts.len(), 0);
    let mut forged = c.clone();
    forged.key_count = 4;
    assert_eq!(t.ingest(&id.peer, Some(&forged), true, 1), (IngestVerdict::SigInvalid, None, 0));
    assert_eq!(t.attempts.len(), 1);
    assert_eq!(
        t.ingest(&id.peer, Some(&c), true, 2),
        (IngestVerdict::SigVerifyRateLimited, None, 0)
    );
    assert_eq!(t.capable.len(), 0);
    assert_eq!(t.ingest(&id.peer, Some(&c), true, 61).0, IngestVerdict::Accepted);
}

#[test]
fn verdicts_have_their_names() {
    let names: Vec<&str> = [
        IngestVerdict::RtGate,
        IngestVerdict::PeerIdMismatch,
        IngestVerdict::PubkeyBindMismatch,
        IngestVerdict::SigVerifyRateLimited,
        IngestVerdict::SigInvalid,
        IngestVerdict::Accepted,
    ]
    .iter()
    .map(|v| v.name())
    .collect();
    assert_eq!(
        names,
        vec![
            "rt_gate",
            "peer_id_mismatch",
            "pubkey_bind_mismatch",
            "sig_verify_rate_limited",
            "sig_invalid",
            "accepted",
        ]
    );
}

#[test]
fn full_table_makes_room_for_a_new_peer() {
    let id = identity();
    let c = commitment_of(&id, 2);
    let mut t = Tables::new();
    for i in 0..4096u32 {
        let mut peer = [0xEEu8; 32];
        peer[..4].copy_from_slice(&i.to_be_bytes());
        t.last.insert(peer, PeerCommitmentRecord::capable_but_no_commitment(at(0)));
    }
    assert_eq!(t.last.len(), 4096);
    let (verdict, _, size) = t.ingest(&id.peer, Some(&c), true, 10);
    assert_eq!(verdict, IngestVerdict::Accepted);
    assert_eq!(size, 4096);
    assert!(t.last.contains(&id.peer));
}

#[test]
fn full_memory_of_capable_peers_takes_no_new_ones() {
    let id = identity();
    let c = commitment_of(&id, 2);
    let mut t = Tables::new();
    for i in 0..16_384u32 {
        let mut peer = [0xEEu8; 32];
        peer[..4].copy_from_slice(&i.to_be_bytes());
        t.capable.insert(peer, ());
    }
    assert_eq!(t.ingest(&id.peer, Some(&c), true, 10).0, IngestVerdict::Accepted);
    assert_eq!(t.capable.len(), 16_384);
    assert!(!t.capable.contains(&id.peer));
}

#[test]
fn departed_peer_is_forgotten_but_stays_capable() {
    let id = identity();
    let c = commitment_of(&id, 2);
    let mut t = Tables::new();
    t.ingest(&id.peer, Some(&c), true, 10);
    let mut provers = RecentProvers::new();
    provers.record_proof(key(1), id.peer, [5; 32], at(10));
    provers.record_proof(key(1), [9; 32], [6; 32], at(10));
    let mut strikes: NameMap<u32> = NameMap::new();
    strikes.insert(id.peer, 2);
    let mut cooldown: NameMap<Instant> = NameMap::new();
    cooldown.insert(id.peer, at(10));
    forget_departed_peer(
        &id.peer,
        &mut t.last,
        &mut provers,
        &mut t.attempts,
        &mut strikes,
        &mut cooldown,
    );
    assert_eq!(t.last.len(), 0);
    assert_eq!(t.attempts.len(), 0);
    assert_eq!(strikes.len(), 0);
    assert_eq!(cooldown.len(), 0);
    assert!(t.capable.contains(&id.peer));
    assert!(!provers.is_credited_holder(&key(1), &id.peer, &[5; 32], at(11)));
    assert!(provers.is_credited_holder(&key(1), &[9; 32], &[6; 32], at(11)));
}

#[test]
fn renewal_follows_the_stored_keys() {
    let id = identity();
    let mut state = ResponderCommitmentState::new();
    let renew = |state: &mut ResponderCommitmentState, keys: Vec<XorName>, mode| {
        rebuild_and_rotate_commitment(&keys, state, &id.peer, &id.secret, &id.public, mode)
    };
    assert_eq!(renew(&mut state, vec![], None), Ok(RotationOutcome::Empty));
    assert_eq!(
        renew(&mut state, vec![key(1)], Some(AdversaryMode::Silent)),
        Ok(RotationOutcome::Silent)
    );
    assert!(state.current().is_none());
    let first = renew(&mut state, vec![key(2), key(1)], None).unwrap();
    let current = state.current().unwrap();
    assert_eq!(
        first,
        RotationOutcome::Rotated { hash: current.hash(), key_count: 2, retained_slots: 1 }
    );
    assert_eq!(current.commitment().sender_peer_id, id.peer);
    assert!(verify_commitment_signature(current.commitment()));
    assert!(current.proof_for(&key(1)).is_some());
    // The same keys in another order change nothing.
    assert_eq!(
        renew(&mut state, vec![key(1), key(2)], None),
        Ok(RotationOutcome::Unchanged)
    );
    assert_eq!(state.current().unwrap().hash(), current.hash());
    assert_eq!(
        renew(&mut state, vec![key(1), key(1)], None),
        Err(CommitmentError::DuplicateKey { key: key(1) })
    );
    // A published commitment stays answerable after the next renewal.
    let published = publish_current(&mut state).unwrap();
    assert_eq!(published, *current.commitment());
    match renew(&mut state, vec![key(1), key(2), key(3)], None).unwrap() {
        RotationOutcome::Rotated { key_count, retained_slots, .. } => {
            assert_eq!(key_count, 3);
            assert_eq!(retained_slots, 2);
        }
        other => panic!("expected a renewal, got {other:?}"),
    }
    assert!(state.lookup_by_hash(&current.hash()).is_some());
    assert_eq!(renew(&mut state, vec![], None), Ok(RotationOutcome::Empty));
    assert!(state.current().is_none());
    assert!(state.lookup_by_hash(&current.hash()).is_none());
    assert!(publish_current(&mut state).is_none());
}

#[test]
fn throwaway_key_is_caught_at_the_gate() {
    let id = identity();
    let mut state = ResponderCommitmentState::new();
    let mode = Some(AdversaryMode::ThrowawayKey);
    rebuild_and_rotate_commitment(&vec![key(1)], &mut state, &id.peer, &id.secret, &id.public, mode)
        .unwrap();
    let c = state.current().unwrap().commitment().clone();
    assert_eq!(c.sender_peer_id, id.peer);
    assert_ne!(c.sender_public_key, id.public);
    assert!(verify_commitment_signature(&c));
    let mut t = Tables::new();
    assert_eq!(
        t.ingest(&id.peer, Some(&c), true, 10).0,
        IngestVerdict::PubkeyBindMismatch
    );
}

#[test]
fn side_keys_take_the_place_of_the_own_ones() {
    let id = identity();
    let side = identity();
    let mut state = ResponderCommitmentState::new();
    let pair = Some((side.public.clone(), side.secret.clone()));
    sign_and_rotate(&vec![key(1)], &mut state, &id.peer, &id.secret, &id.public, pair).unwrap();
    let c = state.current().unwrap().commitment().clone();
    assert_eq!(c.sender_public_key, side.public);
    assert_eq!(c.sender_peer_id, id.peer);
    assert!(verify_commitment_signature(&c));
    sign_and_rotate(&vec![key(2)], &mut state, &id.peer, &id.secret, &id.public, None).unwrap();
    let c = state.current().unwrap().commitment().clone();
    assert_eq!(c.sender_public_key, id.public);
    assert!(verify_commitment_signature(&c));
    assert_eq!(
        sign_and_rotate(&vec![], &mut state, &id.peer, &id.secret, &id.public, None),
        Err(CommitmentError::EmptyKeySet)
    );
}

#[test]
fn secret_key_of_the_wrong_size_signs_nothing() {
    let id = identity();
    let mut state = ResponderCommitmentState::new();
    let outcome =
        rebuild_and_rotate_commitment(&vec![key(1)], &mut state, &id.peer, &[1, 2, 3], &id.public, None);
    assert!(matches!(outcome, Err(CommitmentError::SignatureFailed(_))));
    assert!(state.current().is_none());
}

#[test]
fn audits_start_only_in_steady_state() {
    let target = Some(AuditTarget { pin_hash: [1; 32], key_count: 9 });
    let mut cooldown: NameMap<Instant> = NameMap::new();
    let peer = [7u8; 32];
    assert_eq!(maybe_trigger_gossip_audit(true, &peer, target, &mut cooldown, at(1), true), None);
    assert_eq!(maybe_trigger_gossip_audit(false, &peer, None, &mut cooldown, at(1), true), None);
    assert_eq!(cooldown.len(), 0);
    assert_eq!(
        maybe_trigger_gossip_audit(false, &peer, target, &mut cooldown, at(1), true),
        target
    );
    assert_eq!(
        maybe_trigger_gossip_audit(false, &peer, target, &mut cooldown, at(1800), true),
        None
    );
    assert_eq!(
        maybe_trigger_gossip_audit(false, &peer, target, &mut cooldown, at(1801), false),
        None
    );
    assert_eq!(
        maybe_trigger_gossip_audit(false, &peer, target, &mut cooldown, at(1802), true),
        None
    );
}
