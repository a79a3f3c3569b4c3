//! What a node stays answerable for.

use ant_node::ant_protocol::XorName;
use ant_node::replication::commitment::{commitment_hash, leaf_hash, verify_path};
use ant_node::replication::commitment_state::{prune_slots, BuiltCommitment};
use ant_node::replication::commitment_state::ResponderCommitmentState;
use saorsa_pqc::api::sig::{ml_dsa_65, MlDsaPublicKey, MlDsaSecretKey};
use std::sync::Arc;

fn key(byte: u8) -> XorName {
    let mut k = [0u8; 32];
    k[0] = byte;
    k
}

fn bh(byte: u8) -> [u8; 32] {
    [byte ^ 0x5A; 32]
}

fn keypair() -> (MlDsaPublicKey, MlDsaSecretKey) {
    ml_dsa_65().generate_keypair().unwrap()
}

#[test]
fn built_commitment_hash_matches_global_hash() {
    let (pk, sk) = keypair();
    let pk_bytes = pk.to_bytes();
    let entries: Vec<_> = (1..=5u8).map(|i| (key(i), bh(i))).collect();
    let built = BuiltCommitment::build(entries, &[0xAB; 32], &sk.to_bytes(), &pk_bytes).unwrap();
    let expected = commitment_hash(built.commitment()).unwrap();
    assert_eq!(built.hash(), expected);
}

#[test]
fn built_commitment_proof_verifies_under_its_own_root() {
    let (pk, sk) = keypair();
    let pk_bytes = pk.to_bytes();
    let entries: Vec<_> = (1..=8u8).map(|i| (key(i), bh(i))).collect();
    let built = BuiltCommitment::build(entries.clone(), &[1; 32], &sk.to_bytes(), &pk_bytes).unwrap();
    let root = built.commitment().root;
    let key_count = built.commitment().key_count;

    for (k, _) in &entries {
        let (path, leaf_index) = built.proof_for(k).expect("present");
        let bh_k = entries.iter().find(|(kk, _)| kk == k).unwrap().1;
        let lh = leaf_hash(k, &bh_k);
        assert!(
            verify_path(&lh, &path, leaf_index as usize, key_count, &root),
            "path verify failed for key {k:?}"
        );
    }
}

#[test]
fn proof_for_absent_key_is_none() {
    let (pk, sk) = keypair();
    let pk_bytes = pk.to_bytes();
    let built = BuiltCommitment::build(
        vec![(key(1), bh(1)), (key(2), bh(2))],
        &[0; 32],
        &sk.to_bytes(),
        &pk_bytes,
    )
    .unwrap();
    assert!(built.proof_for(&key(99)).is_none());
}

#[test]
fn empty_state_returns_none() {
    let state = ResponderCommitmentState::new();
    assert!(state.current().is_none());
    assert!(state.lookup_by_hash(&[0; 32]).is_none());
}

#[test]
fn clear_all_drops_every_slot() {
    let (pk, sk) = keypair();
    let pk_bytes = pk.to_bytes();
    let mut state = ResponderCommitmentState::new();
    let peer_id = *blake3::hash(&pk.to_bytes()).as_bytes();

    let c1 = BuiltCommitment::build(vec![(key(1), bh(1))], &peer_id, &sk.to_bytes(), &pk_bytes).unwrap();
    let h1 = c1.hash();
    state.rotate(c1);
    state.mark_gossiped(h1);
    let c2 = BuiltCommitment::build(vec![(key(2), bh(2))], &peer_id, &sk.to_bytes(), &pk_bytes).unwrap();
    let h2 = c2.hash();
    state.rotate(c2);
    state.mark_gossiped(h2);

    assert!(state.current().is_some());
    assert!(state.lookup_by_hash(&h1).is_some());

    state.clear_all();

    assert!(state.current().is_none());
    assert!(state.lookup_by_hash(&h1).is_none());
}

#[test]
fn lookup_arc_outlives_subsequent_rotation() {
    let (pk, sk) = keypair();
    let pk_bytes = pk.to_bytes();
    let mut state = ResponderCommitmentState::new();

    let c1 = BuiltCommitment::build(vec![(key(1), bh(1))], &[0; 32], &sk.to_bytes(), &pk_bytes).unwrap();
    let h1 = c1.hash();
    state.rotate(c1);

    let in_flight = state.lookup_by_hash(&h1).unwrap();

    let c2 = BuiltCommitment::build(vec![(key(2), bh(2))], &[0; 32], &sk.to_bytes(), &pk_bytes).unwrap();
    state.rotate(c2);
    assert!(state.lookup_by_hash(&h1).is_none());

    assert_eq!(in_flight.hash(), h1);
    assert!(in_flight.proof_for(&key(1)).is_some());
}

#[test]
fn gossiped_commitment_stays_answerable_across_rotations() {
    let (pk, sk) = keypair();
    let pk_bytes = pk.to_bytes();
    let mut state = ResponderCommitmentState::new();

    let c1 = BuiltCommitment::build(vec![(key(1), bh(1))], &[0; 32], &sk.to_bytes(), &pk_bytes).unwrap();
    let h1 = c1.hash();
    state.rotate(c1);
    state.mark_gossiped(h1);

    let c2 = BuiltCommitment::build(vec![(key(2), bh(2))], &[0; 32], &sk.to_bytes(), &pk_bytes).unwrap();
    let h2 = c2.hash();
    state.rotate(c2);
    state.mark_gossiped(h2);
    assert!(
        state.lookup_by_hash(&h1).is_some(),
        "c1 must stay answerable"
    );
    assert!(state.lookup_by_hash(&h2).is_some());

    let c3 = BuiltCommitment::build(vec![(key(3), bh(3))], &[0; 32], &sk.to_bytes(), &pk_bytes).unwrap();
    let h3 = c3.hash();
    state.rotate(c3);
    state.mark_gossiped(h3);
    assert!(
        state.lookup_by_hash(&h1).is_none(),
        "c1 aged out of gossip window"
    );
    assert!(state.lookup_by_hash(&h2).is_some());
    assert!(state.lookup_by_hash(&h3).is_some());
}

#[test]
fn current_plus_last_two_gossiped_are_simultaneously_answerable() {
    let (pk, sk) = keypair();
    let pk_bytes = pk.to_bytes();
    let mut state = ResponderCommitmentState::new();

    let c1 = BuiltCommitment::build(vec![(key(1), bh(1))], &[0; 32], &sk.to_bytes(), &pk_bytes).unwrap();
    let h1 = c1.hash();
    state.rotate(c1);
    state.mark_gossiped(h1);

    let c2 = BuiltCommitment::build(vec![(key(2), bh(2))], &[0; 32], &sk.to_bytes(), &pk_bytes).unwrap();
    let h2 = c2.hash();
    state.rotate(c2);
    state.mark_gossiped(h2);

    assert!(
        state.lookup_by_hash(&h1).is_some(),
        "the commitment published just before the newest one must stay answerable"
    );
    assert!(
        state.lookup_by_hash(&h2).is_some(),
        "current must be answerable"
    );
    assert_ne!(h1, h2, "the two retained commitments must be distinct");

    let c3 = BuiltCommitment::build(vec![(key(3), bh(3))], &[0; 32], &sk.to_bytes(), &pk_bytes).unwrap();
    let h3 = c3.hash();
    state.rotate(c3);
    state.mark_gossiped(h3);

    assert_ne!(h2, h3);
    assert_ne!(h1, h3);
    assert!(
        state.lookup_by_hash(&h3).is_some(),
        "current (c3) answerable"
    );
    assert!(
        state.lookup_by_hash(&h2).is_some(),
        "c2 (published just before newest) answerable — the race-absorbing slot"
    );
    assert!(
        state.lookup_by_hash(&h1).is_none(),
        "c1 is the 3rd-oldest gossiped root and MUST be dropped — depth is exactly 2"
    );
}

#[test]
fn ungossiped_rebuild_does_not_evict_gossiped_commitment() {
    let (pk, sk) = keypair();
    let pk_bytes = pk.to_bytes();
    let mut state = ResponderCommitmentState::new();

    let c1 = BuiltCommitment::build(vec![(key(1), bh(1))], &[0; 32], &sk.to_bytes(), &pk_bytes).unwrap();
    let h1 = c1.hash();
    state.rotate(c1);
    state.mark_gossiped(h1);

    for i in 2..=6u8 {
        let c =
            BuiltCommitment::build(vec![(key(i), bh(i))], &[0; 32], &sk.to_bytes(), &pk_bytes).unwrap();
        state.rotate(c);
    }
    assert!(
        state.lookup_by_hash(&h1).is_some(),
        "gossiped commitment must survive ungossiped rebuilds"
    );
}

#[test]
fn pruning_twice_keeps_what_pruning_once_kept() {
    let (pk, sk) = keypair();
    let slots: Vec<Arc<BuiltCommitment>> = (1..=4u8)
        .map(|i| {
            let entries = vec![(key(i), bh(i))];
            let built = BuiltCommitment::build(entries, &[1; 32], &sk.to_bytes(), &pk.to_bytes());
            Arc::new(built.unwrap())
        })
        .collect();
    let hashes =
        |slots: &[Arc<BuiltCommitment>]| slots.iter().map(|s| s.hash()).collect::<Vec<_>>();
    let gossiped = vec![slots[3].hash(), slots[1].hash()];
    let once = prune_slots(&slots, &gossiped);
    assert_eq!(hashes(&once), vec![slots[0].hash(), slots[1].hash(), slots[3].hash()]);
    assert_eq!(hashes(&prune_slots(&once, &gossiped)), hashes(&once));
    assert!(prune_slots(&vec![], &gossiped).is_empty());
}
