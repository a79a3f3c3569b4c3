//! Both rounds of an audit, on branches of committed trees.

use ant_node::ant_protocol::XorName;
use ant_node::replication::audit::{evaluate_subtree_structure, spotcheck_leaves};
use ant_node::replication::audit::{verify_byte_response, AuditVerdict};
use ant_node::replication::audit::{BYTE_SPOTCHECK_MAX, BYTE_SPOTCHECK_MIN};
use ant_node::replication::commitment_state::BuiltCommitment;
use ant_node::replication::subtree::{build_subtree_proof, nonced_leaf_hash};
use ant_node::replication::subtree::{SubtreeLeaf, SubtreeProof};
use ant_node::replication::types::AuditFailureReason;
use saorsa_pqc::api::sig::ml_dsa_65;

fn key(i: u32) -> XorName {
    let mut k = [0u8; 32];
    k[..4].copy_from_slice(&i.to_be_bytes());
    k
}
fn chunk_bytes(k: &XorName) -> Vec<u8> {
    let mut v = k.to_vec();
    v.extend_from_slice(b"chunk-body");
    v
}

fn honest(n: u32, nonce: &[u8; 32]) -> (BuiltCommitment, SubtreeProof, [u8; 32]) {
    let (pk, sk) = ml_dsa_65().generate_keypair().unwrap();
    let peer_id = *blake3::hash(&pk.to_bytes()).as_bytes();
    let pk_b = pk.to_bytes();
    let entries: Vec<_> = (0..n)
        .map(|i| {
            let k = key(i);
            (k, *blake3::hash(&chunk_bytes(&k)).as_bytes())
        })
        .collect();
    let built = BuiltCommitment::build(entries, &peer_id, &sk.to_bytes(), &pk_b).unwrap();
    let proof =
        build_subtree_proof(built.tree(), nonce, &peer_id, |k| Some(chunk_bytes(k))).unwrap();
    (built, proof, peer_id)
}

fn structure(
    built: &BuiltCommitment,
    proof: &SubtreeProof,
    nonce: &[u8; 32],
    peer: &[u8; 32],
) -> Result<(), AuditFailureReason> {
    evaluate_subtree_structure(built.commitment(), proof, nonce, &built.hash(), peer)
}

fn sample<'a>(proof: &'a SubtreeProof, nonce: &[u8; 32], n: u32) -> Vec<&'a SubtreeLeaf> {
    spotcheck_leaves(
        proof,
        nonce,
        n,
        8u32.clamp(BYTE_SPOTCHECK_MIN, BYTE_SPOTCHECK_MAX),
    )
}

fn served_honest(key: &XorName) -> Option<Option<Vec<u8>>> {
    Some(Some(chunk_bytes(key)))
}

#[test]
fn honest_structure_then_bytes_passes() {
    let nonce = [9u8; 32];
    let (built, proof, peer) = honest(400, &nonce);
    assert!(structure(&built, &proof, &nonce, &peer).is_ok());
    let s = sample(&proof, &nonce, built.commitment().key_count);
    assert!(!s.is_empty());
    match verify_byte_response(&s, &nonce, &peer, served_honest) {
        AuditVerdict::Pass { checked } => assert!(checked >= 1, "must verify >=1 leaf"),
        other => panic!("expected Pass, got {other:?}"),
    }
}

#[test]
fn commitment_bound_to_another_peer_rejected() {
    let nonce = [3u8; 32];
    let (built, proof, _peer) = honest(200, &nonce);
    let other = [0xAAu8; 32];
    assert_eq!(
        structure(&built, &proof, &nonce, &other),
        Err(AuditFailureReason::Rejected)
    );
}

#[test]
fn wrong_pinned_commitment_rejected() {
    let nonce = [3u8; 32];
    let (built, proof, peer) = honest(200, &nonce);
    let mut wrong_pin = built.hash();
    wrong_pin[0] ^= 0x01;
    assert_eq!(
        evaluate_subtree_structure(built.commitment(), &proof, &nonce, &wrong_pin, &peer),
        Err(AuditFailureReason::Rejected)
    );
}

#[test]
fn tampered_leaf_structure_rejected() {
    let nonce = [3u8; 32];
    let (built, mut proof, peer) = honest(200, &nonce);
    if let Some(first) = proof.leaves.first_mut() {
        first.bytes_hash[0] ^= 0x01;
    }
    assert_eq!(
        structure(&built, &proof, &nonce, &peer),
        Err(AuditFailureReason::DigestMismatch)
    );
}

#[test]
fn wrong_leaf_count_structure_rejected() {
    let nonce = [3u8; 32];
    let (built, mut proof, peer) = honest(200, &nonce);
    proof.leaves.pop();
    assert_eq!(
        structure(&built, &proof, &nonce, &peer),
        Err(AuditFailureReason::DigestMismatch)
    );
}

#[test]
fn deleter_absent_bytes_is_confirmed_failure() {
    let nonce = [9u8; 32];
    let (built, proof, peer) = honest(400, &nonce);
    assert!(structure(&built, &proof, &nonce, &peer).is_ok());
    let s = sample(&proof, &nonce, built.commitment().key_count);
    let victim = s.first().map(|l| l.key).unwrap();
    let v = verify_byte_response(&s, &nonce, &peer, |k| {
        if *k == victim {
            Some(None)
        } else {
            Some(Some(chunk_bytes(k)))
        }
    });
    assert_eq!(v, AuditVerdict::Fail(AuditFailureReason::DigestMismatch));
}

#[test]
fn omitted_committed_key_is_confirmed_failure() {
    let nonce = [9u8; 32];
    let (built, proof, peer) = honest(400, &nonce);
    let s = sample(&proof, &nonce, built.commitment().key_count);
    let victim = s.first().map(|l| l.key).unwrap();
    let v = verify_byte_response(&s, &nonce, &peer, |k| {
        if *k == victim {
            None
        } else {
            Some(Some(chunk_bytes(k)))
        }
    });
    assert_eq!(v, AuditVerdict::Fail(AuditFailureReason::DigestMismatch));
}

#[test]
fn fake_storage_garbage_bytes_is_confirmed_failure() {
    let nonce = [9u8; 32];
    let (built, proof, peer) = honest(400, &nonce);
    let s = sample(&proof, &nonce, built.commitment().key_count);
    let v = verify_byte_response(&s, &nonce, &peer, |k| {
        let mut garbage = blake3::hash(k).as_bytes().to_vec();
        garbage.extend_from_slice(b"adversary-fake-storage");
        Some(Some(garbage))
    });
    assert_eq!(v, AuditVerdict::Fail(AuditFailureReason::DigestMismatch));
}

#[test]
fn correct_content_address_but_stale_freshness_fails() {
    let nonce = [9u8; 32];
    let (built, mut proof, peer) = honest(400, &nonce);
    let other_nonce = [0xEEu8; 32];
    let s_keys: Vec<XorName> = sample(&proof, &nonce, built.commitment().key_count)
        .iter()
        .map(|l| l.key)
        .collect();
    let victim = s_keys.first().copied().unwrap();
    for leaf in &mut proof.leaves {
        if leaf.key == victim {
            leaf.nonced_hash =
                nonced_leaf_hash(&other_nonce, &peer, &leaf.key, &chunk_bytes(&leaf.key));
        }
    }
    let s = sample(&proof, &nonce, built.commitment().key_count);
    let v = verify_byte_response(&s, &nonce, &peer, served_honest);
    assert_eq!(v, AuditVerdict::Fail(AuditFailureReason::DigestMismatch));
}

#[test]
fn auditor_holds_nothing_still_catches_deleter() {
    let nonce = [0x21u8; 32];
    let (built, proof, peer) = honest(256, &nonce);
    assert!(structure(&built, &proof, &nonce, &peer).is_ok());
    let s = sample(&proof, &nonce, built.commitment().key_count);
    let v = verify_byte_response(&s, &nonce, &peer, |_| Some(None));
    assert_eq!(v, AuditVerdict::Fail(AuditFailureReason::DigestMismatch));
}

#[test]
fn sample_size_is_in_3_to_5_band() {
    let nonce = [7u8; 32];
    let (built, proof, _peer) = honest(1024, &nonce);
    let s = sample(&proof, &nonce, built.commitment().key_count);
    assert!(
        (BYTE_SPOTCHECK_MIN as usize..=BYTE_SPOTCHECK_MAX as usize).contains(&s.len()),
        "sample {} must be within 3..=5",
        s.len()
    );
}

#[test]
fn full_pass_requires_every_sampled_leaf() {
    let nonce = [11u8; 32];
    let (built, proof, peer) = honest(400, &nonce);
    let s = sample(&proof, &nonce, built.commitment().key_count);
    match verify_byte_response(&s, &nonce, &peer, served_honest) {
        AuditVerdict::Pass { checked } => assert_eq!(checked, s.len()),
        other => panic!("expected Pass, got {other:?}"),
    }
}

#[test]
fn structure_fail_short_circuits_before_round_2() {
    let nonce = [5u8; 32];
    let (built, mut proof, peer) = honest(300, &nonce);
    if let Some(first) = proof.leaves.first_mut() {
        first.bytes_hash[0] ^= 0x01;
    }
    assert!(structure(&built, &proof, &nonce, &peer).is_err());
}

fn honest_far(n: u32, nonce: &[u8; 32]) -> (BuiltCommitment, SubtreeProof, [u8; 32]) {
    let (pk, sk) = ml_dsa_65().generate_keypair().unwrap();
    let peer_id = *blake3::hash(&pk.to_bytes()).as_bytes();
    let pk_b = pk.to_bytes();
    let entries: Vec<_> = (0..n)
        .map(|i| {
            let mut k = [0xFFu8; 32];
            k[28..].copy_from_slice(&i.to_be_bytes());
            (k, *blake3::hash(&chunk_bytes(&k)).as_bytes())
        })
        .collect();
    let built = BuiltCommitment::build(entries, &peer_id, &sk.to_bytes(), &pk_b).unwrap();
    let proof =
        build_subtree_proof(built.tree(), nonce, &peer_id, |k| Some(chunk_bytes(k))).unwrap();
    (built, proof, peer_id)
}

#[test]
fn closeness_is_observe_only_far_keys_still_pass() {
    let nonce = [9u8; 32];

    let (built_far, proof_far, peer_far) = honest_far(400, &nonce);
    assert!(structure(&built_far, &proof_far, &nonce, &peer_far).is_ok());
    let sf = sample(&proof_far, &nonce, built_far.commitment().key_count);
    let v_far = verify_byte_response(&sf, &nonce, &peer_far, served_honest);

    let (built_near, proof_near, peer_near) = honest(400, &nonce);
    assert!(structure(&built_near, &proof_near, &nonce, &peer_near).is_ok());
    let sn = sample(&proof_near, &nonce, built_near.commitment().key_count);
    let v_near = verify_byte_response(&sn, &nonce, &peer_near, served_honest);

    match (&v_far, &v_near) {
        (AuditVerdict::Pass { checked: cf }, AuditVerdict::Pass { checked: cn }) => {
            assert!(*cf >= 1 && *cn >= 1);
        }
        other => panic!("both honest proofs must Pass regardless of closeness, got {other:?}"),
    }
    assert!(
        !matches!(v_far, AuditVerdict::Fail(_)),
        "far/padding-shaped honest proof must NEVER fail, got {v_far:?}"
    );
}

#[test]
fn subtree_leaf_is_constructible() {
    let _l = SubtreeLeaf {
        key: key(1),
        bytes_hash: [0u8; 32],
        nonced_hash: [0u8; 32],
    };
}

#[test]
fn nothing_to_check_is_no_pass() {
    let verdict = verify_byte_response(&[], &[1; 32], &[2; 32], served_honest);
    assert_eq!(verdict, AuditVerdict::Fail(AuditFailureReason::DigestMismatch));
}
