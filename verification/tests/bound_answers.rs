//! Answers for single keys, bound to a published commitment.

use ant_node::ant_protocol::XorName;
use ant_node::replication::commitment::{commitment_hash, CommitmentBoundResult};
use ant_node::replication::commitment_audit::{verify_commitment_bound_response, AuditVerifyError};
use ant_node::replication::commitment_state::BuiltCommitment;
use ant_node::replication::protocol::compute_audit_digest;
use saorsa_pqc::api::sig::{ml_dsa_65, MlDsaPublicKey};
use std::collections::HashMap;

fn key(byte: u8) -> XorName {
    let mut k = [0u8; 32];
    k[0] = byte;
    k
}

fn content(byte: u8) -> Vec<u8> {
    (0..256u32)
        .map(|i| u8::try_from(i).unwrap_or(0) ^ byte)
        .collect()
}

fn bytes_hash(bytes: &[u8]) -> [u8; 32] {
    *blake3::hash(bytes).as_bytes()
}

struct AuditFixture {
    pub built: BuiltCommitment,
    pub bytes_by_key: HashMap<XorName, Vec<u8>>,
    pub peer_id: [u8; 32],
    pub nonce: [u8; 32],
}

fn fixture(n: u8) -> (AuditFixture, MlDsaPublicKey) {
    let (pk, sk) = ml_dsa_65().generate_keypair().unwrap();
    let peer_id = *blake3::hash(&pk.to_bytes()).as_bytes();
    let nonce = [0xCD; 32];
    let entries: Vec<_> = (1..=n)
        .map(|i| {
            let k = key(i);
            let c = content(i);
            (k, bytes_hash(&c))
        })
        .collect();
    let bytes_by_key: HashMap<_, _> = (1..=n).map(|i| (key(i), content(i))).collect();
    let built = BuiltCommitment::build(entries, &peer_id, &sk.to_bytes(), &pk.to_bytes()).unwrap();
    let fx = AuditFixture {
        built,
        bytes_by_key,
        peer_id,
        nonce,
    };
    (fx, pk)
}

fn build_valid_response(fx: &AuditFixture, keys: &[XorName]) -> Vec<CommitmentBoundResult> {
    keys.iter()
        .map(|k| {
            let bytes = fx.bytes_by_key.get(k).expect("auditor holds key").clone();
            let (path, leaf_index) = fx.built.proof_for(k).expect("present");
            let bh = bytes_hash(&bytes);
            let digest = compute_audit_digest(&fx.nonce, &fx.peer_id, k, &bytes);
            CommitmentBoundResult {
                key: *k,
                digest,
                bytes_hash: bh,
                leaf_index,
                path,
            }
        })
        .collect()
}

fn local_lookup(fx: &AuditFixture) -> impl Fn(&XorName) -> Option<Vec<u8>> + '_ {
    |k: &XorName| fx.bytes_by_key.get(k).cloned()
}

#[test]
fn valid_response_verifies() {
    let (fx, _pk) = fixture(8);
    let keys = vec![key(1), key(2), key(3)];
    let per_key = build_valid_response(&fx, &keys);
    let result = verify_commitment_bound_response(
        &keys,
        &fx.nonce,
        &fx.peer_id,
        &fx.built.hash(),
        fx.built.commitment(),
        &per_key,
        local_lookup(&fx),
    );
    assert!(result.is_ok(), "{result:?}");
}

#[test]
fn wrong_key_count_rejected() {
    let (fx, _pk) = fixture(8);
    let keys = vec![key(1), key(2), key(3)];
    let mut per_key = build_valid_response(&fx, &keys);
    per_key.pop();
    let result = verify_commitment_bound_response(
        &keys,
        &fx.nonce,
        &fx.peer_id,
        &fx.built.hash(),
        fx.built.commitment(),
        &per_key,
        local_lookup(&fx),
    );
    assert!(matches!(
        result,
        Err(AuditVerifyError::PerKeyCountMismatch { .. })
    ));
}

#[test]
fn wrong_key_order_rejected() {
    let (fx, _pk) = fixture(8);
    let keys = vec![key(1), key(2), key(3)];
    let mut per_key = build_valid_response(&fx, &keys);
    per_key.swap(0, 2);
    let result = verify_commitment_bound_response(
        &keys,
        &fx.nonce,
        &fx.peer_id,
        &fx.built.hash(),
        fx.built.commitment(),
        &per_key,
        local_lookup(&fx),
    );
    assert!(matches!(
        result,
        Err(AuditVerifyError::PerKeyOrderMismatch { .. })
    ));
}

#[test]
fn duplicate_key_rejected() {
    let (fx, _pk) = fixture(8);
    let keys = vec![key(1), key(1), key(3)];
    let per_key = build_valid_response(&fx, &keys);
    let result = verify_commitment_bound_response(
        &keys,
        &fx.nonce,
        &fx.peer_id,
        &fx.built.hash(),
        fx.built.commitment(),
        &per_key,
        local_lookup(&fx),
    );
    assert!(matches!(result, Err(AuditVerifyError::DuplicateKey { .. })));
}

#[test]
fn wrong_commitment_hash_pin_rejected() {
    let (fx, _pk) = fixture(8);
    let keys = vec![key(1)];
    let per_key = build_valid_response(&fx, &keys);
    let mut wrong_pin = fx.built.hash();
    wrong_pin[0] ^= 0x01;
    let result = verify_commitment_bound_response(
        &keys,
        &fx.nonce,
        &fx.peer_id,
        &wrong_pin,
        fx.built.commitment(),
        &per_key,
        local_lookup(&fx),
    );
    assert!(matches!(
        result,
        Err(AuditVerifyError::CommitmentHashMismatch)
    ));
}

#[test]
fn tampered_signature_rejected() {
    let (fx, _pk) = fixture(8);
    let keys = vec![key(1)];
    let per_key = build_valid_response(&fx, &keys);
    let mut bad_commit = fx.built.commitment().clone();
    bad_commit.signature[0] ^= 0xFF;
    let pin = commitment_hash(&bad_commit).unwrap();
    let result = verify_commitment_bound_response(
        &keys,
        &fx.nonce,
        &fx.peer_id,
        &pin,
        &bad_commit,
        &per_key,
        local_lookup(&fx),
    );
    assert!(matches!(result, Err(AuditVerifyError::SignatureInvalid)));
}

#[test]
fn wrong_bytes_hash_rejected() {
    let (fx, _pk) = fixture(8);
    let keys = vec![key(1)];
    let mut per_key = build_valid_response(&fx, &keys);
    per_key[0].bytes_hash[0] ^= 0x01;
    let result = verify_commitment_bound_response(
        &keys,
        &fx.nonce,
        &fx.peer_id,
        &fx.built.hash(),
        fx.built.commitment(),
        &per_key,
        local_lookup(&fx),
    );
    assert!(matches!(
        result,
        Err(AuditVerifyError::BytesHashMismatch { .. })
    ));
}

#[test]
fn missing_local_bytes_rejected_as_bytes_hash_mismatch() {
    let (fx, _pk) = fixture(8);
    let keys = vec![key(1)];
    let per_key = build_valid_response(&fx, &keys);
    let result = verify_commitment_bound_response(
        &keys,
        &fx.nonce,
        &fx.peer_id,
        &fx.built.hash(),
        fx.built.commitment(),
        &per_key,
        |_| None,
    );
    assert!(matches!(
        result,
        Err(AuditVerifyError::BytesHashMismatch { .. })
    ));
}

#[test]
fn out_of_range_leaf_index_rejected() {
    let (fx, _pk) = fixture(8);
    let keys = vec![key(1)];
    let mut per_key = build_valid_response(&fx, &keys);
    per_key[0].leaf_index = 999;
    let result = verify_commitment_bound_response(
        &keys,
        &fx.nonce,
        &fx.peer_id,
        &fx.built.hash(),
        fx.built.commitment(),
        &per_key,
        local_lookup(&fx),
    );
    assert!(matches!(
        result,
        Err(AuditVerifyError::LeafIndexOutOfRange { .. })
    ));
}

#[test]
fn tampered_path_rejected() {
    let (fx, _pk) = fixture(8);
    let keys = vec![key(1)];
    let mut per_key = build_valid_response(&fx, &keys);
    if let Some(p) = per_key[0].path.first_mut() {
        p[0] ^= 0x01;
    }
    let result = verify_commitment_bound_response(
        &keys,
        &fx.nonce,
        &fx.peer_id,
        &fx.built.hash(),
        fx.built.commitment(),
        &per_key,
        local_lookup(&fx),
    );
    assert!(matches!(result, Err(AuditVerifyError::PathInvalid { .. })));
}

#[test]
fn wrong_path_length_rejected_before_hashing() {
    let (fx, _pk) = fixture(8);
    let keys = vec![key(1)];
    let mut per_key = build_valid_response(&fx, &keys);
    per_key[0].path.push([0u8; 32]);
    let result = verify_commitment_bound_response(
        &keys,
        &fx.nonce,
        &fx.peer_id,
        &fx.built.hash(),
        fx.built.commitment(),
        &per_key,
        local_lookup(&fx),
    );
    assert!(matches!(
        result,
        Err(AuditVerifyError::WrongPathLength { .. })
    ));
}

#[test]
fn wrong_digest_rejected() {
    let (fx, _pk) = fixture(8);
    let keys = vec![key(1)];
    let mut per_key = build_valid_response(&fx, &keys);
    per_key[0].digest[0] ^= 0x01;
    let result = verify_commitment_bound_response(
        &keys,
        &fx.nonce,
        &fx.peer_id,
        &fx.built.hash(),
        fx.built.commitment(),
        &per_key,
        local_lookup(&fx),
    );
    assert!(matches!(
        result,
        Err(AuditVerifyError::DigestMismatch { .. })
    ));
}

#[test]
fn lazy_node_on_demand_fetch_attack_fails() {
    let (_pk1, sk1) = ml_dsa_65().generate_keypair().unwrap();
    let (pk_lazy, sk_lazy) = ml_dsa_65().generate_keypair().unwrap();
    let peer_id = *blake3::hash(&pk_lazy.to_bytes()).as_bytes();
    let nonce = [0xCD; 32];
    let _ = sk1;

    let original_entries: Vec<_> = (1..=8u8)
        .map(|i| {
            let k = key(i);
            let c = content(i);
            (k, bytes_hash(&c))
        })
        .collect();
    let pk_lazy_bytes = pk_lazy.to_bytes();
    let original_built =
        BuiltCommitment::build(original_entries, &peer_id, &sk_lazy.to_bytes(), &pk_lazy_bytes).unwrap();
    let pinned_hash = original_built.hash();

    let challenged_keys = vec![key(3)];

    let fresh_entries: Vec<_> = vec![(key(3), bytes_hash(&content(3)))];
    let fresh_built =
        BuiltCommitment::build(fresh_entries, &peer_id, &sk_lazy.to_bytes(), &pk_lazy_bytes).unwrap();

    let (path, leaf_index) = fresh_built.proof_for(&key(3)).unwrap();
    let per_key = vec![CommitmentBoundResult {
        key: key(3),
        digest: compute_audit_digest(&nonce, &peer_id, &key(3), &content(3)),
        bytes_hash: bytes_hash(&content(3)),
        leaf_index,
        path,
    }];

    let local = |k: &XorName| if k == &key(3) { Some(content(3)) } else { None };

    let result = verify_commitment_bound_response(
        &challenged_keys,
        &nonce,
        &peer_id,
        &pinned_hash,
        fresh_built.commitment(),
        &per_key,
        local,
    );
    assert!(
        matches!(result, Err(AuditVerifyError::CommitmentHashMismatch)),
        "lazy-node fresh-commitment substitution must fail at pin check, got {result:?}",
    );
}

#[test]
fn first_answer_that_fails_is_reported() {
    let (fx, _pk) = fixture(8);
    let keys = vec![key(1), key(2), key(3)];
    let mut per_key = build_valid_response(&fx, &keys);
    per_key[1].digest[0] ^= 0x01;
    per_key[2].bytes_hash[0] ^= 0x01;
    let result = verify_commitment_bound_response(
        &keys,
        &fx.nonce,
        &fx.peer_id,
        &fx.built.hash(),
        fx.built.commitment(),
        &per_key,
        local_lookup(&fx),
    );
    assert!(matches!(result, Err(AuditVerifyError::DigestMismatch { index: 1 })));
}

#[test]
fn audit_digest_changes_with_everything_it_is_made_of() {
    let bytes = content(3);
    let digest = compute_audit_digest(&[1; 32], &[2; 32], &key(3), &bytes);
    let other = [9; 32];
    assert_eq!(digest, compute_audit_digest(&[1; 32], &[2; 32], &key(3), &content(3)));
    assert_ne!(digest, compute_audit_digest(&other, &[2; 32], &key(3), &bytes));
    assert_ne!(digest, compute_audit_digest(&[1; 32], &other, &key(3), &bytes));
    assert_ne!(digest, compute_audit_digest(&[1; 32], &[2; 32], &other, &bytes));
    assert_ne!(digest, compute_audit_digest(&[1; 32], &[2; 32], &key(3), &bytes[1..]));
    let mut edited = bytes;
    edited[0] ^= 1;
    assert_ne!(digest, compute_audit_digest(&[1; 32], &[2; 32], &key(3), &edited));
}
