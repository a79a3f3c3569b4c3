//! Committed trees, their branches and the digests that pin them.

use ant_node::ant_protocol::XorName;
use ant_node::replication::commitment::{commitment_hash, leaf_hash, path_len, verify_path};
use ant_node::replication::commitment::{verify_commitment_signature, CommitmentError, MerkleTree};
use ant_node::replication::commitment::{StorageCommitment, DOMAIN_LEAF, DOMAIN_NODE};
use ant_node::replication::commitment_audit::{verify_commitment_bound_response, AuditVerifyError};
use ant_node::replication::commitment_state::BuiltCommitment;
use ant_node::replication::slice::verify_block_slice;
use ant_node::replication::subtree::{build_subtree_proof, select_spotcheck_indices};
use ant_node::replication::subtree::{select_subtree_path, subtree_plan, verify_subtree_proof};
use ant_node::replication::subtree::{StructureFault, StructureVerdict, SubtreeError};
use saorsa_pqc::api::sig::ml_dsa_65;

fn key(i: u32) -> XorName {
    let mut k = [0u8; 32];
    k[..4].copy_from_slice(&i.to_be_bytes());
    k
}

fn content(k: &XorName) -> Vec<u8> {
    k.iter().rev().copied().collect()
}

fn entries(n: u32) -> Vec<(XorName, [u8; 32])> {
    (0..n).map(|i| (key(i), *blake3::hash(&content(&key(i))).as_bytes())).collect()
}

fn built(n: u32) -> BuiltCommitment {
    let (pk, sk) = ml_dsa_65().generate_keypair().unwrap();
    let peer = *blake3::hash(&pk.to_bytes()).as_bytes();
    BuiltCommitment::build(entries(n), &peer, &sk.to_bytes(), &pk.to_bytes()).unwrap()
}

fn digest(parts: &[&[u8]]) -> [u8; 32] {
    let mut hasher = blake3::Hasher::new();
    for part in parts {
        hasher.update(part);
    }
    *hasher.finalize().as_bytes()
}

#[test]
fn root_of_two_keys_is_the_digest_of_both() {
    let e = entries(2);
    let tree = MerkleTree::build(vec![e[1], e[0]]).unwrap();
    let left = digest(&[DOMAIN_LEAF.as_bytes(), &e[0].0, &e[0].1]);
    let right = digest(&[DOMAIN_LEAF.as_bytes(), &e[1].0, &e[1].1]);
    assert_eq!(leaf_hash(&e[0].0, &e[0].1), left);
    assert_eq!(tree.root(), digest(&[DOMAIN_NODE.as_bytes(), &left, &right]));
    assert_eq!(tree.key_count(), 2);
    assert_eq!(tree.sorted_keys(), vec![e[0].0, e[1].0]);
    assert_eq!(tree.path_for(&e[0].0), Some(vec![right]));
    assert_eq!(tree.path_for(&[9; 32]), None);
}

#[test]
fn every_path_leads_to_the_root() {
    for n in [1u32, 2, 3, 5, 8, 13, 100] {
        let e = entries(n);
        let tree = MerkleTree::build(e.clone()).unwrap();
        for (i, (k, bh)) in e.iter().enumerate() {
            let path = tree.path_for(k).unwrap();
            assert_eq!(path.len(), path_len(n));
            let leaf = leaf_hash(k, bh);
            assert!(verify_path(&leaf, &path, i, n, &tree.root()));
            assert!(!verify_path(&[1; 32], &path, i, n, &tree.root()));
        }
    }
}

#[test]
fn trees_are_not_built_over_anything() {
    assert_eq!(MerkleTree::build(vec![]).err(), Some(CommitmentError::EmptyKeySet));
    let e = entries(1)[0];
    assert_eq!(
        MerkleTree::build(vec![e, e]).err(),
        Some(CommitmentError::DuplicateKey { key: e.0 })
    );
    let many = vec![e; 1_000_001];
    assert_eq!(
        MerkleTree::build(many).err(),
        Some(CommitmentError::TooManyKeys { count: 1_000_001 })
    );
}

#[test]
fn commitments_are_pinned_by_their_encoding() {
    let c = StorageCommitment {
        root: [1; 32],
        key_count: 300,
        sender_peer_id: [2; 32],
        sender_public_key: vec![3; 200],
        signature: vec![4; 5],
    };
    let mut wire = vec![1u8; 32];
    wire.extend_from_slice(&[0xAC, 0x02]);
    wire.extend_from_slice(&[2; 32]);
    wire.extend_from_slice(&[0xC8, 0x01]);
    wire.extend_from_slice(&[3; 200]);
    wire.push(5);
    wire.extend_from_slice(&[4; 5]);
    assert_eq!(commitment_hash(&c), Some(*blake3::hash(&wire).as_bytes()));
    assert!(!verify_commitment_signature(&c));
}

#[test]
fn signature_covers_every_field() {
    let b = built(3);
    let honest = b.commitment();
    assert!(verify_commitment_signature(honest));
    let mut c = honest.clone();
    c.root[0] ^= 1;
    assert!(!verify_commitment_signature(&c));
    let mut c = honest.clone();
    c.key_count += 1;
    assert!(!verify_commitment_signature(&c));
    let mut c = honest.clone();
    c.sender_peer_id[0] ^= 1;
    assert!(!verify_commitment_signature(&c));
    let mut c = honest.clone();
    c.sender_public_key[0] ^= 1;
    assert!(!verify_commitment_signature(&c));
    let mut c = honest.clone();
    c.signature.clear();
    assert!(!verify_commitment_signature(&c));
}

#[test]
fn branches_hold_about_the_root_of_the_keys() {
    for n in [1u32, 2, 4, 5, 9, 16, 17, 100, 1000, 4096, 1_000_000] {
        for b in [0u8, 0x55, 0xFF] {
            let path = select_subtree_path(&[b; 32], n).unwrap();
            let count = u64::from(path.real_leaf_count());
            assert!(count >= 1 && count <= u64::from(n));
            assert!(count * count >= u64::from(n) || count == u64::from(n));
            assert!(path.first_leaf + path.leaf_count <= n);
        }
    }
    assert!(select_subtree_path(&[0; 32], 0).is_none());
    assert!(select_subtree_path(&[0; 32], 1_000_001).is_none());
}

#[test]
fn small_trees_are_proved_whole() {
    for n in 1..=4u32 {
        let path = select_subtree_path(&[7; 32], n).unwrap();
        assert_eq!(path.real_leaf_count(), n);
        assert_eq!(path.cut_count, 0);
    }
}

#[test]
fn honest_branches_rebuild_to_the_root() {
    for n in [1u32, 3, 4, 5, 7, 33, 100, 257] {
        let b = built(n);
        for byte in [0u8, 0x0F, 0xA5, 0xFF] {
            let nonce = [byte; 32];
            let plan = subtree_plan(b.tree(), &nonce).unwrap();
            let branch =
                build_subtree_proof(b.tree(), &nonce, &[5; 32], |k| Some(content(k))).unwrap();
            let keys: Vec<XorName> = branch.leaves.iter().map(|l| l.key).collect();
            assert_eq!(keys, plan.leaf_keys);
            assert_eq!(branch.sibling_cut_hashes, plan.sibling_cut_hashes);
            assert_eq!(
                verify_subtree_proof(&branch, &nonce, b.commitment()),
                StructureVerdict::Valid
            );
        }
    }
}

#[test]
fn valid_path_is_that_of_the_committed_entry() {
    for n in [1u32, 2, 3, 5, 8, 13] {
        let e = entries(n);
        let tree = MerkleTree::build(e.clone()).unwrap();
        for (k, bh) in &e {
            let path = tree.path_for(k).unwrap();
            for i in 0..n as usize {
                let committed = e[i] == (*k, *bh);
                let leaf = leaf_hash(k, bh);
                assert_eq!(verify_path(&leaf, &path, i, n, &tree.root()), committed);
            }
            let foreign = leaf_hash(k, &[7; 32]);
            for i in 0..n as usize {
                assert!(!verify_path(&foreign, &path, i, n, &tree.root()));
            }
        }
    }
}

#[test]
fn valid_branch_holds_the_committed_leaves() {
    let b = built(100);
    let nonce = [3u8; 32];
    let honest = build_subtree_proof(b.tree(), &nonce, &[5; 32], |k| Some(content(k))).unwrap();
    assert_eq!(verify_subtree_proof(&honest, &nonce, b.commitment()), StructureVerdict::Valid);
    let all = entries(100);
    let first = all.iter().position(|(k, _)| *k == honest.leaves[0].key).unwrap();
    for (i, leaf) in honest.leaves.iter().enumerate() {
        assert_eq!((leaf.key, leaf.bytes_hash), all[first + i]);
        let mut branch = honest.clone();
        branch.leaves[i].bytes_hash[31] ^= 1;
        assert_eq!(
            verify_subtree_proof(&branch, &nonce, b.commitment()),
            StructureVerdict::Invalid(StructureFault::RootMismatch)
        );
        let mut branch = honest.clone();
        branch.leaves[i].key[31] ^= 1;
        assert_eq!(
            verify_subtree_proof(&branch, &nonce, b.commitment()),
            StructureVerdict::Invalid(StructureFault::RootMismatch)
        );
    }
}

#[test]
fn every_fault_of_a_branch_is_named() {
    let b = built(100);
    let nonce = [3u8; 32];
    let honest = build_subtree_proof(b.tree(), &nonce, &[5; 32], |k| Some(content(k))).unwrap();
    let fault = |branch: &_, c: &StorageCommitment| match verify_subtree_proof(branch, &nonce, c) {
        StructureVerdict::Invalid(fault) => fault,
        StructureVerdict::Valid => panic!("expected a fault"),
    };
    let mut c = b.commitment().clone();
    c.key_count = 0;
    assert_eq!(fault(&honest, &c), StructureFault::KeyCountOutOfRange);
    let mut branch = honest.clone();
    branch.leaves.pop();
    assert_eq!(fault(&branch, b.commitment()), StructureFault::WrongLeafCount);
    let mut branch = honest.clone();
    branch.sibling_cut_hashes.push([0; 32]);
    assert_eq!(fault(&branch, b.commitment()), StructureFault::WrongCutCount);
    let mut branch = honest.clone();
    branch.leaves.swap(0, 1);
    assert_eq!(fault(&branch, b.commitment()), StructureFault::KeysOutOfOrder);
    let mut branch = honest.clone();
    branch.sibling_cut_hashes[0][0] ^= 1;
    assert_eq!(fault(&branch, b.commitment()), StructureFault::RootMismatch);
    let lost = honest.leaves[2].key;
    assert_eq!(
        build_subtree_proof(b.tree(), &nonce, &[5; 32], |k| {
            if *k == lost {
                None
            } else {
                Some(content(k))
            }
        }),
        Err(SubtreeError::MissingBytes { key: lost })
    );
}

#[test]
fn samples_are_distinct_and_ascend() {
    let path = select_subtree_path(&[9; 32], 1000).unwrap();
    let sample = select_spotcheck_indices(&[9; 32], &path, 5);
    assert_eq!(sample.len(), 5);
    assert!(sample.windows(2).all(|w| w[0] < w[1]));
    assert!(sample.iter().all(|i| *i < path.leaf_count));
    let all = select_spotcheck_indices(&[9; 32], &path, u32::MAX);
    assert_eq!(all, (0..path.leaf_count).collect::<Vec<u32>>());
    assert_ne!(sample, select_spotcheck_indices(&[10; 32], &path, 5));
}

#[test]
fn commitment_without_keys_or_of_another_peer_is_refused() {
    let b = built(4);
    let peer = b.commitment().sender_peer_id;
    let verdict = |c: &StorageCommitment, peer: &[u8; 32]| {
        let pin = commitment_hash(c).unwrap();
        verify_commitment_bound_response(&[], &[0; 32], peer, &pin, c, &[], |_| None)
    };
    assert!(verdict(b.commitment(), &peer).is_ok());
    assert_eq!(
        verdict(b.commitment(), &[1; 32]),
        Err(AuditVerifyError::SenderPeerIdMismatch)
    );
    let mut c = b.commitment().clone();
    c.key_count = 0;
    assert_eq!(
        verdict(&c, &peer),
        Err(AuditVerifyError::KeyCountOverProtocolMax { key_count: 0 })
    );
}

#[test]
fn slices_that_are_no_slices_are_refused() {
    assert_eq!(verify_block_slice(&[], &[0; 32], 4096, 0), None);
    assert_eq!(verify_block_slice(&[1, 2, 3], &[0; 32], 4096, 0), None);
    let mut deep = vec![0xFFu8; 8];
    deep.extend_from_slice(&[0; 8192]);
    assert_eq!(verify_block_slice(&deep, &[0; 32], 4096, 0), None);
    assert_eq!(verify_block_slice(&deep, &[0; 32], 4096, 3), None);
}
