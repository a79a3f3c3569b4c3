//! Blocks of chunks, opened by Bao slices and by nonced trees.

use ant_node::ant_protocol::XorName;
use ant_node::replication::slice::{block_bytes, block_count, block_range, extract_block_slice};
use ant_node::replication::slice::{nonced_block_root, nonced_block_siblings};
use ant_node::replication::slice::{verify_block_slice, verify_nonced_block};

const NONCE: [u8; 32] = [0x11; 32];
const PEER: [u8; 32] = [0x22; 32];
const KEY: XorName = [0x33; 32];

fn content_of(len: usize) -> Vec<u8> {
    (0..len).map(|i| (i * 31 + 7) as u8).collect()
}

#[test]
fn block_count_is_ceil_with_empty_floor() {
    assert_eq!(block_count(0), 1);
    assert_eq!(block_count(1), 1);
    assert_eq!(block_count(1024), 1);
    assert_eq!(block_count(1025), 2);
    assert_eq!(block_count(4096), 4);
    assert_eq!(block_count(4 * 1024 * 1024), 4096);
    assert_eq!(block_count(4 * 1024 * 1024 - 1), 4096);
}

#[test]
fn block_range_covers_content_without_gaps_or_overlap() {
    let len = 1024 * 3 + 500;
    let count = block_count(len);
    let mut expected_start = 0u64;
    for i in 0..count {
        let (s, e) = block_range(len, i);
        assert_eq!(s, expected_start);
        assert!(e <= len);
        assert!(e > s || len == 0);
        expected_start = e;
    }
    assert_eq!(expected_start, len);
}

#[test]
fn bao_root_equals_blake3_address_across_lengths() {
    for len in [0usize, 1, 1023, 1024, 1025, 2048, 4096, 10_000, 1 << 20] {
        let content = content_of(len);
        let (_outboard, bao_hash) = bao::encode::outboard(&content);
        let blake = blake3::hash(&content);
        assert_eq!(
            bao_hash.as_bytes(),
            blake.as_bytes(),
            "bao root must equal blake3(content) at len {len}"
        );
    }
}

#[test]
fn slice_roundtrip_verifies_every_block() {
    for len in [1usize, 1024, 1025, 4096, 5000, 1 << 16] {
        let content = content_of(len);
        let address = *blake3::hash(&content).as_bytes();
        let count = block_count(len as u64);
        for i in 0..count {
            let slice = extract_block_slice(&content, i).expect("extract");
            let verified =
                verify_block_slice(&slice, &address, len as u64, i).expect("verify slice");
            let (s, e) = block_range(len as u64, i);
            assert_eq!(verified.as_slice(), &content[s as usize..e as usize]);
        }
    }
}

#[test]
fn slice_against_wrong_address_fails() {
    let content = content_of(4096);
    let mut wrong = *blake3::hash(&content).as_bytes();
    wrong[0] ^= 0x01;
    let slice = extract_block_slice(&content, 2).expect("extract");
    assert!(verify_block_slice(&slice, &wrong, 4096, 2).is_none());
}

#[test]
fn tampered_slice_bytes_fail_verification() {
    let content = content_of(4096);
    let address = *blake3::hash(&content).as_bytes();
    let mut slice = extract_block_slice(&content, 1).expect("extract");
    if let Some(b) = slice.last_mut() {
        *b ^= 0xFF;
    }
    assert!(verify_block_slice(&slice, &address, 4096, 1).is_none());
}

#[test]
fn slice_for_one_block_cannot_serve_a_different_block() {
    let content = content_of(4096);
    let address = *blake3::hash(&content).as_bytes();
    let slice = extract_block_slice(&content, 0).expect("extract");
    assert!(verify_block_slice(&slice, &address, 4096, 2).is_none());
}

#[test]
fn nonced_openings_roundtrip_every_block() {
    for len in [1usize, 1024, 1025, 3000, 4096, 9001] {
        let content = content_of(len);
        let root = nonced_block_root(&NONCE, &PEER, &KEY, &content);
        let count = block_count(len as u64);
        for i in 0..count {
            let siblings =
                nonced_block_siblings(&NONCE, &PEER, &KEY, &content, i).expect("siblings");
            let block = block_bytes(&content, i);
            assert!(
                verify_nonced_block(&NONCE, &PEER, &KEY, i, block, &siblings, &root),
                "len {len} block {i} must verify"
            );
        }
    }
}

#[test]
fn nonced_opening_rejects_wrong_block_bytes() {
    let content = content_of(4096);
    let root = nonced_block_root(&NONCE, &PEER, &KEY, &content);
    let siblings = nonced_block_siblings(&NONCE, &PEER, &KEY, &content, 1).expect("siblings");
    let mut wrong = block_bytes(&content, 1).to_vec();
    wrong[0] ^= 0x01;
    assert!(!verify_nonced_block(
        &NONCE, &PEER, &KEY, 1, &wrong, &siblings, &root
    ));
}

#[test]
fn nonced_opening_binds_nonce_peer_and_key() {
    let content = content_of(4096);
    let root = nonced_block_root(&NONCE, &PEER, &KEY, &content);
    let siblings = nonced_block_siblings(&NONCE, &PEER, &KEY, &content, 2).expect("siblings");
    let block = block_bytes(&content, 2);
    assert!(verify_nonced_block(
        &NONCE, &PEER, &KEY, 2, block, &siblings, &root
    ));
    let other = [0xAB; 32];
    assert!(!verify_nonced_block(
        &other, &PEER, &KEY, 2, block, &siblings, &root
    ));
    assert!(!verify_nonced_block(
        &NONCE, &other, &KEY, 2, block, &siblings, &root
    ));
    assert!(!verify_nonced_block(
        &NONCE, &PEER, &other, 2, block, &siblings, &root
    ));
}

#[test]
fn nonced_root_changes_with_any_block_edit() {
    let content = content_of(5000);
    let root = nonced_block_root(&NONCE, &PEER, &KEY, &content);
    let mut edited = content;
    if let Some(b) = edited.last_mut() {
        *b ^= 0x01;
    }
    let root2 = nonced_block_root(&NONCE, &PEER, &KEY, &edited);
    assert_ne!(root, root2);
}

#[test]
fn nonced_siblings_out_of_range_is_none() {
    let content = content_of(2048);
    let count = block_count(content.len() as u64);
    assert!(nonced_block_siblings(&NONCE, &PEER, &KEY, &content, count).is_none());
}

#[test]
fn relay_cannot_open_against_a_foreign_committed_root() {
    let real = content_of(4096);
    let garbage = content_of(4097);
    let foreign_root = nonced_block_root(&NONCE, &PEER, &KEY, &garbage);
    let siblings = nonced_block_siblings(&NONCE, &PEER, &KEY, &real, 0).expect("siblings");
    let block = block_bytes(&real, 0);
    assert!(!verify_nonced_block(
        &NONCE,
        &PEER,
        &KEY,
        0,
        block,
        &siblings,
        &foreign_root
    ));
}

#[test]
fn opening_shows_the_block_at_its_own_index_only() {
    for len in [1usize, 1024, 3 * 1024, 4 * 1024, 5 * 1024 + 1] {
        let content = content_of(len);
        let root = nonced_block_root(&NONCE, &PEER, &KEY, &content);
        let count = block_count(len as u64);
        for i in 0..count {
            let siblings =
                nonced_block_siblings(&NONCE, &PEER, &KEY, &content, i).expect("siblings");
            let opens = |index: u32, block: &[u8], path: &[[u8; 32]]| {
                verify_nonced_block(&NONCE, &PEER, &KEY, index, block, path, &root)
            };
            let block = block_bytes(&content, i);
            assert!(opens(i, block, &siblings));
            for other in (0..16u32).filter(|other| *other != i) {
                assert!(!opens(other, block, &siblings), "block {i} at {other}");
            }
            assert!(!opens(i, &block[..block.len() - 1], &siblings));
            let mut longer = siblings.clone();
            longer.push(root);
            assert!(!opens(i, block, &longer));
            if let Some((_, shorter)) = siblings.split_last() {
                assert!(!opens(i, block, shorter));
            }
        }
    }
}

#[test]
fn nonced_root_changes_with_everything_it_is_made_of() {
    let content = content_of(3 * 1024);
    let root = nonced_block_root(&NONCE, &PEER, &KEY, &content);
    let other = [0xAB; 32];
    assert_eq!(root, nonced_block_root(&NONCE, &PEER, &KEY, &content_of(3 * 1024)));
    assert_ne!(root, nonced_block_root(&other, &PEER, &KEY, &content));
    assert_ne!(root, nonced_block_root(&NONCE, &other, &KEY, &content));
    assert_ne!(root, nonced_block_root(&NONCE, &PEER, &other, &content));
    for i in [0usize, 1023, 1024, 2048, 3071] {
        let mut edited = content.clone();
        edited[i] ^= 0x80;
        assert_ne!(root, nonced_block_root(&NONCE, &PEER, &KEY, &edited));
    }
    let mut doubled = content.clone();
    doubled.extend_from_slice(block_bytes(&content, 2));
    assert_ne!(root, nonced_block_root(&NONCE, &PEER, &KEY, &doubled));
    for len in [0usize, 1, 1024, 2048, 3071, 3073, 6 * 1024] {
        assert_ne!(root, nonced_block_root(&NONCE, &PEER, &KEY, &content_of(len)));
    }
}
