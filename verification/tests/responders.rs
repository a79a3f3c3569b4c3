//! How a node answers challenges, from what it stores and what it has committed to.

use ant_node::adversary::AdversaryMode;
use ant_node::ant_protocol::XorName;
use ant_node::client::compute_address;
use ant_node::replication::audit::{conclude_subtree_audit, dispatch_subtree_response};
use ant_node::replication::audit::{prepare_subtree_audit, request_byte_proof, run_subtree_audit};
use ant_node::replication::audit::{AuditReply, AuditStep, AuditTickResult, BytesWanted};
use ant_node::replication::audit::ByteRound;
use ant_node::replication::commitment::commitment_hash;
use ant_node::replication::commitment_state::{BuiltCommitment, ResponderCommitmentState};
use ant_node::replication::config::{ReplicationConfig, MAX_SLICE_OPENINGS};
use ant_node::replication::protocol::{ReplicationMessageBody, SubtreeAuditChallenge};
use ant_node::replication::protocol::{SubtreeAuditResponse, SubtreeByteItem, SubtreeByteResponse};
use ant_node::replication::protocol::{SubtreeSliceChallenge, SubtreeSliceItem};
use ant_node::replication::protocol::{SubtreeSliceOpening, SubtreeSliceResponse};
use ant_node::replication::recent_provers::RecentProvers;
use ant_node::replication::responder::{handle_subtree_byte_challenge, handle_subtree_challenge};
use ant_node::replication::responder::{handle_subtree_slice_challenge, open_challenge};
use ant_node::replication::responder::{answer_subtree_challenge, ChallengeGate};
use ant_node::replication::slice::{block_count, nonced_block_root};
use ant_node::replication::slice::{verify_block_slice, verify_nonced_block};
use ant_node::replication::subtree::{verify_subtree_proof, StructureVerdict};
use ant_node::replication::types::{AuditFailureReason, FailureEvidence};
use ant_node::time::Instant;
use saorsa_pqc::api::sig::ml_dsa_65;
use std::collections::HashMap;

type Storage = HashMap<XorName, Vec<u8>>;

fn chunk_content(i: u8) -> Vec<u8> {
    (0..1024u32).map(|n| (n as u8) ^ i).collect()
}

struct Responder {
    peer_id: [u8; 32],
    state: ResponderCommitmentState,
}

impl Responder {
    fn new(storage: &mut Storage, indices: &[u8]) -> Self {
        let contents: Vec<Vec<u8>> = indices.iter().map(|i| chunk_content(*i)).collect();
        Self::with_contents(storage, &contents)
    }

    fn with_contents(storage: &mut Storage, contents: &[Vec<u8>]) -> Self {
        let (pk, sk) = ml_dsa_65().generate_keypair().unwrap();
        let peer_id = *blake3::hash(&pk.to_bytes()).as_bytes();
        let mut entries = Vec::new();
        for content in contents {
            let addr = compute_address(content);
            storage.insert(addr, content.clone());
            entries.push((addr, *blake3::hash(content).as_bytes()));
        }
        let built =
            BuiltCommitment::build(entries, &peer_id, &sk.to_bytes(), &pk.to_bytes()).expect("build");
        let mut state = ResponderCommitmentState::new();
        state.rotate(built);
        Self { peer_id, state }
    }

    fn current_hash(&self) -> [u8; 32] {
        self.state.current().unwrap().hash()
    }

    fn address(i: u8) -> [u8; 32] {
        compute_address(&chunk_content(i))
    }

    fn answer(
        &self,
        storage: &Storage,
        challenge: &SubtreeAuditChallenge,
        bootstrapping: bool,
        mode: Option<AdversaryMode>,
    ) -> SubtreeAuditResponse {
        handle_subtree_challenge(
            challenge,
            |key| storage.get(key).cloned(),
            &self.peer_id,
            bootstrapping,
            Some(&self.state),
            mode,
        )
    }
}

fn challenge_for(responder: &Responder, pin: [u8; 32], nonce: [u8; 32]) -> SubtreeAuditChallenge {
    SubtreeAuditChallenge {
        challenge_id: 42,
        nonce,
        challenged_peer_id: responder.peer_id,
        expected_commitment_hash: pin,
    }
}

fn rejection(response: SubtreeAuditResponse) -> String {
    match response {
        SubtreeAuditResponse::Rejected { challenge_id, reason } => {
            assert_eq!(challenge_id, 42);
            reason
        }
        other => panic!("expected Rejected, got {other:?}"),
    }
}

#[test]
fn honest_responder_answers_with_valid_proof() {
    let mut storage = Storage::new();
    let indices: Vec<u8> = (1..=64u8).collect();
    let r = Responder::new(&mut storage, &indices);
    let pin = r.current_hash();
    let nonce = [0x11u8; 32];
    let challenge = challenge_for(&r, pin, nonce);

    match r.answer(&storage, &challenge, false, None) {
        SubtreeAuditResponse::Proof { challenge_id, commitment, proof_of_branch } => {
            assert_eq!(challenge_id, 42);
            assert_eq!(commitment_hash(&commitment), Some(pin));
            assert_eq!(
                verify_subtree_proof(&proof_of_branch, &nonce, &commitment),
                StructureVerdict::Valid,
                "honest responder's proof must verify"
            );
        }
        other => panic!("expected Proof, got {other:?}"),
    }
}

#[test]
fn bootstrapping_responder_reports_bootstrapping() {
    let mut storage = Storage::new();
    let r = Responder::new(&mut storage, &[1, 2, 3, 4]);
    let challenge = challenge_for(&r, r.current_hash(), [0x11u8; 32]);
    let resp = r.answer(&storage, &challenge, true, None);
    assert!(
        matches!(resp, SubtreeAuditResponse::Bootstrapping { challenge_id: 42 }),
        "expected Bootstrapping, got {resp:?}"
    );
}

#[test]
fn wrong_target_peer_is_rejected() {
    let mut storage = Storage::new();
    let r = Responder::new(&mut storage, &[1, 2, 3, 4]);
    let mut challenge = challenge_for(&r, r.current_hash(), [0x11u8; 32]);
    challenge.challenged_peer_id = [0x99u8; 32];
    let reason = rejection(r.answer(&storage, &challenge, false, None));
    assert!(reason.contains("does not match this node"), "got: {reason}");
}

#[test]
fn unknown_pinned_hash_is_rejected() {
    let mut storage = Storage::new();
    let r = Responder::new(&mut storage, &[1, 2, 3, 4]);
    let challenge = challenge_for(&r, [0x99u8; 32], [0x11u8; 32]);
    let reason = rejection(r.answer(&storage, &challenge, false, None));
    assert!(reason.contains("unknown commitment hash"), "got: {reason}");
}

#[test]
fn missing_commitment_state_is_rejected() {
    let mut storage = Storage::new();
    let r = Responder::new(&mut storage, &[1, 2, 3, 4]);
    let challenge = challenge_for(&r, r.current_hash(), [0x11u8; 32]);
    let resp = handle_subtree_challenge(
        &challenge,
        |key| storage.get(key).cloned(),
        &r.peer_id,
        false,
        None,
        None,
    );
    assert_eq!(rejection(resp), "no commitment state");
}

#[test]
fn committed_key_with_missing_bytes_is_rejected() {
    let mut storage = Storage::new();
    let indices: Vec<u8> = (1..=32u8).collect();
    let r = Responder::new(&mut storage, &indices);
    for i in &indices {
        storage.remove(&Responder::address(*i));
    }
    let challenge = challenge_for(&r, r.current_hash(), [0x11u8; 32]);
    let reason = rejection(r.answer(&storage, &challenge, false, None));
    assert!(reason.contains("missing bytes for committed key"), "got: {reason}");
    let named = reason.rsplit(' ').next().unwrap().to_string();
    assert!(indices.iter().any(|i| hex::encode(Responder::address(*i)) == named));
}

#[test]
fn first_key_without_bytes_is_named() {
    let mut storage = Storage::new();
    let r = Responder::new(&mut storage, &[1, 2, 3, 4]);
    let mut sorted: Vec<XorName> = (1..=4u8).map(Responder::address).collect();
    sorted.sort_unstable();
    storage.remove(&sorted[1]);
    storage.remove(&sorted[3]);
    let challenge = challenge_for(&r, r.current_hash(), [0x11u8; 32]);
    let reason = rejection(r.answer(&storage, &challenge, false, None));
    let expected = format!("missing bytes for committed key: {}", hex::encode(sorted[1]));
    assert_eq!(reason, expected);
}

#[test]
fn answer_is_for_the_commitment_that_the_gate_opened_for() {
    let mut storage = Storage::new();
    let r = Responder::new(&mut storage, &[1, 2, 3, 4]);
    let pin = r.current_hash();
    let challenge = challenge_for(&r, pin, [0x11u8; 32]);
    let gate = open_challenge(&r.peer_id, &pin, &r.peer_id, false, Some(&r.state), None);
    drop(r.state);
    match answer_subtree_challenge(gate, &challenge, |key| storage.get(key).cloned(), None) {
        SubtreeAuditResponse::Proof { commitment, .. } => {
            assert_eq!(commitment_hash(&commitment), Some(pin));
        }
        other => panic!("expected Proof, got {other:?}"),
    }
}

#[test]
fn slice_challenge_opens_valid_blocks_for_committed_keys() {
    let mut storage = Storage::new();
    let r = Responder::new(&mut storage, &[1, 2, 3, 4]);
    let nonce = [0x22u8; 32];
    let openings = vec![
        SubtreeSliceOpening { key: Responder::address(1), block_index: 0 },
        SubtreeSliceOpening { key: Responder::address(2), block_index: 0 },
    ];
    let challenge = SubtreeSliceChallenge {
        challenge_id: 43,
        nonce,
        challenged_peer_id: r.peer_id,
        expected_commitment_hash: r.current_hash(),
        openings: openings.clone(),
    };
    let resp = handle_subtree_slice_challenge(
        &challenge,
        |key| storage.get(key).cloned(),
        &r.peer_id,
        false,
        Some(&r.state),
        None,
    );
    match resp {
        SubtreeSliceResponse::Items { challenge_id, items } => {
            assert_eq!(challenge_id, 43);
            assert_eq!(items.len(), openings.len(), "one item per requested opening");
            for (item, (i, opening)) in items.iter().zip([1u8, 2].into_iter().zip(openings)) {
                match item {
                    SubtreeSliceItem::Present { key: k, block_index, bao_slice, nonced_siblings } => {
                        assert_eq!(*k, opening.key);
                        assert_eq!(*block_index, 0);
                        let content = chunk_content(i);
                        let bytes_hash = *blake3::hash(&content).as_bytes();
                        let block =
                            verify_block_slice(bao_slice, &bytes_hash, content.len() as u64, 0)
                                .expect("bao slice must verify against the chunk address");
                        assert_eq!(block, content, "opened block must be the ORIGINAL bytes");
                        let root = nonced_block_root(&nonce, &r.peer_id, &opening.key, &content);
                        assert!(
                            verify_nonced_block(
                                &nonce,
                                &r.peer_id,
                                &opening.key,
                                0,
                                &block,
                                nonced_siblings,
                                &root,
                            ),
                            "nonced opening must fold to the honest nonced root"
                        );
                    }
                    other => panic!("expected Present for stored committed key, got {other:?}"),
                }
            }
        }
        other => panic!("expected Items, got {other:?}"),
    }
}

#[test]
fn slice_challenge_opens_a_deep_block_of_a_large_chunk() {
    let mut storage = Storage::new();
    let content: Vec<u8> =
        (0..100_000u32).map(|n| (n.wrapping_mul(2_654_435_761) >> 13) as u8).collect();
    let addr = compute_address(&content);
    let bytes_hash = *blake3::hash(&content).as_bytes();
    let r = Responder::with_contents(&mut storage, &[content.clone()]);
    let count = block_count(content.len() as u64);
    assert!(count > 64, "test needs a genuinely multi-block chunk, got {count} blocks");
    let block_index = 50u32;
    let nonce = [0x5Au8; 32];
    let challenge = SubtreeSliceChallenge {
        challenge_id: 77,
        nonce,
        challenged_peer_id: r.peer_id,
        expected_commitment_hash: r.current_hash(),
        openings: vec![SubtreeSliceOpening { key: addr, block_index }],
    };
    let resp = handle_subtree_slice_challenge(
        &challenge,
        |key| storage.get(key).cloned(),
        &r.peer_id,
        false,
        Some(&r.state),
        None,
    );
    let SubtreeSliceResponse::Items { items, .. } = resp else {
        panic!("expected Items, got {resp:?}");
    };
    let Some(SubtreeSliceItem::Present { block_index: bi, bao_slice, nonced_siblings, .. }) =
        items.first()
    else {
        panic!("expected a single Present opening, got {items:?}");
    };
    assert_eq!(*bi, block_index);
    let block = verify_block_slice(bao_slice, &bytes_hash, content.len() as u64, block_index)
        .expect("deep-block bao slice must verify");
    let start = block_index as usize * 1024;
    assert_eq!(block, content[start..start + 1024], "opened block must be block 50's bytes");
    let root = nonced_block_root(&nonce, &r.peer_id, &addr, &content);
    assert!(
        verify_nonced_block(&nonce, &r.peer_id, &addr, block_index, &block, nonced_siblings, &root),
        "deep-block nonced opening must fold to the honest root"
    );
    assert!(
        bao_slice.len() < content.len() / 4,
        "the slice ({} bytes) must be far smaller than the chunk ({} bytes)",
        bao_slice.len(),
        content.len()
    );
}

#[test]
fn oversize_slice_challenge_is_rejected() {
    let mut storage = Storage::new();
    let r = Responder::new(&mut storage, &[1, 2, 3, 4]);
    let openings: Vec<SubtreeSliceOpening> = (0..=MAX_SLICE_OPENINGS)
        .map(|i| SubtreeSliceOpening {
            key: [u8::try_from(i % 251).unwrap_or(0); 32],
            block_index: 0,
        })
        .collect();
    assert!(openings.len() > MAX_SLICE_OPENINGS);
    let challenge = SubtreeSliceChallenge {
        challenge_id: 44,
        nonce: [0x33u8; 32],
        challenged_peer_id: r.peer_id,
        expected_commitment_hash: r.current_hash(),
        openings,
    };
    let resp = handle_subtree_slice_challenge(
        &challenge,
        |key| storage.get(key).cloned(),
        &r.peer_id,
        false,
        Some(&r.state),
        None,
    );
    match resp {
        SubtreeSliceResponse::Rejected { reason, .. } => {
            assert!(reason.contains("max"), "got: {reason}");
        }
        other => panic!("expected Rejected(oversize), got {other:?}"),
    }
}

#[test]
fn opening_of_a_missing_block_or_key_is_absent() {
    let mut storage = Storage::new();
    let r = Responder::new(&mut storage, &[1]);
    storage.insert([7; 32], vec![1, 2, 3]);
    let challenge = SubtreeSliceChallenge {
        challenge_id: 45,
        nonce: [0x33u8; 32],
        challenged_peer_id: r.peer_id,
        expected_commitment_hash: r.current_hash(),
        openings: vec![
            SubtreeSliceOpening { key: Responder::address(1), block_index: 1 },
            SubtreeSliceOpening { key: [7; 32], block_index: 0 },
        ],
    };
    let resp = handle_subtree_slice_challenge(
        &challenge,
        |key| storage.get(key).cloned(),
        &r.peer_id,
        false,
        Some(&r.state),
        None,
    );
    assert_eq!(
        resp,
        SubtreeSliceResponse::Items {
            challenge_id: 45,
            items: vec![
                SubtreeSliceItem::Absent { key: Responder::address(1), block_index: 1 },
                SubtreeSliceItem::Absent { key: [7; 32], block_index: 0 },
            ],
        }
    );
}

/// Carry a first round through, and return the demand for bytes.
fn first_round(r: &Responder, storage: &Storage, nonce: [u8; 32], keys: u32) -> (AuditReplyCtx, BytesWanted) {
    let config = ReplicationConfig::default();
    let start = prepare_subtree_audit(&config, &r.peer_id, r.current_hash(), keys, nonce, 42);
    let response = r.answer(storage, &start.challenge, false, None);
    let reply = AuditReply::Answer(ReplicationMessageBody::SubtreeAuditResponse(response));
    match dispatch_subtree_response(reply, &start.ctx, &config) {
        AuditStep::AskBytes(wanted) => (start.ctx, wanted),
        other => panic!("expected a demand for bytes, got {other:?}"),
    }
}

type AuditReplyCtx = ant_node::replication::audit::AuditCtx;

fn second_round(
    r: &Responder,
    storage: &Storage,
    ctx: &AuditReplyCtx,
    wanted: &BytesWanted,
    mode: Option<AdversaryMode>,
) -> ByteRound {
    let response = handle_subtree_byte_challenge(
        &wanted.challenge,
        |key| storage.get(key).cloned(),
        &r.peer_id,
        false,
        Some(&r.state),
        mode,
    );
    request_byte_proof(
        ctx,
        AuditReply::Answer(ReplicationMessageBody::SubtreeByteResponse(response)),
    )
}

fn failure_reason(result: &AuditTickResult) -> AuditFailureReason {
    match result {
        AuditTickResult::Failed {
            evidence: FailureEvidence::AuditFailure { reason, .. },
        } => *reason,
        other => panic!("expected a failure, got {other:?}"),
    }
}

#[test]
fn honest_node_passes_both_rounds_and_is_credited() {
    let mut storage = Storage::new();
    let indices: Vec<u8> = (1..=64u8).collect();
    let r = Responder::new(&mut storage, &indices);
    let (ctx, wanted) = first_round(&r, &storage, [0x77; 32], 64);
    assert_eq!(wanted.challenge.keys.len(), 5);
    assert_eq!(wanted.sampled.len(), 5);
    let round = second_round(&r, &storage, &ctx, &wanted, None);
    let mut provers = RecentProvers::new();
    let now = Instant { nanos: 5 };
    match conclude_subtree_audit(&ctx, &wanted, round, &mut provers, now) {
        AuditTickResult::Passed { challenged_peer, keys_checked } => {
            assert_eq!(challenged_peer, r.peer_id);
            assert_eq!(keys_checked, 5);
        }
        other => panic!("expected a pass, got {other:?}"),
    }
    for leaf in &wanted.proof_of_branch.leaves {
        assert!(provers.is_credited_holder(&leaf.key, &r.peer_id, &r.current_hash(), now));
        assert!(!provers.is_credited_holder(&leaf.key, &[1; 32], &r.current_hash(), now));
    }
}

#[test]
fn node_that_lost_bytes_between_the_rounds_fails() {
    let mut storage = Storage::new();
    let indices: Vec<u8> = (1..=64u8).collect();
    let r = Responder::new(&mut storage, &indices);
    let (ctx, wanted) = first_round(&r, &storage, [0x77; 32], 64);
    storage.remove(&wanted.sampled[2].key);
    let round = second_round(&r, &storage, &ctx, &wanted, None);
    let mut provers = RecentProvers::new();
    let result = conclude_subtree_audit(&ctx, &wanted, round, &mut provers, Instant { nanos: 5 });
    assert_eq!(failure_reason(&result), AuditFailureReason::DigestMismatch);
    let key = wanted.sampled[0].key;
    assert!(!provers.is_credited_holder(&key, &r.peer_id, &r.current_hash(), Instant { nanos: 5 }));
}

#[test]
fn made_up_bytes_fail_in_either_round() {
    let mut storage = Storage::new();
    let indices: Vec<u8> = (1..=64u8).collect();
    let r = Responder::new(&mut storage, &indices);
    let config = ReplicationConfig::default();
    let start = prepare_subtree_audit(&config, &r.peer_id, r.current_hash(), 64, [0x77; 32], 42);
    let fake = Some(AdversaryMode::FakeStorage);
    let response = r.answer(&storage, &start.challenge, false, fake);
    let reply = AuditReply::Answer(ReplicationMessageBody::SubtreeAuditResponse(response));
    match dispatch_subtree_response(reply, &start.ctx, &config) {
        AuditStep::Done(result) => {
            assert_eq!(failure_reason(&result), AuditFailureReason::DigestMismatch);
        }
        other => panic!("expected a failure, got {other:?}"),
    }
    let (ctx, wanted) = first_round(&r, &storage, [0x77; 32], 64);
    let round = second_round(&r, &storage, &ctx, &wanted, fake);
    match &round {
        ByteRound::Served(items) => match &items[0] {
            SubtreeByteItem::Present { key, bytes } => {
                let mut garbage = blake3::hash(key).as_bytes().to_vec();
                garbage.extend_from_slice(b"adversary-fake-storage");
                assert_eq!(*bytes, garbage);
            }
            other => panic!("expected bytes, got {other:?}"),
        },
        other => panic!("expected items, got {other:?}"),
    }
    let mut provers = RecentProvers::new();
    let result = conclude_subtree_audit(&ctx, &wanted, round, &mut provers, Instant { nanos: 5 });
    assert_eq!(failure_reason(&result), AuditFailureReason::DigestMismatch);
}

#[test]
fn bytes_of_a_key_that_was_not_committed_to_are_not_served() {
    let mut storage = Storage::new();
    let r = Responder::new(&mut storage, &[1, 2, 3, 4, 5, 6, 7, 8]);
    let (_, mut wanted) = first_round(&r, &storage, [0x77; 32], 8);
    storage.insert([9; 32], vec![1]);
    wanted.challenge.keys = vec![[9; 32], Responder::address(3)];
    let response = handle_subtree_byte_challenge(
        &wanted.challenge,
        |key| storage.get(key).cloned(),
        &r.peer_id,
        false,
        Some(&r.state),
        None,
    );
    assert_eq!(
        response,
        SubtreeByteResponse::Items {
            challenge_id: 42,
            items: vec![
                SubtreeByteItem::Absent { key: [9; 32] },
                SubtreeByteItem::Present { key: Responder::address(3), bytes: chunk_content(3) },
            ],
        }
    );
}

#[test]
fn byte_round_reads_each_reply() {
    let mut storage = Storage::new();
    let r = Responder::new(&mut storage, &[1, 2, 3, 4]);
    let (ctx, wanted) = first_round(&r, &storage, [0x77; 32], 4);
    assert!(matches!(request_byte_proof(&ctx, AuditReply::NoAnswer), ByteRound::Timeout));
    assert!(matches!(request_byte_proof(&ctx, AuditReply::Undecodable), ByteRound::Malformed));
    assert!(matches!(request_byte_proof(&ctx, AuditReply::Unencodable), ByteRound::Malformed));
    let answers = [
        (SubtreeByteResponse::Bootstrapping { challenge_id: 42 }, AuditFailureReason::Timeout),
        (
            SubtreeByteResponse::Bootstrapping { challenge_id: 41 },
            AuditFailureReason::MalformedResponse,
        ),
        (
            SubtreeByteResponse::Rejected { challenge_id: 42, reason: String::new() },
            AuditFailureReason::Rejected,
        ),
        (
            SubtreeByteResponse::Items { challenge_id: 41, items: Vec::new() },
            AuditFailureReason::MalformedResponse,
        ),
        (
            SubtreeByteResponse::Items { challenge_id: 42, items: Vec::new() },
            AuditFailureReason::DigestMismatch,
        ),
    ];
    for (answer, reason) in answers {
        let reply = AuditReply::Answer(ReplicationMessageBody::SubtreeByteResponse(answer));
        let round = request_byte_proof(&ctx, reply);
        let mut provers = RecentProvers::new();
        let result = conclude_subtree_audit(&ctx, &wanted, round, &mut provers, Instant { nanos: 5 });
        assert_eq!(failure_reason(&result), reason);
    }
}

#[test]
fn first_round_reads_each_reply() {
    let config = ReplicationConfig::default();
    let start = run_subtree_audit(&config, &[3; 32], [4; 32], 100);
    assert_eq!(start.challenge.challenged_peer_id, [3; 32]);
    assert_eq!(start.challenge.expected_commitment_hash, [4; 32]);
    assert_eq!(start.challenge.nonce, start.ctx.nonce);
    assert!(start.subtree_leaves >= 10);
    assert_eq!(start.timeout, config.audit_response_timeout(start.subtree_leaves));
    let id = start.ctx.challenge_id;
    match dispatch_subtree_response(AuditReply::Unencodable, &start.ctx, &config) {
        AuditStep::Done(AuditTickResult::Idle) => {}
        other => panic!("expected no audit, got {other:?}"),
    }
    let cases = [
        (AuditReply::NoAnswer, AuditFailureReason::Timeout),
        (AuditReply::Undecodable, AuditFailureReason::MalformedResponse),
        (
            AuditReply::Answer(ReplicationMessageBody::SubtreeAuditResponse(
                SubtreeAuditResponse::Rejected { challenge_id: id, reason: String::new() },
            )),
            AuditFailureReason::Rejected,
        ),
        (
            AuditReply::Answer(ReplicationMessageBody::SubtreeAuditResponse(
                SubtreeAuditResponse::Bootstrapping { challenge_id: id.wrapping_add(1) },
            )),
            AuditFailureReason::MalformedResponse,
        ),
    ];
    for (reply, reason) in cases {
        match dispatch_subtree_response(reply, &start.ctx, &config) {
            AuditStep::Done(result) => assert_eq!(failure_reason(&result), reason),
            other => panic!("expected a failure, got {other:?}"),
        }
    }
    let claim = AuditReply::Answer(ReplicationMessageBody::SubtreeAuditResponse(
        SubtreeAuditResponse::Bootstrapping { challenge_id: id },
    ));
    match dispatch_subtree_response(claim, &start.ctx, &config) {
        AuditStep::Done(AuditTickResult::BootstrapClaim { peer }) => assert_eq!(peer, [3; 32]),
        other => panic!("expected a claim, got {other:?}"),
    }
}

#[test]
fn deadline_without_a_branch_uses_the_hint() {
    let config = ReplicationConfig::default();
    let start = prepare_subtree_audit(&config, &[3; 32], [4; 32], 0, [0; 32], 1);
    assert_eq!(start.subtree_leaves, 1000);
    assert_eq!(start.timeout.as_secs(), 402);
}

#[test]
fn misbehaving_gates_show_from_outside() {
    let mut storage = Storage::new();
    let r = Responder::new(&mut storage, &[1]);
    let pin = r.current_hash();
    let gate = |mode| {
        open_challenge(&r.peer_id, &pin, &r.peer_id, false, Some(&r.state), mode)
    };
    assert!(matches!(
        gate(Some(AdversaryMode::BootstrapShield)),
        ChallengeGate::Bootstrapping
    ));
    assert!(matches!(
        gate(Some(AdversaryMode::Relay)),
        ChallengeGate::Open { stall: true, .. }
    ));
    assert!(matches!(gate(None), ChallengeGate::Open { stall: false, .. }));
}
