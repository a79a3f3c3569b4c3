//! What a node decides about offers, fetches, hints and syncs.

use ant_node::ant_protocol::{XorName, MAX_CHUNK_SIZE};
use ant_node::client::{compute_address, xor_distance};
use ant_node::name_map::NameMap;
use ant_node::replication::bootstrap::{begin_bootstrap_sync, note_admission, BootstrapStart};
use ant_node::replication::bootstrap::{takes_bootstrap_hints, update_bootstrap_after_fetch};
use ant_node::replication::bootstrap::{update_bootstrap_after_verification, BootstrapState};
use ant_node::replication::commitment_state::{BuiltCommitment, PeerCommitmentRecord};
use ant_node::replication::fetch::{handle_fetch_request, judge_fetch_reply, outcome_of_store};
use ant_node::replication::fetch::{fetch_request, AfterFetch, FetchCandidate, FetchOutcome};
use ant_node::replication::fetch::{FetchReply, FetchResult, FetchStep, FetchWorker};
use ant_node::replication::fetch::{StorageRead, WorkerStep};
use ant_node::replication::offers::{handle_fresh_offer, handle_paid_notify, NotifyAction};
use ant_node::replication::offers::{NotifyEvent, OfferAction, OfferEvent, PaymentCheck};
use ant_node::replication::protocol::{FetchResponse, FreshReplicationOffer};
use ant_node::replication::protocol::{FreshReplicationResponse, PaidNotify, SubtreeAuditResponse};
use ant_node::replication::protocol::{ReplicationMessageBody, VerificationRequest};
use ant_node::replication::recent_provers::RecentProvers;
use ant_node::replication::routing::{classify_topic, handle_replication_message, is_request};
use ant_node::replication::routing::{Handler, TopicRoute};
use ant_node::replication::settlement::{handle_audit_result, handle_failed_audit, TrustReport};
use ant_node::replication::accounting::AuditFailureAction;
use ant_node::replication::audit::{observe_closeness, outcome_event, AuditTickResult};
use ant_node::replication::events::V12Event;
use ant_node::replication::sync::{admit_and_queue_hints, after_sync_attempt, begin_sync_round};
use ant_node::replication::sync::{handle_neighbor_sync_request, handle_sync_response};
use ant_node::replication::sync::{plan_queueing, AdmissionResult, AfterSync};
use ant_node::replication::sync::{BootstrapClaimObservation, NeighborSyncState, PeerSyncRecord};
use ant_node::replication::types::{AuditFailureReason, FailureEvidence, HintPipeline};
use ant_node::replication::verification::{begin_cycle, handle_verification_request};
use ant_node::replication::verification::{holder_credit, paid_insert_keys, run_verification_cycle};
use ant_node::replication::verification::{EvaluatedKey, KeyVerificationOutcome, PaidOnlyKey};
use ant_node::replication::verification::{PendingKey, ProbedKey, QueueStep};
use ant_node::time::{Duration, Instant};
use saorsa_pqc::api::sig::ml_dsa_65;

fn name(b: u8) -> XorName {
    [b; 32]
}

fn at(secs: u64) -> Instant {
    Instant { nanos: u128::from(secs) * 1_000_000_000 }
}

fn offer(data: Vec<u8>, payment: Vec<u8>) -> FreshReplicationOffer {
    FreshReplicationOffer { key: name(1), data, proof_of_payment: payment }
}

fn rejected(action: OfferAction) -> (String, bool) {
    match action {
        OfferAction::Reply {
            response: FreshReplicationResponse::Rejected { key, reason },
            penalize,
        } => {
            assert_eq!(key, name(1));
            (reason, penalize)
        }
        other => panic!("expected a rejection, got {other:?}"),
    }
}

#[test]
fn offers_are_checked_step_by_step() {
    let good = offer(vec![1, 2], vec![3]);
    assert_eq!(
        handle_fresh_offer(&good, &OfferEvent::Received),
        OfferAction::CheckResponsibility
    );
    assert_eq!(
        handle_fresh_offer(&good, &OfferEvent::Responsibility(true)),
        OfferAction::VerifyPayment
    );
    assert_eq!(
        handle_fresh_offer(&good, &OfferEvent::Payment(PaymentCheck::CanStore)),
        OfferAction::NotePaid
    );
    assert_eq!(handle_fresh_offer(&good, &OfferEvent::PaidNoted), OfferAction::Store);
    assert_eq!(
        handle_fresh_offer(&good, &OfferEvent::Stored(Ok(()))),
        OfferAction::Reply {
            response: FreshReplicationResponse::Accepted { key: name(1) },
            penalize: false,
        }
    );
}

#[test]
fn offers_are_turned_down_with_a_reason() {
    let good = offer(vec![1, 2], vec![3]);
    let say = |event: &OfferEvent| rejected(handle_fresh_offer(&good, event));
    assert_eq!(
        rejected(handle_fresh_offer(&offer(vec![1], vec![]), &OfferEvent::Received)),
        ("Missing proof of payment".to_string(), false)
    );
    let huge = offer(vec![0; MAX_CHUNK_SIZE + 1], vec![3]);
    assert_eq!(
        rejected(handle_fresh_offer(&huge, &OfferEvent::Received)),
        ("Data size 4194305 exceeds maximum chunk size 4194304".to_string(), true)
    );
    let full = offer(vec![0; MAX_CHUNK_SIZE], vec![3]);
    assert_eq!(
        handle_fresh_offer(&full, &OfferEvent::Received),
        OfferAction::CheckResponsibility
    );
    assert_eq!(
        say(&OfferEvent::Responsibility(false)),
        ("Not responsible for this key".to_string(), false)
    );
    assert_eq!(
        say(&OfferEvent::Payment(PaymentCheck::PaymentRequired)),
        ("Payment verification failed: payment required".to_string(), false)
    );
    assert_eq!(
        say(&OfferEvent::Payment(PaymentCheck::Failed("no chain".to_string()))),
        ("Payment verification error: no chain".to_string(), false)
    );
    assert_eq!(
        say(&OfferEvent::Stored(Err("disk full".to_string()))),
        ("Storage error: disk full".to_string(), false)
    );
}

#[test]
fn word_of_payment_is_noted_only_when_it_is_good() {
    let notify = PaidNotify { key: name(1), proof_of_payment: vec![1] };
    let empty = PaidNotify { key: name(1), proof_of_payment: vec![] };
    assert_eq!(handle_paid_notify(&empty, &NotifyEvent::Received), NotifyAction::Ignore);
    assert_eq!(handle_paid_notify(&notify, &NotifyEvent::Received), NotifyAction::CheckPaidGroup);
    assert_eq!(
        handle_paid_notify(&notify, &NotifyEvent::InPaidGroup(true)),
        NotifyAction::VerifyPayment
    );
    assert_eq!(
        handle_paid_notify(&notify, &NotifyEvent::InPaidGroup(false)),
        NotifyAction::Ignore
    );
    assert_eq!(
        handle_paid_notify(&notify, &NotifyEvent::Payment(PaymentCheck::CanStore)),
        NotifyAction::Record
    );
    assert_eq!(
        handle_paid_notify(&notify, &NotifyEvent::Payment(PaymentCheck::PaymentRequired)),
        NotifyAction::Ignore
    );
    assert_eq!(
        handle_paid_notify(&notify, &NotifyEvent::Payment(PaymentCheck::Failed(String::new()))),
        NotifyAction::Ignore
    );
}

fn fetched(response: FetchResponse) -> FetchReply {
    FetchReply::Answer(ReplicationMessageBody::FetchResponse(response))
}

fn ended(step: FetchStep) -> (FetchResult, bool) {
    match step {
        FetchStep::Done { outcome, penalize } => (outcome.result, penalize),
        other => panic!("expected an end, got {other:?}"),
    }
}

#[test]
fn fetched_chunk_is_stored_under_its_address() {
    let data = vec![7u8; 100];
    let key = compute_address(&data);
    assert_eq!(fetch_request(&key).key, key);
    match judge_fetch_reply(&key, fetched(FetchResponse::Success { key, data: data.clone() })) {
        FetchStep::Store { key: kept, data: chunk } => {
            assert_eq!(kept, key);
            assert_eq!(chunk, data);
        }
        other => panic!("expected a chunk to store, got {other:?}"),
    }
    assert_eq!(
        outcome_of_store(&key, true),
        FetchOutcome { key, result: FetchResult::Stored }
    );
    assert_eq!(
        outcome_of_store(&key, false),
        FetchOutcome { key, result: FetchResult::SourceFailed }
    );
}

#[test]
fn other_replies_end_the_fetch() {
    let data = vec![7u8; 100];
    let key = compute_address(&data);
    let other = compute_address(&[8]);
    let judge = |reply| ended(judge_fetch_reply(&key, reply));
    assert_eq!(judge(FetchReply::Unanswered), (FetchResult::SourceFailed, false));
    assert_eq!(judge(FetchReply::Undecodable), (FetchResult::SourceFailed, true));
    assert_eq!(
        judge(fetched(FetchResponse::Success { key: other, data: data.clone() })),
        (FetchResult::IntegrityFailed, true)
    );
    assert_eq!(
        judge(fetched(FetchResponse::Success { key, data: vec![8] })),
        (FetchResult::IntegrityFailed, true)
    );
    let huge = vec![0u8; MAX_CHUNK_SIZE + 1];
    let huge_key = compute_address(&huge);
    assert_eq!(
        ended(judge_fetch_reply(
            &huge_key,
            fetched(FetchResponse::Success { key: huge_key, data: huge })
        )),
        (FetchResult::IntegrityFailed, true)
    );
    assert_eq!(
        judge(fetched(FetchResponse::NotFound { key })),
        (FetchResult::SourceFailed, true)
    );
    assert_eq!(
        judge(fetched(FetchResponse::Error { key, reason: String::new() })),
        (FetchResult::SourceFailed, true)
    );
    let odd = ReplicationMessageBody::SubtreeAuditResponse(SubtreeAuditResponse::Bootstrapping {
        challenge_id: 1,
    });
    assert_eq!(judge(FetchReply::Answer(odd)), (FetchResult::SourceFailed, true));
}

#[test]
fn worker_keeps_to_its_slots() {
    let candidate = FetchCandidate { key: name(1), sources: vec![name(2), name(3)] };
    let orphan = FetchCandidate { key: name(4), sources: vec![] };
    let mut worker = FetchWorker::new(2);
    assert!(worker.is_idle());
    assert_eq!(worker.start_next(None), WorkerStep::Wait);
    assert_eq!(worker.start_next(Some(&orphan)), WorkerStep::Drop { key: name(4) });
    let start = WorkerStep::Start { key: name(1), source: name(2) };
    assert_eq!(worker.start_next(Some(&candidate)), start);
    assert!(worker.has_free_slot());
    assert_eq!(worker.start_next(Some(&candidate)), start);
    assert!(!worker.has_free_slot());
    assert_eq!(worker.start_next(Some(&candidate)), WorkerStep::Wait);
    let failed = Some(FetchResult::SourceFailed);
    assert_eq!(worker.finish(failed, Some(name(3))), AfterFetch::Retry { source: name(3) });
    assert!(!worker.has_free_slot());
    assert_eq!(worker.finish(failed, None), AfterFetch::Complete);
    assert!(worker.has_free_slot());
    assert_eq!(
        worker.finish(Some(FetchResult::IntegrityFailed), Some(name(3))),
        AfterFetch::Complete
    );
    assert!(worker.is_idle());
    worker.start_next(Some(&candidate));
    assert_eq!(worker.finish(None, Some(name(3))), AfterFetch::Complete);
    worker.start_next(Some(&candidate));
    assert_eq!(worker.finish(Some(FetchResult::Stored), Some(name(3))), AfterFetch::Complete);
}

#[test]
fn fetch_requests_are_answered_from_storage() {
    let request = fetch_request(&name(1));
    assert_eq!(
        handle_fetch_request(&request, StorageRead::Found(vec![1])),
        FetchResponse::Success { key: name(1), data: vec![1] }
    );
    assert_eq!(
        handle_fetch_request(&request, StorageRead::Missing),
        FetchResponse::NotFound { key: name(1) }
    );
    assert_eq!(
        handle_fetch_request(&request, StorageRead::Failed("bad".to_string())),
        FetchResponse::Error { key: name(1), reason: "bad".to_string() }
    );
}

#[test]
fn verification_requests_are_answered_key_by_key() {
    let request = VerificationRequest {
        keys: vec![name(1), name(2), name(3)],
        paid_list_check_indices: vec![2, 0, 9],
    };
    let response =
        handle_verification_request(&request, |k| *k == name(2), |k| *k == name(3));
    let said: Vec<(XorName, bool, Option<bool>)> =
        response.results.iter().map(|r| (r.key, r.present, r.paid)).collect();
    assert_eq!(
        said,
        vec![
            (name(1), false, Some(false)),
            (name(2), true, None),
            (name(3), false, Some(true)),
        ]
    );
}

#[test]
fn cycle_deals_with_every_key() {
    let pending = vec![
        PendingKey { key: name(1), locally_paid: true, pipeline: Some(HintPipeline::Replica) },
        PendingKey { key: name(2), locally_paid: true, pipeline: Some(HintPipeline::PaidOnly) },
        PendingKey { key: name(3), locally_paid: true, pipeline: Some(HintPipeline::PaidOnly) },
        PendingKey { key: name(4), locally_paid: true, pipeline: None },
        PendingKey { key: name(5), locally_paid: false, pipeline: Some(HintPipeline::Replica) },
        PendingKey { key: name(6), locally_paid: false, pipeline: Some(HintPipeline::PaidOnly) },
    ];
    let (mut cycle, paid_only) = begin_cycle(&pending);
    assert_eq!(cycle.probe, vec![name(1)]);
    assert_eq!(paid_only, vec![name(2), name(3)]);
    assert_eq!(cycle.network, vec![name(5), name(6)]);
    cycle.settle_paid_only(&vec![
        PaidOnlyKey { key: name(2), stored: false, responsible: true },
        PaidOnlyKey { key: name(3), stored: false, responsible: false },
    ]);
    assert_eq!(cycle.probe, vec![name(1), name(2)]);
    assert_eq!(cycle.terminal, vec![name(3)]);
    let own = name(0x0F);
    let steps = cycle.settle_probes(
        &own,
        vec![
            ProbedKey { key: name(1), stored: false, sources: vec![name(9)] },
            ProbedKey { key: name(2), stored: false, sources: vec![] },
        ],
    );
    assert_eq!(
        steps,
        vec![
            QueueStep::Fetch {
                key: name(1),
                distance: xor_distance(&name(1), &own),
                sources: vec![name(9)],
            },
            QueueStep::Settle { key: name(2) },
        ]
    );
    let verified = |sources| KeyVerificationOutcome::QuorumVerified { sources };
    let evaluated = vec![
        EvaluatedKey {
            key: name(5),
            outcome: verified(vec![name(8)]),
            pipeline: HintPipeline::Replica,
            stored: false,
            responsible: false,
        },
        EvaluatedKey {
            key: name(6),
            outcome: KeyVerificationOutcome::PaidListVerified { sources: vec![name(8)] },
            pipeline: HintPipeline::PaidOnly,
            stored: false,
            responsible: false,
        },
        EvaluatedKey {
            key: name(7),
            outcome: KeyVerificationOutcome::QuorumFailed,
            pipeline: HintPipeline::Replica,
            stored: false,
            responsible: true,
        },
        EvaluatedKey {
            key: name(8),
            outcome: verified(vec![]),
            pipeline: HintPipeline::Replica,
            stored: false,
            responsible: true,
        },
        EvaluatedKey {
            key: name(9),
            outcome: verified(vec![name(1)]),
            pipeline: HintPipeline::PaidOnly,
            stored: false,
            responsible: true,
        },
        EvaluatedKey {
            key: name(10),
            outcome: KeyVerificationOutcome::QuorumInconclusive,
            pipeline: HintPipeline::Replica,
            stored: false,
            responsible: true,
        },
    ];
    assert_eq!(
        paid_insert_keys(&evaluated),
        vec![name(5), name(6), name(8), name(9)]
    );
    let (steps, terminal) = run_verification_cycle(cycle, &own, evaluated);
    assert_eq!(steps.len(), 6);
    assert!(matches!(&steps[0], QueueStep::Fetch { key, .. } if *key == name(5)));
    assert!(matches!(&steps[4], QueueStep::Fetch { key, .. } if *key == name(9)));
    assert_eq!(
        terminal,
        vec![name(3), name(2), name(6), name(7), name(8), name(10)]
    );
}

#[test]
fn word_of_a_capable_peer_counts_only_with_credit() {
    let (pk, sk) = ml_dsa_65().generate_keypair().unwrap();
    let public = pk.to_bytes();
    let peer = *blake3::hash(&public).as_bytes();
    let built =
        BuiltCommitment::build(vec![(name(1), name(1))], &peer, &sk.to_bytes(), &public).unwrap();
    let mut capable: NameMap<()> = NameMap::new();
    let mut records: NameMap<PeerCommitmentRecord> = NameMap::new();
    let mut provers = RecentProvers::new();
    let counts = |held, capable: &NameMap<()>, records: &NameMap<PeerCommitmentRecord>, provers: &RecentProvers| {
        holder_credit(held, &peer, &name(1), capable, records, provers, at(10))
    };
    // A peer that never published counts; so does anyone for a key that is not held here.
    assert!(counts(true, &capable, &records, &provers));
    capable.insert(peer, ());
    assert!(counts(false, &capable, &records, &provers));
    assert!(!counts(true, &capable, &records, &provers));
    records.insert(peer, PeerCommitmentRecord::capable_but_no_commitment(at(1)));
    assert!(!counts(true, &capable, &records, &provers));
    records.insert(peer, PeerCommitmentRecord::from_verified(built.commitment().clone(), at(1)));
    assert!(!counts(true, &capable, &records, &provers));
    provers.record_proof(name(1), peer, built.hash(), at(5));
    assert!(counts(true, &capable, &records, &provers));
    records.remove(&peer);
    assert!(!counts(true, &capable, &records, &provers));
}

#[test]
fn node_catches_up_when_all_is_dealt_with() {
    let mut state = BootstrapState::new();
    assert!(!state.is_drained());
    assert_eq!(begin_bootstrap_sync(&mut state, true, 0), BootstrapStart::Stop);
    assert!(!state.is_drained());
    assert_eq!(begin_bootstrap_sync(&mut state, false, 3), BootstrapStart::AskNeighbors);
    state.increment_pending_requests(1);
    assert!(!state.check_bootstrap_drained(|_| false));
    state.decrement_pending_requests(1);
    assert!(!takes_bootstrap_hints(None));
    assert!(!takes_bootstrap_hints(Some(true)));
    assert!(takes_bootstrap_hints(Some(false)));
    note_admission(&mut state, &name(9), &vec![name(1), name(2)], 1);
    assert!(!state.check_bootstrap_drained(|_| false));
    note_admission(&mut state, &name(9), &vec![], 0);
    let queued = |k: &XorName| *k == name(1) || *k == name(2);
    assert!(!update_bootstrap_after_verification(&vec![], &mut state, queued));
    assert!(!update_bootstrap_after_verification(&vec![name(1)], &mut state, queued));
    assert!(update_bootstrap_after_fetch(&name(2), &mut state, queued));
    assert!(state.is_drained());
    assert!(!update_bootstrap_after_fetch(&name(2), &mut state, queued));
    assert!(state.check_bootstrap_drained(|_| true));
}

#[test]
fn lonely_node_has_caught_up() {
    let mut state = BootstrapState::new();
    assert_eq!(begin_bootstrap_sync(&mut state, false, 0), BootstrapStart::Complete);
    assert!(state.is_drained());
}

#[test]
fn claims_get_one_span_of_grace() {
    let mut state = NeighborSyncState::new_cycle(vec![name(1)]);
    let grace = Duration::from_secs(100);
    let first_seen = at(10);
    assert_eq!(
        state.observe_bootstrap_claim(name(1), at(10), grace),
        BootstrapClaimObservation::WithinGrace { first_seen }
    );
    assert_eq!(
        state.observe_bootstrap_claim(name(1), at(110), grace),
        BootstrapClaimObservation::WithinGrace { first_seen }
    );
    assert_eq!(
        state.observe_bootstrap_claim(name(1), at(111), grace),
        BootstrapClaimObservation::PastGrace { first_seen }
    );
    state.clear_active_bootstrap_claim(&name(1));
    assert_eq!(
        state.observe_bootstrap_claim(name(1), at(112), grace),
        BootstrapClaimObservation::Repeated { first_seen }
    );
}

#[test]
fn new_round_keeps_what_is_remembered() {
    let mut state = NeighborSyncState::new_cycle(vec![name(1)]);
    let mut history: NameMap<PeerSyncRecord> = NameMap::new();
    let mut epoch: u64 = 7;
    assert!(begin_sync_round(&state, &mut history, &mut epoch, false, true).is_none());
    assert!(!state.start_next_cycle(vec![name(2)]));
    let grace = Duration::from_secs(100);
    handle_sync_response(&name(1), true, &mut state, &mut history, at(10), grace);
    state.prune_cursor = 5;
    state.cursor = 1;
    let pass = begin_sync_round(&state, &mut history, &mut epoch, false, true).unwrap();
    assert_eq!(pass.sync_epoch, 8);
    assert!(pass.allow_remote_audits);
    assert_eq!(epoch, 8);
    assert_eq!(
        history.get(&name(1)).copied(),
        Some(PeerSyncRecord { last_sync: Some(at(10)), cycles_since_sync: 1 })
    );
    assert!(!begin_sync_round(&state, &mut history, &mut epoch, true, true).unwrap().allow_remote_audits);
    assert!(!begin_sync_round(&state, &mut history, &mut epoch, false, false).unwrap().allow_remote_audits);
    assert!(state.start_next_cycle(vec![name(2), name(3)]));
    assert_eq!(state.order, vec![name(2), name(3)]);
    assert_eq!(state.cursor, 0);
    assert_eq!(state.prune_cursor, 5);
    assert_eq!(state.last_sync_times.get(&name(1)).copied(), Some(at(10)));
    assert_eq!(state.bootstrap_claims.get(&name(1)).copied(), Some(at(10)));
    let mut last: u64 = u64::MAX;
    state.cursor = 2;
    begin_sync_round(&state, &mut history, &mut last, false, true);
    assert_eq!(last, u64::MAX);
}

#[test]
fn sync_answers_are_followed_up() {
    let mut state = NeighborSyncState::new_cycle(vec![]);
    let mut history: NameMap<PeerSyncRecord> = NameMap::new();
    let grace = Duration::from_secs(100);
    let follow = |state: &mut NeighborSyncState, history: &mut NameMap<PeerSyncRecord>, starting, secs| {
        let f = handle_sync_response(&name(1), starting, state, history, at(secs), grace);
        (f.report_abuse, f.take_hints)
    };
    assert_eq!(follow(&mut state, &mut history, true, 10), (false, false));
    assert_eq!(follow(&mut state, &mut history, true, 200), (true, false));
    assert_eq!(follow(&mut state, &mut history, false, 201), (false, true));
    assert_eq!(follow(&mut state, &mut history, true, 202), (true, false));
    assert_eq!(after_sync_attempt(true, false), AfterSync::TakeAnswer);
    assert_eq!(after_sync_attempt(false, false), AfterSync::Replace);
    assert_eq!(after_sync_attempt(false, true), AfterSync::GiveUp);
}

#[test]
fn sync_requests_are_followed_up() {
    let mut history: NameMap<PeerSyncRecord> = NameMap::new();
    let mut follow = |in_rt, sent, starting| {
        let f = handle_neighbor_sync_request(&name(1), in_rt, sent, starting, &mut history, at(3));
        (f.record_hints, f.take_hints)
    };
    assert_eq!(follow(false, true, false), (false, false));
    assert_eq!(follow(true, true, false), (true, true));
    assert_eq!(follow(true, false, false), (false, true));
    assert_eq!(follow(true, true, true), (false, true));
    assert_eq!(history.len(), 1);
}

#[test]
fn hints_are_queued_and_summed_up() {
    let plan = plan_queueing(
        &vec![name(1), name(2), name(3)],
        &vec![name(4), name(1)],
        |k| *k == name(2),
    );
    assert_eq!(
        plan,
        vec![
            (name(1), HintPipeline::Replica),
            (name(3), HintPipeline::Replica),
            (name(4), HintPipeline::PaidOnly),
            (name(1), HintPipeline::PaidOnly),
        ]
    );
    let outcome = admit_and_queue_hints(&vec![
        (name(1), AdmissionResult::Admitted),
        (name(3), AdmissionResult::CapacityRejected),
        (name(4), AdmissionResult::AlreadyPresent),
        (name(1), AdmissionResult::Admitted),
        (name(5), AdmissionResult::CapacityRejected),
    ]);
    assert_eq!(outcome.discovered, vec![name(1)]);
    assert_eq!(outcome.capacity_rejected_count, 2);
}

#[test]
fn topics_tell_messages_apart() {
    assert_eq!(classify_topic("autonomi.ant.replication.v1"), TopicRoute::Direct);
    assert_eq!(classify_topic("/rr/autonomi.ant.replication.v1"), TopicRoute::RequestResponse);
    assert_eq!(classify_topic("/rr/autonomi.ant.replication.v2"), TopicRoute::Other);
    assert_eq!(classify_topic("/rr/"), TopicRoute::Other);
    assert_eq!(classify_topic(""), TopicRoute::Other);
    assert!(is_request(false));
    assert!(!is_request(true));
    let fetch = ReplicationMessageBody::FetchRequest(fetch_request(&name(1)));
    assert_eq!(handle_replication_message(&fetch), Handler::Fetch);
    let answer = ReplicationMessageBody::FetchResponse(FetchResponse::NotFound { key: name(1) });
    assert_eq!(handle_replication_message(&answer), Handler::Nobody);
}

fn failure(reason: AuditFailureReason) -> AuditTickResult {
    AuditTickResult::Failed {
        evidence: FailureEvidence::AuditFailure {
            challenge_id: 3,
            challenged_peer: name(1),
            confirmed_failed_keys: Vec::new(),
            reason,
        },
    }
}

#[test]
fn ends_of_audits_are_settled() {
    let mut sync = NeighborSyncState::new_cycle(vec![]);
    let mut provers = RecentProvers::new();
    let mut strikes: NameMap<u32> = NameMap::new();
    let grace = Duration::from_secs(100);
    provers.record_proof(name(5), name(1), name(6), at(1));
    let credited = |p: &RecentProvers| p.is_credited_holder(&name(5), &name(1), &name(6), at(2));
    let mut settle = |result: &AuditTickResult,
                      sync: &mut NeighborSyncState,
                      provers: &mut RecentProvers,
                      secs| {
        handle_audit_result(result, sync, provers, &mut strikes, at(secs), grace)
    };
    let claim = AuditTickResult::BootstrapClaim { peer: name(1) };
    assert_eq!(settle(&claim, &mut sync, &mut provers, 10), TrustReport::Nothing);
    let missed = failure(AuditFailureReason::Timeout);
    for _ in 0..5 {
        assert_eq!(settle(&missed, &mut sync, &mut provers, 11), TrustReport::Nothing);
    }
    assert!(credited(&provers));
    assert!(sync.bootstrap_claims.contains(&name(1)));
    assert_eq!(
        settle(&failure(AuditFailureReason::DigestMismatch), &mut sync, &mut provers, 12),
        TrustReport::AuditFailed { peer: name(1) }
    );
    assert!(!credited(&provers));
    assert!(!sync.bootstrap_claims.contains(&name(1)));
    assert_eq!(
        settle(&claim, &mut sync, &mut provers, 13),
        TrustReport::ClaimAbused { peer: name(1) }
    );
    let passed = AuditTickResult::Passed { challenged_peer: name(1), keys_checked: 3 };
    assert_eq!(
        settle(&passed, &mut sync, &mut provers, 14),
        TrustReport::AuditPassed { peer: name(1) }
    );
    assert_eq!(
        settle(&AuditTickResult::Idle, &mut sync, &mut provers, 15),
        TrustReport::Nothing
    );
    assert_eq!(strikes.len(), 0);
}

#[test]
fn third_miss_in_a_row_is_one_too_many() {
    let mut sync = NeighborSyncState::new_cycle(vec![]);
    let mut provers = RecentProvers::new();
    let mut strikes: NameMap<u32> = NameMap::new();
    let mut actions = Vec::new();
    for _ in 0..3 {
        let (action, report) = handle_failed_audit(
            &name(1),
            &AuditFailureReason::Timeout,
            &mut sync,
            &mut provers,
            &mut strikes,
        );
        assert_eq!(report, TrustReport::Nothing);
        actions.push(action);
    }
    assert_eq!(
        actions,
        vec![
            AuditFailureAction::TimeoutGrace,
            AuditFailureAction::TimeoutGrace,
            AuditFailureAction::TimeoutPenalize,
        ]
    );
}

#[test]
fn ends_of_audits_are_recorded() {
    let record = |result: &AuditTickResult| match outcome_event(result, "ab", 3) {
        Some(V12Event::AuditOutcome { challenged_peer, challenge_id, outcome, gate }) => {
            assert_eq!(challenged_peer, "ab");
            assert_eq!(challenge_id, 3);
            Some((outcome, gate))
        }
        None => None,
        other => panic!("unexpected record {other:?}"),
    };
    let passed = AuditTickResult::Passed { challenged_peer: name(1), keys_checked: 3 };
    assert_eq!(record(&passed), Some(("passed_subtree", None)));
    let claim = AuditTickResult::BootstrapClaim { peer: name(1) };
    assert_eq!(record(&claim), Some(("bootstrap_claim", None)));
    assert_eq!(record(&AuditTickResult::Idle), None);
    assert_eq!(record(&AuditTickResult::InsufficientKeys), None);
    for (reason, word) in [
        (AuditFailureReason::Timeout, "timeout"),
        (AuditFailureReason::MalformedResponse, "malformed_response"),
        (AuditFailureReason::DigestMismatch, "digest_mismatch"),
        (AuditFailureReason::KeyAbsent, "key_absent"),
        (AuditFailureReason::Rejected, "rejected"),
    ] {
        assert_eq!(record(&failure(reason)), Some(("failed", Some(word))));
    }
}

#[test]
fn closeness_is_a_majority() {
    assert!(!observe_closeness(0, 0));
    assert!(!observe_closeness(2, 4));
    assert!(observe_closeness(3, 4));
}
