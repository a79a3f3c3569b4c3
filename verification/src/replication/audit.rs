//! Audits of what peers have committed to.
//!
//! An auditor pins a commitment that a peer has just published and sends a fresh nonce. The nonce
//! selects a branch of the committed tree, and the peer answers with the branch. The auditor then
//! asks for the bytes of a few of its leaves, and checks what the peer serves against the branch;
//! it needs to hold none of the chunks itself. The functions here decide; whoever runs the node
//! sends and waits.

use crate::ant_protocol::XorName;
use crate::hashing::{blake3_hash, collides, same_bytes32};
use crate::replication::commitment::{commitment_hash, verify_commitment_signature};
use crate::replication::commitment::{CommitmentView, StorageCommitment};
use crate::replication::commitment;
use crate::replication::config::ReplicationConfig;
use crate::replication::config;
use crate::replication::events::{audit_outcome, V12Event};
use crate::replication::protocol::{ReplicationMessageBody, SubtreeAuditChallenge};
use crate::replication::protocol::{SubtreeAuditResponse, SubtreeByteChallenge, SubtreeByteItem};
use crate::replication::protocol::SubtreeByteResponse;
use crate::replication::protocol;
use crate::replication::recent_provers::{credits, with_proof, HolderProof, RecentProvers};
use crate::replication::subtree::{nonced_leaf_hash, select_spotcheck_indices, select_subtree_path};
use crate::replication::subtree::verify_subtree_proof;
use crate::replication::subtree::{StructureVerdict, SubtreeLeaf, SubtreeProof};
use crate::replication::subtree;
use crate::replication::types::{AuditFailureReason, FailureEvidence, PeerId};
use crate::time::{Duration, Instant};
use vstd::prelude::*;
use vstd::string::*;

verus! {

/// How an audit ended.
#[derive(Debug)]
pub enum AuditTickResult {
    /// The peer proved what it committed to.
    Passed {
        /// Who was challenged.
        challenged_peer: PeerId,
        /// Of how many leaves the bytes were checked.
        keys_checked: usize,
    },
    /// It did not.
    Failed {
        /// What shows it.
        evidence: FailureEvidence,
    },
    /// The peer said that it is starting up.
    BootstrapClaim {
        /// Who said so.
        peer: PeerId,
    },
    /// No audit took place.
    Idle,
    /// There was nothing to audit.
    InsufficientKeys,
}

/// Fewest leaves of which the bytes are asked for.
pub const BYTE_SPOTCHECK_MIN: u32 = 3;

/// Most leaves of which the bytes are asked for.
pub const BYTE_SPOTCHECK_MAX: u32 = 5;

/// What an auditor knows of the audit that it runs.
#[derive(Clone, Copy, Debug, PartialEq, Eq)]
pub struct AuditCtx {
    /// Who is challenged.
    pub challenged_peer: PeerId,
    /// Which challenge this is.
    pub challenge_id: u64,
    /// The nonce.
    pub nonce: [u8; 32],
    /// The digest of the pinned commitment.
    pub expected_commitment_hash: [u8; 32],
}

/// What came back for a challenge.
#[derive(Debug)]
pub enum AuditReply {
    /// The challenge could not be put into a message, so nothing was sent.
    Unencodable,
    /// Nothing came in time, or the request could not be delivered.
    NoAnswer,
    /// Something that is no message came.
    Undecodable,
    /// A message came.
    Answer(ReplicationMessageBody),
}

/// What the peer served when it was asked for bytes.
#[derive(Debug)]
pub enum ByteRound {
    /// An item for each key, to be checked.
    Served(Vec<SubtreeByteItem>),
    /// The peer does not answer for the pinned commitment.
    Rejected,
    /// Nothing came in time.
    Timeout,
    /// What came is no answer to the challenge.
    Malformed,
}

/// What the bytes that a peer served show.
#[derive(Clone, Copy, Debug, PartialEq, Eq, Structural)]
pub enum AuditVerdict {
    /// All of them are what was committed to.
    Pass {
        /// How many leaves were checked.
        checked: usize,
    },
    /// They are not.
    Fail(AuditFailureReason),
}

/// What an auditor sends first, and how long it waits.
#[derive(Clone, Copy, Debug)]
pub struct AuditStart {
    /// What it knows of the audit.
    pub ctx: AuditCtx,
    /// The challenge.
    pub challenge: SubtreeAuditChallenge,
    /// How many leaves the selected branch has.
    pub subtree_leaves: usize,
    /// How long to wait for the answer.
    pub timeout: Duration,
}

/// What an auditor does after the answer to a challenge.
#[derive(Debug)]
pub enum AuditStep {
    /// The audit is over.
    Done(AuditTickResult),
    /// The branch is as committed, and the bytes of some leaves are asked for.
    AskBytes(BytesWanted),
}

/// A branch of which some bytes are still to be checked.
#[derive(Debug)]
pub struct BytesWanted {
    /// The demand.
    pub challenge: SubtreeByteChallenge,
    /// How long to wait for the answer.
    pub timeout: Duration,
    /// The leaves that are to be checked.
    pub sampled: Vec<SubtreeLeaf>,
    /// The commitment that the peer answered with.
    pub commitment: StorageCommitment,
    /// The branch.
    pub proof_of_branch: SubtreeProof,
}

/// The first gate that an answer does not pass, or none: it is from the challenged peer, whose
/// identity is that of its key; it is the pinned commitment; its signature is valid; and the branch
/// rebuilds to its root.
pub open spec fn structure_gate(
    c: CommitmentView,
    leaves: Seq<SubtreeLeaf>,
    cuts: Seq<[u8; 32]>,
    nonce: [u8; 32],
    pin: [u8; 32],
    peer: [u8; 32],
) -> Option<AuditFailureReason> {
    if c.sender_peer_id != peer || crate::hashing::blake3_digest(c.sender_public_key)
        != c.sender_peer_id || commitment::commitment_digest(c) != pin
        || !commitment::signed_by_own_key(c) {
        Some(AuditFailureReason::Rejected)
    } else if !(subtree::structure_of(nonce, c, leaves, cuts) is Valid) {
        Some(AuditFailureReason::DigestMismatch)
    } else {
        None
    }
}

/// Whether `content` is what a leaf was made of.
pub open spec fn leaf_borne_out(
    leaf: SubtreeLeaf,
    nonce: [u8; 32],
    peer: [u8; 32],
    content: Seq<u8>,
) -> bool {
    leaf.bytes_hash == crate::hashing::blake3_digest(content) && leaf.nonced_hash
        == protocol::audit_digest(nonce, peer, leaf.key, content)
}

/// The leaves of a branch that are checked.
pub open spec fn sampled_leaves(
    leaves: Seq<SubtreeLeaf>,
    nonce: [u8; 32],
    key_count: u32,
    wanted: u32,
) -> Seq<SubtreeLeaf> {
    let (h, j) = subtree::selected(nonce, key_count as nat);
    let places = subtree::spotcheck_places(
        nonce,
        subtree::real_leaves(key_count as nat, h, j) as u32,
        wanted,
    );
    leaves_at(leaves, places)
}

/// The leaves at the given places, without those places that have none.
pub open spec fn leaves_at(leaves: Seq<SubtreeLeaf>, places: Seq<u32>) -> Seq<SubtreeLeaf>
    decreases places.len(),
{
    if places.len() == 0 {
        Seq::empty()
    } else {
        let before = leaves_at(leaves, places.drop_last());
        if places.last() < leaves.len() {
            before.push(leaves[places.last() as int])
        } else {
            before
        }
    }
}

/// Where there is a leaf for every place, each place gives its own.
proof fn leaves_at_all(leaves: Seq<SubtreeLeaf>, places: Seq<u32>)
    requires
        forall|i: int| 0 <= i < places.len() ==> (#[trigger] places[i]) < leaves.len(),
    ensures
        leaves_at(leaves, places) =~= Seq::new(
            places.len(),
            |i: int| leaves[places[i] as int],
        ),
    decreases places.len(),
{
    if places.len() > 0 {
        leaves_at_all(leaves, places.drop_last());
    }
}

/// Check the branch that a peer answered with. The bytes behind it are not checked yet.
pub fn evaluate_subtree_structure(
    commitment: &StorageCommitment,
    proof_of_branch: &SubtreeProof,
    nonce: &[u8; 32],
    expected_commitment_hash: &[u8; 32],
    challenged_peer_bytes: &[u8; 32],
) -> (checked: Result<(), AuditFailureReason>)
    ensures
        checked == match structure_gate(
            commitment@,
            proof_of_branch.leaves@,
            proof_of_branch.sibling_cut_hashes@,
            *nonce,
            *expected_commitment_hash,
            *challenged_peer_bytes,
        ) {
            Some(reason) => Err::<(), AuditFailureReason>(reason),
            None => Ok::<(), AuditFailureReason>(()),
        },
{
    if !same_bytes32(&commitment.sender_peer_id, challenged_peer_bytes) {
        return Err(AuditFailureReason::Rejected);
    }
    let derived_peer_id = blake3_hash(commitment.sender_public_key.as_slice());
    if !same_bytes32(&derived_peer_id, &commitment.sender_peer_id) {
        return Err(AuditFailureReason::Rejected);
    }
    match commitment_hash(commitment) {
        Some(hash) => {
            if !same_bytes32(&hash, expected_commitment_hash) {
                return Err(AuditFailureReason::Rejected);
            }
        },
        None => return Err(AuditFailureReason::Rejected),
    }
    if !verify_commitment_signature(commitment) {
        return Err(AuditFailureReason::Rejected);
    }
    match verify_subtree_proof(proof_of_branch, nonce, commitment) {
        StructureVerdict::Valid => Ok(()),
        StructureVerdict::Invalid(_) => Err(AuditFailureReason::DigestMismatch),
    }
}

/// The leaves behind references to them.
pub open spec fn leaf_values(leaves: Seq<&SubtreeLeaf>) -> Seq<SubtreeLeaf> {
    leaves.map_values(|leaf: &SubtreeLeaf| *leaf)
}

/// The leaves of a branch of which the bytes are asked for, in their order.
pub fn spotcheck_leaves<'a>(
    proof_of_branch: &'a SubtreeProof,
    nonce: &[u8; 32],
    key_count: u32,
    spotcheck_count: u32,
) -> (sampled: Vec<&'a SubtreeLeaf>)
    ensures
        leaf_values(sampled@) == if 0 < key_count <= commitment::MAX_COMMITMENT_KEY_COUNT {
            sampled_leaves(proof_of_branch.leaves@, *nonce, key_count, spotcheck_count)
        } else {
            Seq::empty()
        },
{
    let mut sampled: Vec<&'a SubtreeLeaf> = Vec::new();
    let path = match select_subtree_path(nonce, key_count) {
        Some(path) => path,
        None => {
            assert(leaf_values(sampled@) =~= Seq::empty());
            return sampled;
        },
    };
    let places = select_spotcheck_indices(nonce, &path, spotcheck_count);
    let leaves = &proof_of_branch.leaves;
    let mut i: usize = 0;
    assert(places@.take(0) =~= Seq::empty());
    assert(leaf_values(sampled@) =~= Seq::empty());
    while i < places.len()
        invariant
            i <= places.len(),
            leaves@ == proof_of_branch.leaves@,
            leaf_values(sampled@) == leaves_at(leaves@, places@.take(i as int)),
        decreases places.len() - i,
    {
        let place: usize = places[i] as usize;
        let ghost before = sampled@;
        if place < leaves.len() {
            sampled.push(&leaves[place]);
            assert(leaf_values(sampled@) =~= leaf_values(before).push(leaves@[place as int]));
        }
        assert(places@.take(i + 1).drop_last() =~= places@.take(i as int));
        assert(places@.take(i + 1).last() == places@[i as int]);
        i += 1;
    }
    assert(places@.take(i as int) =~= places@);
    sampled
}

/// What a served answer for one key holds.
pub open spec fn served_content(out: Option<Option<Vec<u8>>>) -> Option<Seq<u8>> {
    match out {
        Some(Some(content)) => Some(content@),
        _ => None,
    }
}

/// Whether `served` can answer for a leaf in a way that bears it out.
pub open spec fn answer_bears_out<F: Fn(&XorName) -> Option<Option<Vec<u8>>>>(
    served: F,
    leaf: SubtreeLeaf,
    nonce: [u8; 32],
    peer: [u8; 32],
    borne_out: bool,
) -> bool {
    exists|out: Option<Option<Vec<u8>>>| #[trigger]
        call_ensures(served, (&leaf.key,), out) && borne_out == (served_content(out) matches Some(
            content,
        ) && leaf_borne_out(leaf, nonce, peer, content))
}

/// An answer bears a leaf out where the peer gives bytes with the digests that are in the leaf; it
/// does not where the peer gives other bytes, says that it has none, or says nothing.
pub proof fn leaf_is_borne_out_by_its_bytes<F: Fn(&XorName) -> Option<Option<Vec<u8>>>>(
    served: F,
    leaf: SubtreeLeaf,
    nonce: [u8; 32],
    peer: [u8; 32],
    borne_out: bool,
) -> (out: Option<Option<Vec<u8>>>)
    requires
        answer_bears_out(served, leaf, nonce, peer, borne_out),
    ensures
        call_ensures(served, (&leaf.key,), out),
        borne_out <==> (out matches Some(Some(bytes)) && crate::hashing::blake3_digest(bytes@)
            == leaf.bytes_hash && crate::hashing::blake3_digest(
            nonce@ + peer@ + leaf.key@ + bytes@,
        ) == leaf.nonced_hash),
{
    choose|out: Option<Option<Vec<u8>>>| #[trigger]
        call_ensures(served, (&leaf.key,), out) && borne_out == (served_content(out) matches Some(
            content,
        ) && leaf_borne_out(leaf, nonce, peer, content))
}

/// Check what a peer served for the sampled leaves. `served` gives the bytes for a key, or says
/// that the peer does not have them, or that it did not say; either of these is a failure, since
/// the peer committed to the key. Nothing is proved where there is no leaf to check, so that is a
/// failure too.
pub fn verify_byte_response<F: Fn(&XorName) -> Option<Option<Vec<u8>>>>(
    leaves: &[&SubtreeLeaf],
    nonce: &[u8; 32],
    challenged_peer_bytes: &[u8; 32],
    served: F,
) -> (verdict: AuditVerdict)
    requires
        forall|key: &XorName| call_requires(served, (key,)),
    ensures
        match verdict {
            AuditVerdict::Pass { checked } => checked == leaves.len() && checked >= 1 && forall|
                i: int,
            |
                0 <= i < leaves.len() ==> answer_bears_out(
                    served,
                    *(#[trigger] leaves@[i]),
                    *nonce,
                    *challenged_peer_bytes,
                    true,
                ),
            AuditVerdict::Fail(reason) => reason == AuditFailureReason::DigestMismatch && (
            leaves.len() == 0 || exists|i: int|
                0 <= i < leaves.len() && answer_bears_out(
                    served,
                    *(#[trigger] leaves@[i]),
                    *nonce,
                    *challenged_peer_bytes,
                    false,
                )),
        },
{
    if leaves.len() == 0 {
        return AuditVerdict::Fail(AuditFailureReason::DigestMismatch);
    }
    let mut checked: usize = 0;
    while checked < leaves.len()
        invariant
            checked <= leaves.len(),
            forall|key: &XorName| call_requires(served, (key,)),
            forall|i: int|
                0 <= i < checked ==> answer_bears_out(
                    served,
                    *(#[trigger] leaves@[i]),
                    *nonce,
                    *challenged_peer_bytes,
                    true,
                ),
        decreases leaves.len() - checked,
    {
        let leaf = leaves[checked];
        let out = served(&leaf.key);
        let ghost given = out;
        let content = match out {
            Some(Some(content)) => content,
            _ => {
                assert(call_ensures(served, (&leaf.key,), given));
                assert(answer_bears_out(
                    served,
                    *leaves@[checked as int],
                    *nonce,
                    *challenged_peer_bytes,
                    false,
                ));
                return AuditVerdict::Fail(AuditFailureReason::DigestMismatch);
            },
        };
        let plain = blake3_hash(content.as_slice());
        let nonced = nonced_leaf_hash(nonce, challenged_peer_bytes, &leaf.key, content.as_slice());
        assert(call_ensures(served, (&leaf.key,), given));
        if !same_bytes32(&leaf.bytes_hash, &plain) || !same_bytes32(&leaf.nonced_hash, &nonced) {
            assert(answer_bears_out(
                served,
                *leaves@[checked as int],
                *nonce,
                *challenged_peer_bytes,
                false,
            ));
            return AuditVerdict::Fail(AuditFailureReason::DigestMismatch);
        }
        assert(answer_bears_out(
            served,
            *leaves@[checked as int],
            *nonce,
            *challenged_peer_bytes,
            true,
        ));
        checked += 1;
    }
    AuditVerdict::Pass { checked }
}

/// The outcome of a random draw: a nonce and the number of a challenge (`rand::thread_rng` and
/// `rand::Rng::gen`). Nothing is known of either.
#[verifier::external_body]
fn draw_challenge() -> (drawn: ([u8; 32], u64)) {
    let mut rng = rand::thread_rng();
    (rand::Rng::gen(&mut rng), rand::Rng::gen(&mut rng))
}

/// How many leaves the branch has that a nonce selects among `key_count` keys, or how many it is
/// taken to have where none can be selected.
pub open spec fn branch_size(nonce: [u8; 32], key_count: u32) -> nat {
    if 0 < key_count <= commitment::MAX_COMMITMENT_KEY_COUNT {
        let (h, j) = subtree::selected(nonce, key_count as nat);
        subtree::real_leaves(key_count as nat, h, j)
    } else {
        config::SUBTREE_AUDIT_TIMEOUT_LEAF_HINT as nat
    }
}

/// Whether `start` is the beginning of an audit of `peer`, with time for as many leaves as the
/// branch has.
pub open spec fn is_start(
    start: AuditStart,
    config: ReplicationConfig,
    peer: PeerId,
    pin: [u8; 32],
    key_count: u32,
    nonce: [u8; 32],
    challenge_id: u64,
) -> bool {
    &&& start.ctx == (AuditCtx {
        challenged_peer: peer,
        challenge_id,
        nonce,
        expected_commitment_hash: pin,
    })
    &&& start.challenge == (SubtreeAuditChallenge {
        challenge_id,
        nonce,
        challenged_peer_id: peer,
        expected_commitment_hash: pin,
    })
    &&& start.subtree_leaves == branch_size(nonce, key_count)
    &&& start.timeout.nanos == config::response_nanos(config, start.subtree_leaves)
}

/// Prepare an audit with a given nonce.
pub fn prepare_subtree_audit(
    config: &ReplicationConfig,
    challenged_peer: &PeerId,
    expected_commitment_hash: [u8; 32],
    key_count: u32,
    nonce: [u8; 32],
    challenge_id: u64,
) -> (start: AuditStart)
    ensures
        is_start(
            start,
            *config,
            *challenged_peer,
            expected_commitment_hash,
            key_count,
            nonce,
            challenge_id,
        ),
{
    let subtree_leaves: usize = match select_subtree_path(&nonce, key_count) {
        Some(path) => path.real_leaf_count() as usize,
        None => config.subtree_audit_timeout_leaf_hint(),
    };
    AuditStart {
        ctx: AuditCtx {
            challenged_peer: *challenged_peer,
            challenge_id,
            nonce,
            expected_commitment_hash,
        },
        challenge: SubtreeAuditChallenge {
            challenge_id,
            nonce,
            challenged_peer_id: *challenged_peer,
            expected_commitment_hash,
        },
        subtree_leaves,
        timeout: config.audit_response_timeout(subtree_leaves),
    }
}

/// Begin an audit of `challenged_peer`, pinned to the commitment that it has just published, with
/// a fresh nonce.
pub fn run_subtree_audit(
    config: &ReplicationConfig,
    challenged_peer: &PeerId,
    expected_commitment_hash: [u8; 32],
    key_count: u32,
) -> (start: AuditStart)
    ensures
        is_start(
            start,
            *config,
            *challenged_peer,
            expected_commitment_hash,
            key_count,
            start.ctx.nonce,
            start.ctx.challenge_id,
        ),
{
    let (nonce, challenge_id) = draw_challenge();
    prepare_subtree_audit(
        config,
        challenged_peer,
        expected_commitment_hash,
        key_count,
        nonce,
        challenge_id,
    )
}

/// Whether an audit ended in a failure with this reason.
pub open spec fn is_failure(
    result: AuditTickResult,
    ctx: AuditCtx,
    reason: AuditFailureReason,
) -> bool {
    result matches AuditTickResult::Failed {
        evidence: FailureEvidence::AuditFailure {
            challenge_id,
            challenged_peer,
            confirmed_failed_keys,
            reason: given,
        },
    } && challenge_id == ctx.challenge_id && challenged_peer == ctx.challenged_peer
        && confirmed_failed_keys@ == Seq::<XorName>::empty() && given == reason
}

/// The end of an audit that failed. It is about the peer's own committed tree, so no keys are
/// named.
pub fn failed(ctx: &AuditCtx, reason: AuditFailureReason) -> (result: AuditTickResult)
    ensures
        is_failure(result, *ctx, reason),
{
    AuditTickResult::Failed {
        evidence: FailureEvidence::AuditFailure {
            challenge_id: ctx.challenge_id,
            challenged_peer: ctx.challenged_peer,
            confirmed_failed_keys: Vec::new(),
            reason,
        },
    }
}

/// The word in records for the reason of a failure.
pub open spec fn gate_name(reason: AuditFailureReason) -> Seq<char> {
    match reason {
        AuditFailureReason::Timeout => "timeout"@,
        AuditFailureReason::MalformedResponse => "malformed_response"@,
        AuditFailureReason::DigestMismatch => "digest_mismatch"@,
        AuditFailureReason::KeyAbsent => "key_absent"@,
        AuditFailureReason::Rejected => "rejected"@,
    }
}

/// Name the reason of a failure in records.
pub fn audit_failure_gate(reason: &AuditFailureReason) -> (gate: &'static str)
    ensures
        gate@ == gate_name(*reason),
{
    match reason {
        AuditFailureReason::Timeout => "timeout",
        AuditFailureReason::MalformedResponse => "malformed_response",
        AuditFailureReason::DigestMismatch => "digest_mismatch",
        AuditFailureReason::KeyAbsent => "key_absent",
        AuditFailureReason::Rejected => "rejected",
    }
}

/// The record of how an audit ended; none where no audit took place.
pub fn outcome_event<'a>(
    result: &AuditTickResult,
    challenged_peer: &'a str,
    challenge_id: u64,
) -> (event: Option<V12Event<'a>>)
    ensures
        event is None <==> result is Idle || result is InsufficientKeys,
        event matches Some(e) ==> (e matches V12Event::AuditOutcome {
            challenged_peer: peer,
            challenge_id: id,
            outcome,
            gate,
        } && peer == challenged_peer && id == challenge_id && match *result {
            AuditTickResult::Passed { .. } => outcome@ == "passed_subtree"@ && gate is None,
            AuditTickResult::Failed {
                evidence: FailureEvidence::AuditFailure { reason, .. },
            } => outcome@ == "failed"@ && gate is Some && gate->0@ == gate_name(reason),
            AuditTickResult::BootstrapClaim { .. } => outcome@ == "bootstrap_claim"@
                && gate is None,
            _ => false,
        }),
{
    match result {
        AuditTickResult::Passed { .. } => Some(
            audit_outcome(challenged_peer, challenge_id, "passed_subtree", None),
        ),
        AuditTickResult::Failed { evidence } => match evidence {
            FailureEvidence::AuditFailure { reason, .. } => Some(
                audit_outcome(
                    challenged_peer,
                    challenge_id,
                    "failed",
                    Some(audit_failure_gate(reason)),
                ),
            ),
        },
        AuditTickResult::BootstrapClaim { .. } => Some(
            audit_outcome(challenged_peer, challenge_id, "bootstrap_claim", None),
        ),
        AuditTickResult::Idle => None,
        AuditTickResult::InsufficientKeys => None,
    }
}

/// How many leaves are asked for, where the branch has so many: the configured number, brought
/// between the fewest and the most.
pub open spec fn byte_sample_size() -> u32 {
    if config::AUDIT_SPOTCHECK_COUNT < BYTE_SPOTCHECK_MIN {
        BYTE_SPOTCHECK_MIN
    } else if config::AUDIT_SPOTCHECK_COUNT > BYTE_SPOTCHECK_MAX {
        BYTE_SPOTCHECK_MAX
    } else {
        config::AUDIT_SPOTCHECK_COUNT
    }
}

/// The keys of leaves.
pub open spec fn leaf_keys(leaves: Seq<SubtreeLeaf>) -> Seq<XorName> {
    leaves.map_values(|leaf: SubtreeLeaf| leaf.key)
}

/// Whether `wanted` asks for the bytes of the sample of a branch.
pub open spec fn is_demand(
    wanted: BytesWanted,
    ctx: AuditCtx,
    config: ReplicationConfig,
    c: CommitmentView,
    leaves: Seq<SubtreeLeaf>,
    cuts: Seq<[u8; 32]>,
) -> bool {
    &&& wanted.sampled@ == sampled_leaves(leaves, ctx.nonce, c.key_count, byte_sample_size())
    &&& wanted.challenge.challenge_id == ctx.challenge_id
    &&& wanted.challenge.nonce == ctx.nonce
    &&& wanted.challenge.challenged_peer_id == ctx.challenged_peer
    &&& wanted.challenge.expected_commitment_hash == ctx.expected_commitment_hash
    &&& wanted.challenge.keys@ == leaf_keys(wanted.sampled@)
    &&& wanted.timeout.nanos == config::response_nanos(config, wanted.sampled.len())
    &&& wanted.commitment@ == c
    &&& wanted.proof_of_branch.leaves@ == leaves
    &&& wanted.proof_of_branch.sibling_cut_hashes@ == cuts
}

/// A sample of a branch that passed the gates is not empty, and holds between the fewest and the
/// most leaves, or all of a branch that has fewer.
pub proof fn sample_stays_in_band(
    c: CommitmentView,
    leaves: Seq<SubtreeLeaf>,
    cuts: Seq<[u8; 32]>,
    nonce: [u8; 32],
)
    requires
        subtree::structure_of(nonce, c, leaves, cuts) is Valid,
    ensures
        0 < sampled_leaves(leaves, nonce, c.key_count, byte_sample_size()).len()
            <= BYTE_SPOTCHECK_MAX,
        leaves.len() >= BYTE_SPOTCHECK_MIN ==> sampled_leaves(
            leaves,
            nonce,
            c.key_count,
            byte_sample_size(),
        ).len() >= BYTE_SPOTCHECK_MIN,
        forall|i: int|
            0 <= i < sampled_leaves(leaves, nonce, c.key_count, byte_sample_size()).len()
                ==> leaves.contains(
                #[trigger] sampled_leaves(leaves, nonce, c.key_count, byte_sample_size())[i],
            ),
{
    let n = c.key_count as nat;
    subtree::selection_holds_root_of_keys(nonce, n);
    let count = leaves.len() as u32;
    subtree::sample_is_exact(nonce, count, byte_sample_size());
    leaves_at_all(leaves, subtree::spotcheck_places(nonce, count, byte_sample_size()));
}

/// The bytes that bear out a leaf of a valid branch are those that were committed to under its
/// key, unless these two, or the two byte strings of `branch_collision`, are different and have
/// one digest. Entry `k` of the committed tree is that of the key and the digest of `committed`.
pub proof fn served_bytes_are_committed(
    nonce: [u8; 32],
    peer: [u8; 32],
    entries: Seq<(XorName, [u8; 32])>,
    c: CommitmentView,
    leaves: Seq<SubtreeLeaf>,
    cuts: Seq<[u8; 32]>,
    i: int,
    served: Seq<u8>,
    k: int,
    committed: Seq<u8>,
)
    requires
        commitment::committable(entries),
        c.root == commitment::tree_root(entries),
        c.key_count == entries.len(),
        subtree::structure_of(nonce, c, leaves, cuts) is Valid,
        0 <= i < leaves.len(),
        leaf_borne_out(leaves[i], nonce, peer, served),
        0 <= k < entries.len(),
        entries[k] == (leaves[i].key, crate::hashing::blake3_digest(committed)),
    ensures
        served == committed || collides((served, committed)) || collides(
            subtree::branch_collision(nonce, entries, leaves, cuts),
        ),
{
    subtree::valid_branch_is_committed(nonce, entries, c, leaves, cuts);
    if subtree::leaves_match_branch(nonce, entries, leaves) {
        let (h, j) = subtree::selected(nonce, entries.len());
        let place = (j * vstd::arithmetic::power2::pow2(h)) as int + i;
        assert(leaves[i].key == entries[place].0);
        crate::names::name_order_is_strict(entries[place].0, entries[k].0);
        if place < k {
            assert(crate::names::name_before(entries[place].0, entries[k].0));
        } else if k < place {
            assert(crate::names::name_before(entries[k].0, entries[place].0));
        }
    }
}

/// A branch passes the gates just where the commitment names the challenged peer, that is the digest
/// of the public key in it, the commitment is the one that was pinned, its signature is valid under
/// that key, and the branch rebuilds to its root. What is wrong with the commitment is found first,
/// and means that the peer repudiates it; a branch that does not rebuild is a mismatch.
pub proof fn gates_bind_answer_to_pinned_commitment(
    c: CommitmentView,
    leaves: Seq<SubtreeLeaf>,
    cuts: Seq<[u8; 32]>,
    nonce: [u8; 32],
    pin: [u8; 32],
    peer: [u8; 32],
)
    ensures
        ({
            let own = c.sender_peer_id == peer && crate::hashing::blake3_digest(c.sender_public_key)
                == peer && crate::hashing::blake3_digest(commitment::wire_bytes(c)) == pin
                && crate::ml_dsa::signature_valid(
                c.sender_public_key,
                commitment::DOMAIN_SIGNATURE.spec_bytes() + c.root@
                    + vstd::bytes::spec_u32_to_le_bytes(c.key_count) + c.sender_peer_id@
                    + c.sender_public_key,
                c.signature,
            );
            let rebuilds = subtree::structure_of(nonce, c, leaves, cuts)
                == StructureVerdict::Valid;
            structure_gate(c, leaves, cuts, nonce, pin, peer) == if !own {
                Some(AuditFailureReason::Rejected)
            } else if !rebuilds {
                Some(AuditFailureReason::DigestMismatch)
            } else {
                None
            }
        }),
{
}

/// The sample of a branch is made of its own leaves, at the places that the nonce draws among as
/// many as the branch has, in their order.
pub proof fn sample_is_taken_at_drawn_places(
    leaves: Seq<SubtreeLeaf>,
    nonce: [u8; 32],
    key_count: u32,
    wanted: u32,
    p: subtree::SubtreePath,
)
    requires
        p.is_selected(nonce, key_count as nat),
        leaves.len() == p.leaf_count,
    ensures
        ({
            let places = subtree::spotcheck_places(nonce, p.leaf_count, wanted);
            let sampled = sampled_leaves(leaves, nonce, key_count, wanted);
            &&& sampled.len() == if wanted <= p.leaf_count {
                wanted
            } else {
                p.leaf_count
            }
            &&& sampled.len() == places.len()
            &&& forall|i: int|
                0 <= i < sampled.len() ==> #[trigger] sampled[i] == leaves[places[i] as int]
        }),
{
    subtree::sample_is_exact(nonce, p.leaf_count, wanted);
    leaves_at_all(leaves, subtree::spotcheck_places(nonce, p.leaf_count, wanted));
}

/// The bytes of five leaves are asked for, where the branch has as many.
pub proof fn five_leaves_are_asked_for()
    ensures
        byte_sample_size() == 5,
{
}

/// The leaves behind references are the ones referred to, in their order.
pub proof fn referred_leaves_are_the_same(leaves: Seq<&SubtreeLeaf>)
    ensures
        leaf_values(leaves).len() == leaves.len(),
        forall|i: int| 0 <= i < leaves.len() ==> #[trigger] leaf_values(leaves)[i] == *leaves[i],
{
}

/// Where no branch can be selected, as many leaves are reckoned with as a large one has.
pub proof fn unknown_branch_is_reckoned_large(nonce: [u8; 32], key_count: u32)
    ensures
        key_count == 0 || key_count > 1_000_000 ==> branch_size(nonce, key_count) == 1000,
{
}

/// What is asked for are the bytes of the sampled leaves, one key for each, of the peer and for the
/// commitment and the nonce that the audit is about.
pub proof fn demand_is_for_sampled_leaves(
    wanted: BytesWanted,
    ctx: AuditCtx,
    config: ReplicationConfig,
    c: CommitmentView,
    leaves: Seq<SubtreeLeaf>,
    cuts: Seq<[u8; 32]>,
)
    requires
        is_demand(wanted, ctx, config, c, leaves, cuts),
    ensures
        wanted.challenge.keys@.len() == wanted.sampled@.len(),
        forall|i: int|
            0 <= i < wanted.sampled@.len() ==> #[trigger] wanted.challenge.keys@[i]
                == wanted.sampled@[i].key,
        wanted.sampled@ == sampled_leaves(leaves, ctx.nonce, c.key_count, 5),
        wanted.timeout.nanos == config::response_nanos(config, wanted.sampled.len()),
        wanted.challenge.challenge_id == ctx.challenge_id,
        wanted.challenge.nonce == ctx.nonce,
        wanted.challenge.challenged_peer_id == ctx.challenged_peer,
        wanted.challenge.expected_commitment_hash == ctx.expected_commitment_hash,
        wanted.commitment@ == c,
        wanted.proof_of_branch.leaves@ == leaves,
{
}

/// What a challenge says is what the auditor remembers of it, and it waits as long as it takes to
/// prove a branch of the size that the nonce selects.
pub proof fn challenge_is_what_is_remembered(
    start: AuditStart,
    config: ReplicationConfig,
    peer: PeerId,
    pin: [u8; 32],
    key_count: u32,
    nonce: [u8; 32],
    challenge_id: u64,
    p: subtree::SubtreePath,
)
    requires
        is_start(start, config, peer, pin, key_count, nonce, challenge_id),
        0 < key_count <= commitment::MAX_COMMITMENT_KEY_COUNT,
        p.is_selected(nonce, key_count as nat),
    ensures
        start.ctx.challenged_peer == peer && start.challenge.challenged_peer_id == peer,
        start.ctx.nonce == nonce && start.challenge.nonce == nonce,
        start.ctx.expected_commitment_hash == pin && start.challenge.expected_commitment_hash
            == pin,
        start.ctx.challenge_id == challenge_id && start.challenge.challenge_id == challenge_id,
        start.subtree_leaves == p.leaf_count,
        start.timeout.nanos == config::response_nanos(config, p.leaf_count as usize),
{
}

/// What the items say of a key is what the first of them says that is about it; nothing where none
/// is.
proof fn first_item_speaks(items: Seq<SubtreeByteItem>, key: XorName, from: int)
    requires
        0 <= from <= items.len(),
    ensures
        match item_for(items, key, from) {
            None => forall|i: int| from <= i < items.len() ==> key_in(#[trigger] items[i]) != key,
            Some(said) => exists|i: int|
                {
                    &&& from <= i < items.len()
                    &&& key_in(#[trigger] items[i]) == key
                    &&& forall|k: int| from <= k < i ==> key_in(#[trigger] items[k]) != key
                    &&& match items[i] {
                        SubtreeByteItem::Present { bytes, .. } => said == Some(bytes@),
                        SubtreeByteItem::Absent { .. } => said is None,
                    }
                },
        },
    decreases items.len() - from,
{
    if from < items.len() {
        if key_in(items[from]) != key {
            first_item_speaks(items, key, from + 1);
            if item_for(items, key, from + 1) is Some {
                let said = item_for(items, key, from + 1)->0;
                let i = choose|i: int|
                    {
                        &&& from + 1 <= i < items.len()
                        &&& key_in(#[trigger] items[i]) == key
                        &&& forall|k: int| from + 1 <= k < i ==> key_in(#[trigger] items[k]) != key
                        &&& match items[i] {
                            SubtreeByteItem::Present { bytes, .. } => said == Some(bytes@),
                            SubtreeByteItem::Absent { .. } => said is None,
                        }
                    };
                assert(key_in(items[i]) == key);
            }
        } else {
            assert(key_in(items[from]) == key);
        }
    }
}

/// The key that an item is about.
pub open spec fn key_in(item: SubtreeByteItem) -> XorName {
    match item {
        SubtreeByteItem::Present { key, .. } => key,
        SubtreeByteItem::Absent { key } => key,
    }
}

/// Whether among `items` the first one about a leaf's key holds bytes whose digest is the one in the
/// leaf and whose digest together with the nonce, the peer and the key is the other one in the leaf.
pub open spec fn right_bytes_served(
    leaf: SubtreeLeaf,
    nonce: [u8; 32],
    peer: [u8; 32],
    items: Seq<SubtreeByteItem>,
) -> bool {
    exists|k: int|
        {
            &&& 0 <= k < items.len()
            &&& forall|e: int| 0 <= e < k ==> key_in(#[trigger] items[e]) != leaf.key
            &&& (#[trigger] items[k]) matches SubtreeByteItem::Present { key, bytes } && key
                == leaf.key && crate::hashing::blake3_digest(bytes@) == leaf.bytes_hash
                && crate::hashing::blake3_digest(nonce@ + peer@ + leaf.key@ + bytes@)
                == leaf.nonced_hash
        }
}

/// A peer passes the second round just where a leaf was asked for and the right bytes were served
/// for every sampled leaf. A peer whose bytes are not the right ones does not match; one that
/// refuses, does not answer in time or answers something else fails for that reason.
pub proof fn passing_takes_right_bytes_for_every_leaf(
    sampled: Seq<SubtreeLeaf>,
    nonce: [u8; 32],
    peer: [u8; 32],
    round: ByteRound,
)
    ensures
        bytes_verdict(sampled, nonce, peer, round) is Pass <==> sampled.len() > 0 && (
        round matches ByteRound::Served(items) && forall|i: int|
            0 <= i < sampled.len() ==> right_bytes_served(
                #[trigger] sampled[i],
                nonce,
                peer,
                items@,
            )),
        sampled.len() <= usize::MAX ==> (bytes_verdict(sampled, nonce, peer, round) matches
            AuditVerdict::Pass { checked } ==> checked == sampled.len()),
        bytes_verdict(sampled, nonce, peer, round) matches AuditVerdict::Fail(reason) ==> reason
            == match round {
            ByteRound::Served(_) => AuditFailureReason::DigestMismatch,
            ByteRound::Rejected => AuditFailureReason::Rejected,
            ByteRound::Timeout => AuditFailureReason::Timeout,
            ByteRound::Malformed => AuditFailureReason::MalformedResponse,
        },
{
    if let ByteRound::Served(items) = round {
        assert forall|i: int| 0 <= i < sampled.len() implies item_bears_out(
            #[trigger] sampled[i],
            nonce,
            peer,
            items@,
        ) == right_bytes_served(sampled[i], nonce, peer, items@) by {
            let leaf = sampled[i];
            first_item_speaks(items@, leaf.key, 0);
            if right_bytes_served(leaf, nonce, peer, items@) {
                let k = choose|k: int|
                    {
                        &&& 0 <= k < items@.len()
                        &&& forall|e: int| 0 <= e < k ==> key_in(#[trigger] items@[e]) != leaf.key
                        &&& (#[trigger] items@[k]) matches SubtreeByteItem::Present { key, bytes }
                            && key == leaf.key && crate::hashing::blake3_digest(bytes@)
                            == leaf.bytes_hash && crate::hashing::blake3_digest(
                            nonce@ + peer@ + leaf.key@ + bytes@,
                        ) == leaf.nonced_hash
                    };
                assert(key_in(items@[k]) == leaf.key);
                assert(item_for(items@, leaf.key, 0) is Some);
                let said = item_for(items@, leaf.key, 0)->0;
                let i = choose|i: int|
                    {
                        &&& 0 <= i < items@.len()
                        &&& key_in(#[trigger] items@[i]) == leaf.key
                        &&& forall|k: int| 0 <= k < i ==> key_in(#[trigger] items@[k]) != leaf.key
                        &&& match items@[i] {
                            SubtreeByteItem::Present { bytes, .. } => said == Some(bytes@),
                            SubtreeByteItem::Absent { .. } => said is None,
                        }
                    };
                assert(i == k) by {
                    if i < k {
                        assert(key_in(items@[i]) != leaf.key);
                    } else if k < i {
                        assert(key_in(items@[k]) != leaf.key);
                    }
                }
            }
        }
    }
}

/// An answer to a demand for bytes counts only where it is to this very challenge. Then items are
/// checked, a refusal is one, and a claim to be starting up is worth no more than no answer.
pub proof fn byte_answers_are_told_apart(ctx: AuditCtx, reply: AuditReply)
    ensures
        reply is NoAnswer ==> byte_round_of(ctx, reply) is Timeout,
        reply is Unencodable || reply is Undecodable ==> byte_round_of(ctx, reply) is Malformed,
        reply matches AuditReply::Answer(body) ==> match body {
            ReplicationMessageBody::SubtreeByteResponse(
                SubtreeByteResponse::Items { challenge_id, items },
            ) if challenge_id == ctx.challenge_id => byte_round_of(ctx, reply)
                == ByteRound::Served(items),
            ReplicationMessageBody::SubtreeByteResponse(
                SubtreeByteResponse::Rejected { challenge_id, .. },
            ) if challenge_id == ctx.challenge_id => byte_round_of(ctx, reply) is Rejected,
            ReplicationMessageBody::SubtreeByteResponse(
                SubtreeByteResponse::Bootstrapping { challenge_id },
            ) if challenge_id == ctx.challenge_id => byte_round_of(ctx, reply) is Timeout,
            _ => byte_round_of(ctx, reply) is Malformed,
        },
{
}

/// An answer to a challenge counts only where it is to this very challenge. A peer that does not
/// answer has missed the deadline; one that refuses, or whose commitment is not the pinned one of
/// its own, repudiates; one whose branch does not rebuild does not match; one that claims to be
/// starting up is noted; and only one whose branch passes every gate is asked for bytes.
pub proof fn answers_are_told_apart(
    step: AuditStep,
    ctx: AuditCtx,
    config: ReplicationConfig,
    reply: AuditReply,
)
    requires
        follows_reply(step, ctx, config, reply),
    ensures
        reply is Unencodable ==> step == AuditStep::Done(AuditTickResult::Idle),
        reply is NoAnswer ==> failed_with(step, ctx, AuditFailureReason::Timeout),
        reply is Undecodable ==> failed_with(step, ctx, AuditFailureReason::MalformedResponse),
        reply matches AuditReply::Answer(body) ==> match body {
            ReplicationMessageBody::SubtreeAuditResponse(
                SubtreeAuditResponse::Bootstrapping { challenge_id },
            ) if challenge_id == ctx.challenge_id => step == AuditStep::Done(
                AuditTickResult::BootstrapClaim { peer: ctx.challenged_peer },
            ),
            ReplicationMessageBody::SubtreeAuditResponse(
                SubtreeAuditResponse::Rejected { challenge_id, .. },
            ) if challenge_id == ctx.challenge_id => failed_with(
                step,
                ctx,
                AuditFailureReason::Rejected,
            ),
            ReplicationMessageBody::SubtreeAuditResponse(
                SubtreeAuditResponse::Proof { challenge_id, commitment, proof_of_branch },
            ) if challenge_id == ctx.challenge_id => match structure_gate(
                commitment@,
                proof_of_branch.leaves@,
                proof_of_branch.sibling_cut_hashes@,
                ctx.nonce,
                ctx.expected_commitment_hash,
                ctx.challenged_peer,
            ) {
                Some(reason) => failed_with(step, ctx, reason),
                None => step matches AuditStep::AskBytes(wanted) && wanted.sampled@
                    == sampled_leaves(
                    proof_of_branch.leaves@,
                    ctx.nonce,
                    commitment@.key_count,
                    5,
                ) && wanted.challenge.nonce == ctx.nonce && wanted.commitment@ == commitment@
                    && wanted.proof_of_branch.leaves@ == proof_of_branch.leaves@,
            },
            _ => failed_with(step, ctx, AuditFailureReason::MalformedResponse),
        },
{
}

/// Whether a step ends the audit with a failure of the challenged peer for this reason.
pub open spec fn failed_with(step: AuditStep, ctx: AuditCtx, reason: AuditFailureReason) -> bool {
    step matches AuditStep::Done(
        AuditTickResult::Failed {
            evidence: FailureEvidence::AuditFailure {
                challenge_id,
                challenged_peer,
                confirmed_failed_keys,
                reason: given,
            },
        },
    ) && challenge_id == ctx.challenge_id && challenged_peer == ctx.challenged_peer
        && confirmed_failed_keys@.len() == 0 && given == reason
}

/// Every reason of a failure has a word of its own.
pub proof fn gate_names_differ(a: AuditFailureReason, b: AuditFailureReason)
    requires
        a != b,
    ensures
        gate_name(a) != gate_name(b),
        gate_name(AuditFailureReason::Timeout) == "timeout"@,
        gate_name(AuditFailureReason::MalformedResponse) == "malformed_response"@,
        gate_name(AuditFailureReason::DigestMismatch) == "digest_mismatch"@,
        gate_name(AuditFailureReason::KeyAbsent) == "key_absent"@,
        gate_name(AuditFailureReason::Rejected) == "rejected"@,
{
    reveal_strlit("timeout");
    reveal_strlit("malformed_response");
    reveal_strlit("digest_mismatch");
    reveal_strlit("key_absent");
    reveal_strlit("rejected");
    assert(gate_name(a).len() != gate_name(b).len());
}

/// A pass takes no credit from others, as long as there is room: every proof by another peer is
/// there afterwards, as often as before.
pub proof fn passing_keeps_credit_of_others(
    before: Seq<HolderProof>,
    leaves: Seq<SubtreeLeaf>,
    key: XorName,
    proved: HolderProof,
)
    requires
        before.len() < 16,
    ensures
        after_credits(before, leaves, key, proved).filter(
            crate::replication::recent_provers::by_others(proved.peer),
        ) == before.filter(crate::replication::recent_provers::by_others(proved.peer)),
    decreases leaves.len(),
{
    let keep = crate::replication::recent_provers::by_others(proved.peer);
    if leaves.len() > 0 {
        passing_keeps_credit_of_others(before, leaves.drop_last(), key, proved);
        let rest = after_credits(before, leaves.drop_last(), key, proved);
        let others = rest.filter(keep);
        assert(others.len() <= before.len()) by {
            broadcast use vstd::seq_lib::group_filter_ensures;

        }
        if leaves.last().key == key {
            let after = with_proof(rest, proved);
            assert(after == others.push(proved));
            reveal(Seq::filter);
            assert(after.drop_last() =~= others);
            assert(after.filter(keep) == others.filter(keep));
            kept_stay_kept(rest, keep);
        }
    }
}

/// Filtering again keeps all that was kept.
proof fn kept_stay_kept(items: Seq<HolderProof>, keep: spec_fn(HolderProof) -> bool)
    ensures
        items.filter(keep).filter(keep) == items.filter(keep),
    decreases items.len(),
{
    reveal(Seq::filter);
    if items.len() > 0 {
        kept_stay_kept(items.drop_last(), keep);
        let inner = items.drop_last().filter(keep);
        if keep(items.last()) {
            assert(inner.push(items.last()).drop_last() =~= inner);
        }
    }
}

/// A pass credits nobody for a key that is not in the branch, and takes no credit from anyone for
/// it.
pub proof fn passing_credits_nothing_else(
    before: Seq<HolderProof>,
    leaves: Seq<SubtreeLeaf>,
    key: XorName,
    proved: HolderProof,
)
    requires
        forall|i: int| 0 <= i < leaves.len() ==> (#[trigger] leaves[i]).key != key,
    ensures
        after_credits(before, leaves, key, proved) == before,
    decreases leaves.len(),
{
    if leaves.len() > 0 {
        let rest = leaves.drop_last();
        assert forall|i: int| 0 <= i < rest.len() implies (#[trigger] rest[i]).key != key by {
            assert(rest[i] == leaves[i]);
        }
        passing_credits_nothing_else(before, rest, key, proved);
        assert(leaves[leaves.len() - 1].key != key);
    }
}

/// Copy leaves from references to them.
fn copy_leaves(leaves: &Vec<&SubtreeLeaf>) -> (copies: Vec<SubtreeLeaf>)
    ensures
        copies@ == leaf_values(leaves@),
{
    let mut copies: Vec<SubtreeLeaf> = Vec::new();
    let mut i: usize = 0;
    while i < leaves.len()
        invariant
            i <= leaves.len(),
            copies.len() == i,
            forall|k: int| 0 <= k < i ==> copies@[k] == *leaves@[k],
        decreases leaves.len() - i,
    {
        copies.push(*leaves[i]);
        i += 1;
    }
    assert(copies@ =~= leaf_values(leaves@));
    copies
}

/// The keys of the leaves.
fn keys_of(leaves: &Vec<SubtreeLeaf>) -> (keys: Vec<XorName>)
    ensures
        keys@ == leaf_keys(leaves@),
{
    let mut keys: Vec<XorName> = Vec::new();
    let mut i: usize = 0;
    while i < leaves.len()
        invariant
            i <= leaves.len(),
            keys.len() == i,
            forall|k: int| 0 <= k < i ==> keys@[k] == leaves@[k].key,
        decreases leaves.len() - i,
    {
        keys.push(leaves[i].key);
        i += 1;
    }
    assert(keys@ =~= leaf_keys(leaves@));
    keys
}

/// Check the branch that a peer answered with and, where it is as committed, ask for the bytes of
/// some of its leaves.
pub fn verify_subtree_response(
    ctx: &AuditCtx,
    config: &ReplicationConfig,
    commitment: StorageCommitment,
    proof_of_branch: SubtreeProof,
) -> (step: AuditStep)
    ensures
        match structure_gate(
            commitment@,
            proof_of_branch.leaves@,
            proof_of_branch.sibling_cut_hashes@,
            ctx.nonce,
            ctx.expected_commitment_hash,
            ctx.challenged_peer,
        ) {
            Some(reason) => step matches AuditStep::Done(result) && is_failure(
                result,
                *ctx,
                reason,
            ),
            None => step matches AuditStep::AskBytes(wanted) && is_demand(
                wanted,
                *ctx,
                *config,
                commitment@,
                proof_of_branch.leaves@,
                proof_of_branch.sibling_cut_hashes@,
            ),
        },
{
    match evaluate_subtree_structure(
        &commitment,
        &proof_of_branch,
        &ctx.nonce,
        &ctx.expected_commitment_hash,
        &ctx.challenged_peer,
    ) {
        Err(reason) => return AuditStep::Done(failed(ctx, reason)),
        Ok(()) => {},
    }
    proof {
        sample_stays_in_band(
            commitment@,
            proof_of_branch.leaves@,
            proof_of_branch.sibling_cut_hashes@,
            ctx.nonce,
        );
    }
    let configured: u32 = config.audit_spotcheck_count();
    let sample_n: u32 = if configured < BYTE_SPOTCHECK_MIN {
        BYTE_SPOTCHECK_MIN
    } else if configured > BYTE_SPOTCHECK_MAX {
        BYTE_SPOTCHECK_MAX
    } else {
        configured
    };
    let sampled = copy_leaves(
        &spotcheck_leaves(&proof_of_branch, &ctx.nonce, commitment.key_count, sample_n),
    );
    if sampled.len() == 0 {
        return AuditStep::Done(failed(ctx, AuditFailureReason::DigestMismatch));
    }
    let keys = keys_of(&sampled);
    let timeout = config.audit_response_timeout(keys.len());
    AuditStep::AskBytes(
        BytesWanted {
            challenge: SubtreeByteChallenge {
                challenge_id: ctx.challenge_id,
                nonce: ctx.nonce,
                challenged_peer_id: ctx.challenged_peer,
                expected_commitment_hash: ctx.expected_commitment_hash,
                keys,
            },
            timeout,
            sampled,
            commitment,
            proof_of_branch,
        },
    )
}

/// Whether `step` is what follows the answer to a challenge.
pub open spec fn follows_reply(
    step: AuditStep,
    ctx: AuditCtx,
    config: ReplicationConfig,
    reply: AuditReply,
) -> bool {
    match reply {
        AuditReply::Unencodable => step == AuditStep::Done(AuditTickResult::Idle),
        AuditReply::NoAnswer => step matches AuditStep::Done(result) && is_failure(
            result,
            ctx,
            AuditFailureReason::Timeout,
        ),
        AuditReply::Answer(
            ReplicationMessageBody::SubtreeAuditResponse(response),
        ) => match response {
            SubtreeAuditResponse::Bootstrapping { challenge_id } => if challenge_id
                == ctx.challenge_id {
                step == AuditStep::Done(
                    AuditTickResult::BootstrapClaim { peer: ctx.challenged_peer },
                )
            } else {
                is_malformed(step, ctx)
            },
            SubtreeAuditResponse::Rejected { challenge_id, .. } => if challenge_id
                == ctx.challenge_id {
                step matches AuditStep::Done(result) && is_failure(
                    result,
                    ctx,
                    AuditFailureReason::Rejected,
                )
            } else {
                is_malformed(step, ctx)
            },
            SubtreeAuditResponse::Proof {
                challenge_id,
                commitment,
                proof_of_branch,
            } => if challenge_id == ctx.challenge_id {
                match structure_gate(
                    commitment@,
                    proof_of_branch.leaves@,
                    proof_of_branch.sibling_cut_hashes@,
                    ctx.nonce,
                    ctx.expected_commitment_hash,
                    ctx.challenged_peer,
                ) {
                    Some(reason) => step matches AuditStep::Done(result) && is_failure(
                        result,
                        ctx,
                        reason,
                    ),
                    None => step matches AuditStep::AskBytes(wanted) && is_demand(
                        wanted,
                        ctx,
                        config,
                        commitment@,
                        proof_of_branch.leaves@,
                        proof_of_branch.sibling_cut_hashes@,
                    ),
                }
            } else {
                is_malformed(step, ctx)
            },
        },
        _ => is_malformed(step, ctx),
    }
}

/// Whether `step` ends the audit because the answer is none to the challenge.
pub open spec fn is_malformed(step: AuditStep, ctx: AuditCtx) -> bool {
    step matches AuditStep::Done(result) && is_failure(
        result,
        ctx,
        AuditFailureReason::MalformedResponse,
    )
}

/// Decide what follows the answer to a challenge. The commitment is one that the peer has just
/// published, so a peer that does not answer for it has failed.
pub fn dispatch_subtree_response(
    reply: AuditReply,
    ctx: &AuditCtx,
    config: &ReplicationConfig,
) -> (step: AuditStep)
    ensures
        follows_reply(step, *ctx, *config, reply),
{
    match reply {
        AuditReply::Unencodable => AuditStep::Done(AuditTickResult::Idle),
        AuditReply::NoAnswer => AuditStep::Done(failed(ctx, AuditFailureReason::Timeout)),
        AuditReply::Answer(
            ReplicationMessageBody::SubtreeAuditResponse(response),
        ) => match response {
            SubtreeAuditResponse::Bootstrapping { challenge_id } => {
                if challenge_id != ctx.challenge_id {
                    return AuditStep::Done(failed(ctx, AuditFailureReason::MalformedResponse));
                }
                AuditStep::Done(AuditTickResult::BootstrapClaim { peer: ctx.challenged_peer })
            },
            SubtreeAuditResponse::Rejected { challenge_id, reason: _ } => {
                if challenge_id != ctx.challenge_id {
                    return AuditStep::Done(failed(ctx, AuditFailureReason::MalformedResponse));
                }
                AuditStep::Done(failed(ctx, AuditFailureReason::Rejected))
            },
            SubtreeAuditResponse::Proof { challenge_id, commitment, proof_of_branch } => {
                if challenge_id != ctx.challenge_id {
                    return AuditStep::Done(failed(ctx, AuditFailureReason::MalformedResponse));
                }
                verify_subtree_response(ctx, config, commitment, proof_of_branch)
            },
        },
        _ => AuditStep::Done(failed(ctx, AuditFailureReason::MalformedResponse)),
    }
}

/// What the answer to a demand for bytes amounts to. A peer that claims to be starting up after it
/// has answered the first challenge counts as one that did not answer.
pub open spec fn byte_round_of(ctx: AuditCtx, reply: AuditReply) -> ByteRound {
    match reply {
        AuditReply::NoAnswer => ByteRound::Timeout,
        AuditReply::Answer(
            ReplicationMessageBody::SubtreeByteResponse(response),
        ) => match response {
            SubtreeByteResponse::Items { challenge_id, items } => if challenge_id
                == ctx.challenge_id {
                ByteRound::Served(items)
            } else {
                ByteRound::Malformed
            },
            SubtreeByteResponse::Rejected { challenge_id, .. } => if challenge_id
                == ctx.challenge_id {
                ByteRound::Rejected
            } else {
                ByteRound::Malformed
            },
            SubtreeByteResponse::Bootstrapping { challenge_id } => if challenge_id
                == ctx.challenge_id {
                ByteRound::Timeout
            } else {
                ByteRound::Malformed
            },
        },
        _ => ByteRound::Malformed,
    }
}

/// Read the answer to a demand for bytes.
pub fn request_byte_proof(ctx: &AuditCtx, reply: AuditReply) -> (round: ByteRound)
    ensures
        round == byte_round_of(*ctx, reply),
{
    match reply {
        AuditReply::NoAnswer => ByteRound::Timeout,
        AuditReply::Answer(
            ReplicationMessageBody::SubtreeByteResponse(response),
        ) => match response {
            SubtreeByteResponse::Items { challenge_id, items } => if challenge_id
                == ctx.challenge_id {
                ByteRound::Served(items)
            } else {
                ByteRound::Malformed
            },
            SubtreeByteResponse::Rejected { challenge_id, reason: _ } => if challenge_id
                == ctx.challenge_id {
                ByteRound::Rejected
            } else {
                ByteRound::Malformed
            },
            SubtreeByteResponse::Bootstrapping { challenge_id } => if challenge_id
                == ctx.challenge_id {
                ByteRound::Timeout
            } else {
                ByteRound::Malformed
            },
        },
        _ => ByteRound::Malformed,
    }
}

/// What one item says of `key`: nothing, that the peer does not have it, or its bytes.
pub open spec fn said_of(item: SubtreeByteItem, key: XorName) -> Option<Option<Seq<u8>>> {
    match item {
        SubtreeByteItem::Present { key: k, bytes } => if k == key {
            Some(Some(bytes@))
        } else {
            None
        },
        SubtreeByteItem::Absent { key: k } => if k == key {
            Some(None)
        } else {
            None
        },
    }
}

/// What the first item about `key` says, from place `from` on.
pub open spec fn item_for(items: Seq<SubtreeByteItem>, key: XorName, from: int) -> Option<
    Option<Seq<u8>>,
>
    decreases items.len() - from,
{
    if from < 0 || from >= items.len() {
        None
    } else if said_of(items[from], key) is Some {
        said_of(items[from], key)
    } else {
        item_for(items, key, from + 1)
    }
}

/// The bytes behind nested options.
pub open spec fn nested_view(out: Option<Option<Vec<u8>>>) -> Option<Option<Seq<u8>>> {
    match out {
        Some(Some(bytes)) => Some(Some(bytes@)),
        Some(None) => Some(None),
        None => None,
    }
}

/// Find what the peer served for `key`.
fn find_item(items: &Vec<SubtreeByteItem>, key: &XorName) -> (out: Option<Option<Vec<u8>>>)
    ensures
        nested_view(out) == item_for(items@, *key, 0),
{
    let mut i: usize = 0;
    while i < items.len()
        invariant
            i <= items.len(),
            item_for(items@, *key, 0) == item_for(items@, *key, i as int),
        decreases items.len() - i,
    {
        match &items[i] {
            SubtreeByteItem::Present { key: k, bytes } => {
                if same_bytes32(k, key) {
                    return Some(Some(vstd::slice::slice_to_vec(bytes.as_slice())));
                }
            },
            SubtreeByteItem::Absent { key: k } => {
                if same_bytes32(k, key) {
                    return Some(None);
                }
            },
        }
        i += 1;
    }
    None
}

/// Whether every sampled leaf is borne out by what the peer served for it.
pub open spec fn all_borne_out(
    sampled: Seq<SubtreeLeaf>,
    nonce: [u8; 32],
    peer: [u8; 32],
    items: Seq<SubtreeByteItem>,
) -> bool {
    forall|i: int|
        0 <= i < sampled.len() ==> item_bears_out(#[trigger] sampled[i], nonce, peer, items)
}

/// Whether a leaf is borne out by what the peer served for it.
pub open spec fn item_bears_out(
    leaf: SubtreeLeaf,
    nonce: [u8; 32],
    peer: [u8; 32],
    items: Seq<SubtreeByteItem>,
) -> bool {
    item_for(items, leaf.key, 0) matches Some(Some(content)) && leaf_borne_out(
        leaf,
        nonce,
        peer,
        content,
    )
}

/// What the answer to the demand for bytes shows. Only a peer of which at least one leaf was checked
/// passes.
pub open spec fn bytes_verdict(
    sampled: Seq<SubtreeLeaf>,
    nonce: [u8; 32],
    peer: [u8; 32],
    round: ByteRound,
) -> AuditVerdict {
    match round {
        ByteRound::Served(items) => if sampled.len() > 0 && all_borne_out(
            sampled,
            nonce,
            peer,
            items@,
        ) {
            AuditVerdict::Pass { checked: sampled.len() as usize }
        } else {
            AuditVerdict::Fail(AuditFailureReason::DigestMismatch)
        },
        ByteRound::Rejected => AuditVerdict::Fail(AuditFailureReason::Rejected),
        ByteRound::Timeout => AuditVerdict::Fail(AuditFailureReason::Timeout),
        ByteRound::Malformed => AuditVerdict::Fail(AuditFailureReason::MalformedResponse),
    }
}

/// Judge the answer to the demand for bytes.
pub fn judge_bytes(ctx: &AuditCtx, sampled: &Vec<SubtreeLeaf>, round: ByteRound) -> (verdict:
    AuditVerdict)
    ensures
        verdict == bytes_verdict(sampled@, ctx.nonce, ctx.challenged_peer, round),
{
    match round {
        ByteRound::Served(items) => {
            let mut leaves: Vec<&SubtreeLeaf> = Vec::new();
            let mut i: usize = 0;
            while i < sampled.len()
                invariant
                    i <= sampled.len(),
                    leaves.len() == i,
                    forall|k: int| 0 <= k < i ==> *leaves@[k] == sampled@[k],
                decreases sampled.len() - i,
            {
                leaves.push(&sampled[i]);
                i += 1;
            }
            let served = |key: &XorName| -> (out: Option<Option<Vec<u8>>>)
                ensures
                    nested_view(out) == item_for(items@, *key, 0),
                { find_item(&items, key) };
            let verdict = verify_byte_response(
                leaves.as_slice(),
                &ctx.nonce,
                &ctx.challenged_peer,
                served,
            );
            proof {
                if verdict is Pass {
                    assert forall|i: int| 0 <= i < sampled.len() implies item_bears_out(
                        #[trigger] sampled@[i],
                        ctx.nonce,
                        ctx.challenged_peer,
                        items@,
                    ) by {
                        assert(answer_bears_out(
                            served,
                            *leaves@[i],
                            ctx.nonce,
                            ctx.challenged_peer,
                            true,
                        ));
                    }
                } else if leaves.len() > 0 {
                    let i = choose|i: int|
                        0 <= i < leaves.len() && answer_bears_out(
                            served,
                            *(#[trigger] leaves@[i]),
                            ctx.nonce,
                            ctx.challenged_peer,
                            false,
                        );
                    assert(!item_bears_out(
                        sampled@[i],
                        ctx.nonce,
                        ctx.challenged_peer,
                        items@,
                    ));
                }
            }
            verdict
        },
        ByteRound::Rejected => AuditVerdict::Fail(AuditFailureReason::Rejected),
        ByteRound::Timeout => AuditVerdict::Fail(AuditFailureReason::Timeout),
        ByteRound::Malformed => AuditVerdict::Fail(AuditFailureReason::MalformedResponse),
    }
}

/// The proofs of holders of `key` after a peer was credited for each of the leaves in turn.
pub open spec fn after_credits(
    before: Seq<HolderProof>,
    leaves: Seq<SubtreeLeaf>,
    key: XorName,
    proved: HolderProof,
) -> Seq<HolderProof>
    decreases leaves.len(),
{
    if leaves.len() == 0 {
        before
    } else {
        let rest = after_credits(before, leaves.drop_last(), key, proved);
        if leaves.last().key == key {
            with_proof(rest, proved)
        } else {
            rest
        }
    }
}

/// A peer that passed is credited as a holder of every key of the branch, under the pinned
/// commitment.
pub proof fn passing_credits_every_leaf(
    before: Seq<HolderProof>,
    leaves: Seq<SubtreeLeaf>,
    i: int,
    proved: HolderProof,
)
    requires
        0 <= i < leaves.len(),
    ensures
        credits(
            after_credits(before, leaves, leaves[i].key, proved),
            proved.peer,
            proved.commitment_hash,
            proved.proved_at,
        ),
    decreases leaves.len(),
{
    let key = leaves[i].key;
    if leaves.last().key == key {
        crate::replication::recent_provers::recorded_proof_credits(
            after_credits(before, leaves.drop_last(), key, proved),
            proved,
        );
    } else {
        passing_credits_every_leaf(before, leaves.drop_last(), i, proved);
    }
}

/// Credit a peer as a holder of the keys of a branch.
pub fn credit_holder(
    provers: &mut RecentProvers,
    leaves: &Vec<SubtreeLeaf>,
    peer: &PeerId,
    pin: &[u8; 32],
    now: Instant,
)
    ensures
        forall|key: XorName| #[trigger]
            final(provers).proofs_of(key) == after_credits(
                old(provers).proofs_of(key),
                leaves@,
                key,
                HolderProof { peer: *peer, commitment_hash: *pin, proved_at: now },
            ),
{
    let ghost proved = HolderProof { peer: *peer, commitment_hash: *pin, proved_at: now };
    let ghost before = *provers;
    let mut i: usize = 0;
    assert(leaves@.take(0) =~= Seq::empty());
    while i < leaves.len()
        invariant
            i <= leaves.len(),
            proved == (HolderProof { peer: *peer, commitment_hash: *pin, proved_at: now }),
            forall|key: XorName| #[trigger]
                provers.proofs_of(key) == after_credits(
                    before.proofs_of(key),
                    leaves@.take(i as int),
                    key,
                    proved,
                ),
        decreases leaves.len() - i,
    {
        provers.record_proof(leaves[i].key, *peer, *pin, now);
        proof {
            assert(leaves@.take(i + 1).drop_last() =~= leaves@.take(i as int));
            assert(leaves@.take(i + 1).last() == leaves@[i as int]);
        }
        i += 1;
    }
    assert(leaves@.take(i as int) =~= leaves@);
}

/// End an audit whose branch was as committed, by the answer to the demand for bytes. A peer that
/// passes is credited as a holder of every key of the branch.
pub fn conclude_subtree_audit(
    ctx: &AuditCtx,
    wanted: &BytesWanted,
    round: ByteRound,
    provers: &mut RecentProvers,
    now: Instant,
) -> (result: AuditTickResult)
    ensures
        match bytes_verdict(wanted.sampled@, ctx.nonce, ctx.challenged_peer, round) {
            AuditVerdict::Fail(reason) => is_failure(result, *ctx, reason) && *final(provers)
                == *old(provers),
            AuditVerdict::Pass { checked } => {
                &&& result == (AuditTickResult::Passed {
                    challenged_peer: ctx.challenged_peer,
                    keys_checked: checked,
                })
                &&& forall|key: XorName| #[trigger]
                    final(provers).proofs_of(key) == after_credits(
                        old(provers).proofs_of(key),
                        wanted.proof_of_branch.leaves@,
                        key,
                        HolderProof {
                            peer: ctx.challenged_peer,
                            commitment_hash: commitment::commitment_digest(wanted.commitment@),
                            proved_at: now,
                        },
                    )
            },
        },
{
    match judge_bytes(ctx, &wanted.sampled, round) {
        AuditVerdict::Fail(reason) => failed(ctx, reason),
        AuditVerdict::Pass { checked } => {
            if let Some(pin) = commitment_hash(&wanted.commitment) {
                credit_holder(
                    provers,
                    &wanted.proof_of_branch.leaves,
                    &ctx.challenged_peer,
                    &pin,
                    now,
                );
            }
            AuditTickResult::Passed {
                challenged_peer: ctx.challenged_peer,
                keys_checked: checked,
            }
        },
    }
}

/// Whether most of a branch is far from the auditor. It is only observed, and no peer is penalized
/// for it.
pub fn observe_closeness(far: usize, total: usize) -> (suspicious: bool)
    ensures
        suspicious == (total > 0 && far * 2 > total),
{
    total > 0 && far as u128 * 2 > total as u128
}

} // verus!
