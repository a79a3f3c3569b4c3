//! How a node answers audits of what it has committed to.
//!
//! A node answers only for commitments that it has published lately, and only with what it stores.

use crate::adversary::AdversaryMode;
use crate::ant_protocol::XorName;
use crate::hashing::{append, blake3_hash, hex_encode, hex_text, same_bytes32};
use crate::replication::audit::{all_borne_out, byte_sample_size, item_bears_out, item_for};
use crate::replication::audit::{leaf_keys, said_of, sample_stays_in_band, sampled_leaves};
use crate::replication::audit::structure_gate;
use crate::replication::commitment;
use crate::replication::commitment_state::{BuiltCommitment, ResponderCommitmentState};
use crate::replication::commitment_state::RetentionView;
use crate::replication::config::MAX_SLICE_OPENINGS;
use crate::replication::protocol::{SubtreeAuditChallenge, SubtreeAuditResponse};
use crate::replication::protocol::{SubtreeByteChallenge, SubtreeByteItem, SubtreeByteResponse};
use crate::replication::protocol::{SubtreeSliceChallenge, SubtreeSliceItem, SubtreeSliceOpening};
use crate::replication::protocol::SubtreeSliceResponse;
use crate::replication::slice::{extract_block_slice, nonced_block_siblings};
use crate::replication::slice;
use crate::replication::subtree::{has_bytes, is_first_lacking, subtree_leaf, subtree_plan};
use crate::replication::subtree::{SubtreeLeaf, SubtreeProof};
use crate::replication::subtree;
use crate::replication::types::PeerId;
use std::sync::Arc;
use vstd::prelude::*;
use vstd::string::*;

verus! {

/// Whether and how a node answers a challenge.
pub enum ChallengeGate {
    /// It says that it is starting up.
    Bootstrapping,
    /// It does not answer, for this reason.
    Rejected(String),
    /// It answers for a commitment.
    Open {
        /// The commitment.
        built: Arc<BuiltCommitment>,
        /// Whether it takes longer than any auditor waits.
        stall: bool,
    },
}

/// What is to be seen of a gate.
pub enum GateView {
    /// The node says that it is starting up.
    Bootstrapping,
    /// It does not answer, for this reason.
    Rejected(Seq<char>),
    /// It answers for the pinned commitment.
    Open,
}

/// Whether and how a node answers a challenge to `challenged` under the commitment `pin`.
pub open spec fn gate_of(
    challenged: [u8; 32],
    pin: [u8; 32],
    own: PeerId,
    is_bootstrapping: bool,
    state: Option<&ResponderCommitmentState>,
    mode: Option<AdversaryMode>,
) -> GateView {
    if is_bootstrapping || mode == Some(AdversaryMode::BootstrapShield) {
        GateView::Bootstrapping
    } else if challenged != own {
        GateView::Rejected("challenged_peer_id does not match this node"@)
    } else {
        match state {
            None => GateView::Rejected("no commitment state"@),
            Some(held) => if held@.answerable(pin) {
                GateView::Open
            } else {
                GateView::Rejected("unknown commitment hash"@)
            },
        }
    }
}

/// Decide whether and how a node answers a challenge. Only a relay stalls.
pub fn open_challenge(
    challenged_peer_id: &[u8; 32],
    expected_commitment_hash: &[u8; 32],
    self_peer_id: &PeerId,
    is_bootstrapping: bool,
    commitment_state: Option<&ResponderCommitmentState>,
    mode: Option<AdversaryMode>,
) -> (gate: ChallengeGate)
    ensures
        match gate_of(
            *challenged_peer_id,
            *expected_commitment_hash,
            *self_peer_id,
            is_bootstrapping,
            commitment_state,
            mode,
        ) {
            GateView::Bootstrapping => gate is Bootstrapping,
            GateView::Rejected(text) => gate matches ChallengeGate::Rejected(reason) && reason@
                == text,
            GateView::Open => gate matches ChallengeGate::Open { built, stall }
                && built.digest() == *expected_commitment_hash
                && commitment_state->0@.slots.contains(*built) && stall == (mode == Some(
                AdversaryMode::Relay,
            )),
        },
{
    if is_bootstrapping || matches!(mode, Some(AdversaryMode::BootstrapShield)) {
        return ChallengeGate::Bootstrapping;
    }
    if !same_bytes32(challenged_peer_id, self_peer_id) {
        return ChallengeGate::Rejected("challenged_peer_id does not match this node".to_owned());
    }
    let state = match commitment_state {
        Some(state) => state,
        None => return ChallengeGate::Rejected("no commitment state".to_owned()),
    };
    match state.lookup_by_hash(expected_commitment_hash) {
        Some(built) => ChallengeGate::Open {
            built,
            stall: matches!(mode, Some(AdversaryMode::Relay)),
        },
        None => ChallengeGate::Rejected("unknown commitment hash".to_owned()),
    }
}

/// A node that is not starting up, nor told to say so, answers a challenge just where it is the one
/// that is challenged and it can still answer for the commitment that is pinned; a node that is
/// starting up says so, whatever it is asked.
pub proof fn challenges_are_answered_for_held_commitments(
    challenged: [u8; 32],
    pin: [u8; 32],
    own: PeerId,
    is_bootstrapping: bool,
    state: Option<&ResponderCommitmentState>,
    mode: Option<AdversaryMode>,
)
    ensures
        ({
            let gate = gate_of(challenged, pin, own, is_bootstrapping, state, mode);
            let shielded = is_bootstrapping || mode == Some(AdversaryMode::BootstrapShield);
            let held = state matches Some(s) && exists|i: int|
                0 <= i < s@.slots.len() && (#[trigger] s@.slots[i]).digest() == pin;
            &&& gate is Bootstrapping <==> shielded
            &&& gate is Open <==> !shielded && challenged == own && held
            &&& gate matches GateView::Rejected(reason) ==> reason == if challenged != own {
                "challenged_peer_id does not match this node"@
            } else if state is None {
                "no commitment state"@
            } else {
                "unknown commitment hash"@
            }
        }),
{
}

/// What a node that only claims to hold a chunk serves for it.
pub open spec fn made_up(key: XorName) -> Seq<u8> {
    crate::hashing::blake3_digest(key@)@ + "adversary-fake-storage".spec_bytes()
}

/// What a node serves that has `bytes` for a key.
pub open spec fn served_bytes(mode: Option<AdversaryMode>, key: XorName, bytes: Seq<u8>) -> Seq<
    u8,
> {
    if mode == Some(AdversaryMode::FakeStorage) {
        made_up(key)
    } else {
        bytes
    }
}

/// A node serves what it stores, unless it was told to make bytes up.
pub proof fn stored_bytes_are_served(mode: Option<AdversaryMode>, key: XorName, bytes: Seq<u8>)
    ensures
        mode != Some(AdversaryMode::FakeStorage) ==> served_bytes(mode, key, bytes) == bytes,
        mode == Some(AdversaryMode::FakeStorage) ==> served_bytes(mode, key, bytes)
            == crate::hashing::blake3_digest(key@)@ + "adversary-fake-storage".spec_bytes(),
{
}

/// Put the bytes together that a node serves.
fn bytes_to_serve(mode: Option<AdversaryMode>, key: &XorName, bytes: Vec<u8>) -> (served: Vec<u8>)
    ensures
        served@ == served_bytes(mode, *key, bytes@),
{
    if matches!(mode, Some(AdversaryMode::FakeStorage)) {
        let digest = blake3_hash(key.as_slice());
        let mut garbage: Vec<u8> = Vec::new();
        append(&mut garbage, digest.as_slice());
        append(&mut garbage, "adversary-fake-storage".as_bytes());
        assert(garbage@ =~= made_up(*key));
        garbage
    } else {
        bytes
    }
}

/// Whether `bytes_for` can give bytes of which a node makes `leaf` for `key`.
pub open spec fn leaf_answered<F: Fn(&XorName) -> Option<Vec<u8>>>(
    bytes_for: F,
    mode: Option<AdversaryMode>,
    nonce: [u8; 32],
    peer: [u8; 32],
    key: XorName,
    leaf: SubtreeLeaf,
) -> bool {
    exists|bytes: Vec<u8>| #[trigger]
        call_ensures(bytes_for, (&key,), Some(bytes)) && leaf == subtree::leaf_of(
            nonce,
            peer,
            key,
            served_bytes(mode, key, bytes@),
        )
}

/// What a node says that lacks the bytes of a key that it committed to.
pub open spec fn missing_bytes_text(key: XorName) -> Seq<char> {
    "missing bytes for committed key: "@ + hex_text(key@)
}

/// Whether `response` proves, for one of the retained commitments, the branch that the challenge
/// selects.
pub open spec fn proves_branch<F: Fn(&XorName) -> Option<Vec<u8>>>(
    response: SubtreeAuditResponse,
    challenge: SubtreeAuditChallenge,
    held: RetentionView,
    bytes_for: F,
    mode: Option<AdversaryMode>,
) -> bool {
    response matches SubtreeAuditResponse::Proof { challenge_id, commitment, proof_of_branch }
        && exists|slot: int|
        0 <= slot < held.slots.len() && (#[trigger] held.slots[slot]).digest()
            == challenge.expected_commitment_hash && held.slots[slot].consistent() && commitment@
            == held.slots[slot].says() && is_branch(
            proof_of_branch,
            held.slots[slot].entries(),
            challenge,
            bytes_for,
            mode,
        )
}

/// Whether a proof is that of the branch that the challenge selects in the tree over `entries`.
pub open spec fn is_branch<F: Fn(&XorName) -> Option<Vec<u8>>>(
    proof_of_branch: SubtreeProof,
    entries: Seq<(XorName, [u8; 32])>,
    challenge: SubtreeAuditChallenge,
    bytes_for: F,
    mode: Option<AdversaryMode>,
) -> bool {
    let keys = subtree::branch_keys(challenge.nonce, entries);
    let (h, j) = subtree::selected(challenge.nonce, entries.len());
    &&& proof_of_branch.leaves.len() == keys.len()
    &&& forall|i: int|
        0 <= i < keys.len() ==> leaf_answered(
            bytes_for,
            mode,
            challenge.nonce,
            challenge.challenged_peer_id,
            keys[i],
            #[trigger] proof_of_branch.leaves@[i],
        )
    &&& proof_of_branch.sibling_cut_hashes@ == subtree::branch_cuts(entries, h, j)
}

/// Whether `key` is the first of the selected branch whose bytes the node lacks.
pub open spec fn lacks_bytes<F: Fn(&XorName) -> Option<Vec<u8>>>(
    held: RetentionView,
    challenge: SubtreeAuditChallenge,
    bytes_for: F,
    key: XorName,
) -> bool {
    exists|slot: int|
        0 <= slot < held.slots.len() && (#[trigger] held.slots[slot]).digest()
            == challenge.expected_commitment_hash && is_first_lacking(
            subtree::branch_keys(challenge.nonce, held.slots[slot].entries()),
            bytes_for,
            key,
        )
}

/// Answer a challenge to prove a branch, once it is decided whether and how. The branch is that of
/// the commitment that was looked up then, whatever happened to the retained ones since.
pub fn answer_subtree_challenge<F: Fn(&XorName) -> Option<Vec<u8>>>(
    gate: ChallengeGate,
    challenge: &SubtreeAuditChallenge,
    bytes_for: F,
    mode: Option<AdversaryMode>,
) -> (response: SubtreeAuditResponse)
    requires
        forall|key: &XorName| call_requires(bytes_for, (key,)),
    ensures
        match gate {
            ChallengeGate::Bootstrapping => response == (SubtreeAuditResponse::Bootstrapping {
                challenge_id: challenge.challenge_id,
            }),
            ChallengeGate::Rejected(reason) => response == (SubtreeAuditResponse::Rejected {
                challenge_id: challenge.challenge_id,
                reason,
            }),
            ChallengeGate::Open { built, .. } => match response {
                SubtreeAuditResponse::Bootstrapping { .. } => false,
                SubtreeAuditResponse::Rejected { challenge_id, reason } => challenge_id
                    == challenge.challenge_id && exists|key: XorName|
                    reason@ == #[trigger] missing_bytes_text(key) && is_first_lacking(
                        subtree::branch_keys(challenge.nonce, built.entries()),
                        bytes_for,
                        key,
                    ),
                SubtreeAuditResponse::Proof { challenge_id, commitment, proof_of_branch } => {
                    &&& challenge_id == challenge.challenge_id
                    &&& built.consistent()
                    &&& commitment@ == built.says()
                    &&& is_branch(proof_of_branch, built.entries(), *challenge, bytes_for, mode)
                },
            },
        },
{
    let challenge_id: u64 = challenge.challenge_id;
    let built = match gate {
        ChallengeGate::Bootstrapping => {
            return SubtreeAuditResponse::Bootstrapping { challenge_id };
        },
        ChallengeGate::Rejected(reason) => {
            return SubtreeAuditResponse::Rejected { challenge_id, reason };
        },
        ChallengeGate::Open { built, stall: _ } => built,
    };
    let plan = match subtree_plan(built.tree(), &challenge.nonce) {
        Ok(plan) => plan,
        Err(_) => {
            return SubtreeAuditResponse::Rejected {
                challenge_id,
                reason: "could not build subtree proof".to_owned(),
            };
        },
    };
    let mut leaves: Vec<SubtreeLeaf> = Vec::new();
    let mut i: usize = 0;
    while i < plan.leaf_keys.len()
        invariant
            i <= plan.leaf_keys.len(),
            forall|key: &XorName| call_requires(bytes_for, (key,)),
            plan.leaf_keys@ == subtree::branch_keys(challenge.nonce, built.entries()),
            gate matches ChallengeGate::Open { built: opened, .. } && opened == built,
            challenge_id == challenge.challenge_id,
            leaves.len() == i,
            forall|k: int| 0 <= k < i ==> has_bytes(bytes_for, #[trigger] plan.leaf_keys@[k]),
            forall|k: int|
                0 <= k < i ==> leaf_answered(
                    bytes_for,
                    mode,
                    challenge.nonce,
                    challenge.challenged_peer_id,
                    plan.leaf_keys@[k],
                    #[trigger] leaves@[k],
                ),
        decreases plan.leaf_keys.len() - i,
    {
        let key = plan.leaf_keys[i];
        match bytes_for(&key) {
            Some(bytes) => {
                let ghost given = bytes;
                assert(call_ensures(bytes_for, (&key,), Some(given)));
                let served = bytes_to_serve(mode, &key, bytes);
                let leaf = subtree_leaf(
                    &challenge.nonce,
                    &challenge.challenged_peer_id,
                    &key,
                    served.as_slice(),
                );
                assert(leaf_answered(
                    bytes_for,
                    mode,
                    challenge.nonce,
                    challenge.challenged_peer_id,
                    key,
                    leaf,
                ));
                leaves.push(leaf);
            },
            None => {
                let mut reason = "missing bytes for committed key: ".to_owned();
                reason.append(hex_encode(key.as_slice()).as_str());
                proof {
                    assert(plan.leaf_keys@[i as int] == key);
                    assert(reason@ == missing_bytes_text(key));
                    assert(is_first_lacking(plan.leaf_keys@, bytes_for, key));
                }
                return SubtreeAuditResponse::Rejected { challenge_id, reason };
            },
        }
        i += 1;
    }
    SubtreeAuditResponse::Proof {
        challenge_id,
        commitment: built.commitment().clone(),
        proof_of_branch: SubtreeProof { leaves, sibling_cut_hashes: plan.sibling_cut_hashes },
    }
}

/// Answer a challenge to prove a branch. `bytes_for` gives the stored bytes of a key, one key at a
/// time. Where it has none for a key of the branch, the node cannot prove it and names the first such
/// key.
pub fn handle_subtree_challenge<F: Fn(&XorName) -> Option<Vec<u8>>>(
    challenge: &SubtreeAuditChallenge,
    bytes_for: F,
    self_peer_id: &PeerId,
    is_bootstrapping: bool,
    commitment_state: Option<&ResponderCommitmentState>,
    mode: Option<AdversaryMode>,
) -> (response: SubtreeAuditResponse)
    requires
        forall|key: &XorName| call_requires(bytes_for, (key,)),
    ensures
        match gate_of(
            challenge.challenged_peer_id,
            challenge.expected_commitment_hash,
            *self_peer_id,
            is_bootstrapping,
            commitment_state,
            mode,
        ) {
            GateView::Bootstrapping => response == (SubtreeAuditResponse::Bootstrapping {
                challenge_id: challenge.challenge_id,
            }),
            GateView::Rejected(text) => response matches SubtreeAuditResponse::Rejected {
                challenge_id,
                reason,
            } && challenge_id == challenge.challenge_id && reason@ == text,
            GateView::Open => match response {
                SubtreeAuditResponse::Bootstrapping { .. } => false,
                SubtreeAuditResponse::Rejected { challenge_id, reason } => challenge_id
                    == challenge.challenge_id && exists|key: XorName|
                    reason@ == #[trigger] missing_bytes_text(key) && lacks_bytes(
                        commitment_state->0@,
                        *challenge,
                        bytes_for,
                        key,
                    ),
                SubtreeAuditResponse::Proof { challenge_id, .. } => challenge_id
                    == challenge.challenge_id && proves_branch(
                    response,
                    *challenge,
                    commitment_state->0@,
                    bytes_for,
                    mode,
                ),
            },
        },
{
    let gate = open_challenge(
        &challenge.challenged_peer_id,
        &challenge.expected_commitment_hash,
        self_peer_id,
        is_bootstrapping,
        commitment_state,
        mode,
    );
    let ghost opened = gate;
    let response = answer_subtree_challenge(gate, challenge, bytes_for, mode);
    let ghost answered = response;
    proof {
        if let ChallengeGate::Open { built, stall: _ } = opened {
            let held = commitment_state->0@;
            let slot = choose|slot: int|
                0 <= slot < held.slots.len() && held.slots[slot] == *built;
            assert(held.slots[slot].digest() == challenge.expected_commitment_hash);
            match answered {
                SubtreeAuditResponse::Rejected { challenge_id: _, reason } => {
                    let key = choose|key: XorName|
                        reason@ == #[trigger] missing_bytes_text(key) && is_first_lacking(
                            subtree::branch_keys(challenge.nonce, built.entries()),
                            bytes_for,
                            key,
                        );
                    assert(lacks_bytes(held, *challenge, bytes_for, key));
                },
                _ => {
                    assert(proves_branch(response, *challenge, held, bytes_for, mode));
                },
            }
        }
    }
    response
}

/// Whether a key is one of those that a commitment covers.
pub open spec fn is_committed(entries: Seq<(XorName, [u8; 32])>, key: XorName) -> bool {
    exists|i: int| 0 <= i < entries.len() && (#[trigger] entries[i]).0 == key
}

/// Whether `item` is what a node serves for `key`, which it may or may not have committed to.
pub open spec fn item_answered<F: Fn(&XorName) -> Option<Vec<u8>>>(
    bytes_for: F,
    mode: Option<AdversaryMode>,
    committed: bool,
    key: XorName,
    item: SubtreeByteItem,
) -> bool {
    match item {
        SubtreeByteItem::Present { key: k, bytes } => k == key && committed && exists|
            stored: Vec<u8>,
        | #[trigger]
            call_ensures(bytes_for, (&key,), Some(stored)) && bytes@ == served_bytes(
                mode,
                key,
                stored@,
            ),
        SubtreeByteItem::Absent { key: k } => k == key && (!committed || call_ensures(
            bytes_for,
            (&key,),
            None,
        )),
    }
}

/// Whether `items` are what a node serves for `keys` under one of the retained commitments.
pub open spec fn items_answered<F: Fn(&XorName) -> Option<Vec<u8>>>(
    items: Seq<SubtreeByteItem>,
    challenge: SubtreeByteChallenge,
    held: RetentionView,
    bytes_for: F,
    mode: Option<AdversaryMode>,
) -> bool {
    &&& items.len() == challenge.keys.len()
    &&& exists|slot: int|
        0 <= slot < held.slots.len() && (#[trigger] held.slots[slot]).digest()
            == challenge.expected_commitment_hash && forall|i: int|
            0 <= i < items.len() ==> item_answered(
                bytes_for,
                mode,
                is_committed(held.slots[slot].entries(), challenge.keys@[i]),
                challenge.keys@[i],
                #[trigger] items[i],
            )
}

/// Answer a demand for bytes, once it is decided whether and how. The keys are those of the
/// commitment that was looked up then, whatever happened to the retained ones since.
pub fn answer_subtree_byte_challenge<F: Fn(&XorName) -> Option<Vec<u8>>>(
    gate: ChallengeGate,
    challenge: &SubtreeByteChallenge,
    bytes_for: F,
    mode: Option<AdversaryMode>,
) -> (response: SubtreeByteResponse)
    requires
        forall|key: &XorName| call_requires(bytes_for, (key,)),
    ensures
        match gate {
            ChallengeGate::Bootstrapping => response == (SubtreeByteResponse::Bootstrapping {
                challenge_id: challenge.challenge_id,
            }),
            ChallengeGate::Rejected(reason) => response == (SubtreeByteResponse::Rejected {
                challenge_id: challenge.challenge_id,
                reason,
            }),
            ChallengeGate::Open { built, .. } => response matches SubtreeByteResponse::Items {
                challenge_id,
                items,
            } && challenge_id == challenge.challenge_id && items.len() == challenge.keys.len()
                && forall|i: int|
                0 <= i < items.len() ==> item_answered(
                    bytes_for,
                    mode,
                    is_committed(built.entries(), challenge.keys@[i]),
                    challenge.keys@[i],
                    #[trigger] items@[i],
                ),
        },
{
    let challenge_id: u64 = challenge.challenge_id;
    let built = match gate {
        ChallengeGate::Bootstrapping => {
            return SubtreeByteResponse::Bootstrapping { challenge_id };
        },
        ChallengeGate::Rejected(reason) => {
            return SubtreeByteResponse::Rejected { challenge_id, reason };
        },
        ChallengeGate::Open { built, stall: _ } => built,
    };
    let mut items: Vec<SubtreeByteItem> = Vec::new();
    let mut i: usize = 0;
    while i < challenge.keys.len()
        invariant
            i <= challenge.keys.len(),
            forall|key: &XorName| call_requires(bytes_for, (key,)),
            items.len() == i,
            forall|k: int|
                0 <= k < i ==> item_answered(
                    bytes_for,
                    mode,
                    is_committed(built.entries(), challenge.keys@[k]),
                    challenge.keys@[k],
                    #[trigger] items@[k],
                ),
        decreases challenge.keys.len() - i,
    {
        let key = challenge.keys[i];
        let committed = match built.proof_for(&key) {
            Some((_, index)) => {
                assert(built.entries()[index as int].0 == key);
                true
            },
            None => false,
        };
        assert(committed == is_committed(built.entries(), key));
        let item = if committed {
            match bytes_for(&key) {
                Some(bytes) => {
                    let ghost given = bytes;
                    assert(call_ensures(bytes_for, (&key,), Some(given)));
                    SubtreeByteItem::Present { key, bytes: bytes_to_serve(mode, &key, bytes) }
                },
                None => SubtreeByteItem::Absent { key },
            }
        } else {
            SubtreeByteItem::Absent { key }
        };
        assert(item_answered(bytes_for, mode, committed, key, item));
        items.push(item);
        i += 1;
    }
    SubtreeByteResponse::Items { challenge_id, items }
}

/// Answer a demand for bytes. A key that the node did not commit to, or whose bytes it does not
/// have, is named as absent.
pub fn handle_subtree_byte_challenge<F: Fn(&XorName) -> Option<Vec<u8>>>(
    challenge: &SubtreeByteChallenge,
    bytes_for: F,
    self_peer_id: &PeerId,
    is_bootstrapping: bool,
    commitment_state: Option<&ResponderCommitmentState>,
    mode: Option<AdversaryMode>,
) -> (response: SubtreeByteResponse)
    requires
        forall|key: &XorName| call_requires(bytes_for, (key,)),
    ensures
        match gate_of(
            challenge.challenged_peer_id,
            challenge.expected_commitment_hash,
            *self_peer_id,
            is_bootstrapping,
            commitment_state,
            mode,
        ) {
            GateView::Bootstrapping => response == (SubtreeByteResponse::Bootstrapping {
                challenge_id: challenge.challenge_id,
            }),
            GateView::Rejected(text) => response matches SubtreeByteResponse::Rejected {
                challenge_id,
                reason,
            } && challenge_id == challenge.challenge_id && reason@ == text,
            GateView::Open => response matches SubtreeByteResponse::Items { challenge_id, items }
                && challenge_id == challenge.challenge_id && items_answered(
                items@,
                *challenge,
                commitment_state->0@,
                bytes_for,
                mode,
            ),
        },
{
    let gate = open_challenge(
        &challenge.challenged_peer_id,
        &challenge.expected_commitment_hash,
        self_peer_id,
        is_bootstrapping,
        commitment_state,
        mode,
    );
    let ghost opened = gate;
    let response = answer_subtree_byte_challenge(gate, challenge, bytes_for, mode);
    proof {
        if let ChallengeGate::Open { built, stall: _ } = opened {
            let held = commitment_state->0@;
            let slot = choose|slot: int|
                0 <= slot < held.slots.len() && held.slots[slot] == *built;
            assert(held.slots[slot].digest() == challenge.expected_commitment_hash);
            assert(items_answered(
                response->Items_items@,
                *challenge,
                held,
                bytes_for,
                mode,
            ));
        }
    }
    response
}

/// Whether `item` is what a node opens for a block, whose chunk it may or may not have committed
/// to: a slice from which an auditor who knows the chunk's address reads the block, and the
/// siblings that lead from the block to the nonced root.
pub open spec fn opening_answered<F: Fn(&XorName) -> Option<Vec<u8>>>(
    bytes_for: F,
    mode: Option<AdversaryMode>,
    committed: bool,
    nonce: [u8; 32],
    peer: [u8; 32],
    opening: SubtreeSliceOpening,
    item: SubtreeSliceItem,
) -> bool {
    match item {
        SubtreeSliceItem::Present { key, block_index, bao_slice, nonced_siblings } => {
            &&& key == opening.key
            &&& block_index == opening.block_index
            &&& committed
            &&& exists|stored: Vec<u8>| #[trigger]
                call_ensures(bytes_for, (&opening.key,), Some(stored)) && {
                    let content = served_bytes(mode, key, stored@);
                    &&& content.len() <= u64::MAX
                    &&& block_index < slice::blocks_in(content.len() as int)
                    &&& slice::accepted_block(
                        bao_slice@,
                        crate::hashing::blake3_digest(content),
                        content.len() as u64,
                        block_index,
                    ) == Some(slice::block_of(content, block_index as int))
                    &&& nonced_siblings@ == slice::block_siblings(
                        nonce,
                        peer,
                        key,
                        content,
                        block_index as int,
                    )
                }
        },
        SubtreeSliceItem::Absent { key, block_index } => {
            &&& key == opening.key
            &&& block_index == opening.block_index
            &&& !committed || call_ensures(bytes_for, (&opening.key,), None) || exists|
                stored: Vec<u8>,
            | #[trigger]
                call_ensures(bytes_for, (&opening.key,), Some(stored)) && block_index
                    >= slice::blocks_in(served_bytes(mode, key, stored@).len() as int)
        },
    }
}

/// Whether `items` are what a node opens for a challenge under one of the retained commitments.
pub open spec fn openings_answered<F: Fn(&XorName) -> Option<Vec<u8>>>(
    items: Seq<SubtreeSliceItem>,
    challenge: SubtreeSliceChallenge,
    held: RetentionView,
    bytes_for: F,
    mode: Option<AdversaryMode>,
) -> bool {
    &&& items.len() == challenge.openings.len()
    &&& exists|slot: int|
        0 <= slot < held.slots.len() && (#[trigger] held.slots[slot]).digest()
            == challenge.expected_commitment_hash && forall|i: int|
            0 <= i < items.len() ==> opening_answered(
                bytes_for,
                mode,
                is_committed(held.slots[slot].entries(), challenge.openings@[i].key),
                challenge.nonce,
                challenge.challenged_peer_id,
                challenge.openings@[i],
                #[trigger] items[i],
            )
}

/// Open one block for an auditor.
fn open_block<F: Fn(&XorName) -> Option<Vec<u8>>>(
    bytes_for: &F,
    mode: Option<AdversaryMode>,
    nonce: &[u8; 32],
    peer: &[u8; 32],
    opening: &SubtreeSliceOpening,
) -> (item: SubtreeSliceItem)
    requires
        forall|key: &XorName| call_requires(*bytes_for, (key,)),
    ensures
        opening_answered(*bytes_for, mode, true, *nonce, *peer, *opening, item),
{
    let key = opening.key;
    let block_index: u32 = opening.block_index;
    let bytes = match bytes_for(&key) {
        Some(bytes) => bytes,
        None => return SubtreeSliceItem::Absent { key, block_index },
    };
    let ghost given = bytes;
    assert(call_ensures(*bytes_for, (&opening.key,), Some(given)));
    let content = bytes_to_serve(mode, &key, bytes);
    let nonced_siblings = match nonced_block_siblings(
        nonce,
        peer,
        &key,
        content.as_slice(),
        block_index,
    ) {
        Some(siblings) => siblings,
        None => return SubtreeSliceItem::Absent { key, block_index },
    };
    match extract_block_slice(content.as_slice(), block_index) {
        Ok(bao_slice) => SubtreeSliceItem::Present {
            key,
            block_index,
            bao_slice,
            nonced_siblings,
        },
        Err(_) => SubtreeSliceItem::Absent { key, block_index },
    }
}

/// Answer a demand to open blocks. A demand for more blocks than an honest auditor opens is turned
/// down, since each takes the reading of a whole chunk.
pub fn handle_subtree_slice_challenge<F: Fn(&XorName) -> Option<Vec<u8>>>(
    challenge: &SubtreeSliceChallenge,
    bytes_for: F,
    self_peer_id: &PeerId,
    is_bootstrapping: bool,
    commitment_state: Option<&ResponderCommitmentState>,
    mode: Option<AdversaryMode>,
) -> (response: SubtreeSliceResponse)
    requires
        forall|key: &XorName| call_requires(bytes_for, (key,)),
    ensures
        match gate_of(
            challenge.challenged_peer_id,
            challenge.expected_commitment_hash,
            *self_peer_id,
            is_bootstrapping,
            commitment_state,
            mode,
        ) {
            GateView::Bootstrapping => response == (SubtreeSliceResponse::Bootstrapping {
                challenge_id: challenge.challenge_id,
            }),
            GateView::Rejected(text) => response matches SubtreeSliceResponse::Rejected {
                challenge_id,
                reason,
            } && challenge_id == challenge.challenge_id && reason@ == text,
            GateView::Open => if challenge.openings.len() > MAX_SLICE_OPENINGS {
                response matches SubtreeSliceResponse::Rejected { challenge_id, reason }
                    && challenge_id == challenge.challenge_id && reason@
                    == "openings exceed the max per challenge"@
            } else {
                response matches SubtreeSliceResponse::Items { challenge_id, items }
                    && challenge_id == challenge.challenge_id && openings_answered(
                    items@,
                    *challenge,
                    commitment_state->0@,
                    bytes_for,
                    mode,
                )
            },
        },
{
    let challenge_id: u64 = challenge.challenge_id;
    let built = match open_challenge(
        &challenge.challenged_peer_id,
        &challenge.expected_commitment_hash,
        self_peer_id,
        is_bootstrapping,
        commitment_state,
        mode,
    ) {
        ChallengeGate::Bootstrapping => {
            return SubtreeSliceResponse::Bootstrapping { challenge_id };
        },
        ChallengeGate::Rejected(reason) => {
            return SubtreeSliceResponse::Rejected { challenge_id, reason };
        },
        ChallengeGate::Open { built, stall: _ } => built,
    };
    if challenge.openings.len() > MAX_SLICE_OPENINGS {
        return SubtreeSliceResponse::Rejected {
            challenge_id,
            reason: "openings exceed the max per challenge".to_owned(),
        };
    }
    let ghost held = commitment_state->0@;
    let ghost slot = choose|slot: int| 0 <= slot < held.slots.len() && held.slots[slot] == *built;
    let mut items: Vec<SubtreeSliceItem> = Vec::new();
    let mut i: usize = 0;
    while i < challenge.openings.len()
        invariant
            i <= challenge.openings.len(),
            forall|key: &XorName| call_requires(bytes_for, (key,)),
            items.len() == i,
            forall|k: int|
                0 <= k < i ==> opening_answered(
                    bytes_for,
                    mode,
                    is_committed(built.entries(), challenge.openings@[k].key),
                    challenge.nonce,
                    challenge.challenged_peer_id,
                    challenge.openings@[k],
                    #[trigger] items@[k],
                ),
        decreases challenge.openings.len() - i,
    {
        let opening = challenge.openings[i];
        let committed = match built.proof_for(&opening.key) {
            Some((_, index)) => {
                assert(built.entries()[index as int].0 == opening.key);
                true
            },
            None => false,
        };
        assert(committed == is_committed(built.entries(), opening.key));
        let item = if committed {
            open_block(
                &bytes_for,
                mode,
                &challenge.nonce,
                &challenge.challenged_peer_id,
                &opening,
            )
        } else {
            SubtreeSliceItem::Absent { key: opening.key, block_index: opening.block_index }
        };
        items.push(item);
        i += 1;
    }
    proof {
        assert(held.slots[slot].digest() == challenge.expected_commitment_hash);
        assert(openings_answered(items@, *challenge, held, bytes_for, mode));
    }
    SubtreeSliceResponse::Items { challenge_id, items }
}

/// A proof of a branch holds a leaf for each key of the branch that the nonce selects, in the order
/// of the tree. Each leaf of a node that does not make bytes up is made of bytes that are stored
/// under its key.
pub proof fn proof_holds_leaves_of_stored_bytes<F: Fn(&XorName) -> Option<Vec<u8>>>(
    proof_of_branch: SubtreeProof,
    entries: Seq<(XorName, [u8; 32])>,
    challenge: SubtreeAuditChallenge,
    bytes_for: F,
    mode: Option<AdversaryMode>,
    p: subtree::SubtreePath,
    i: int,
) -> (stored: Vec<u8>)
    requires
        is_branch(proof_of_branch, entries, challenge, bytes_for, mode),
        0 < entries.len() <= commitment::MAX_COMMITMENT_KEY_COUNT,
        p.is_selected(challenge.nonce, entries.len()),
        0 <= i < p.leaf_count,
    ensures
        proof_of_branch.leaves@.len() == p.leaf_count,
        proof_of_branch.leaves@[i].key == entries[p.first_leaf + i].0,
        call_ensures(bytes_for, (&entries[p.first_leaf + i].0,), Some(stored)),
        mode != Some(AdversaryMode::FakeStorage) ==> proof_of_branch.leaves@[i].bytes_hash
            == crate::hashing::blake3_digest(stored@) && proof_of_branch.leaves@[i].nonced_hash
            == crate::hashing::blake3_digest(
            challenge.nonce@ + challenge.challenged_peer_id@ + entries[p.first_leaf + i].0@
                + stored@,
        ),
{
    subtree::branch_keys_are_consecutive(challenge.nonce, entries, p);
    let keys = subtree::branch_keys(challenge.nonce, entries);
    let leaf = proof_of_branch.leaves@[i];
    assert(leaf_answered(
        bytes_for,
        mode,
        challenge.nonce,
        challenge.challenged_peer_id,
        keys[i],
        leaf,
    ));
    choose|bytes: Vec<u8>| #[trigger]
        call_ensures(bytes_for, (&keys[i],), Some(bytes)) && leaf == subtree::leaf_of(
            challenge.nonce,
            challenge.challenged_peer_id,
            keys[i],
            served_bytes(mode, keys[i], bytes@),
        )
}

/// What is served for a key is about that key. Bytes are served only for keys that were committed
/// to, and, by a node that does not make them up, only those that are stored; a key is named as
/// absent only where it was not committed to or nothing is stored under it.
pub proof fn only_committed_keys_are_served<F: Fn(&XorName) -> Option<Vec<u8>>>(
    bytes_for: F,
    mode: Option<AdversaryMode>,
    entries: Seq<(XorName, [u8; 32])>,
    key: XorName,
    item: SubtreeByteItem,
)
    requires
        item_answered(bytes_for, mode, is_committed(entries, key), key, item),
    ensures
        match item {
            SubtreeByteItem::Present { key: k, bytes } => {
                &&& k == key
                &&& exists|i: int| 0 <= i < entries.len() && (#[trigger] entries[i]).0 == key
                &&& mode != Some(AdversaryMode::FakeStorage) ==> exists|stored: Vec<u8>| #[trigger]
                    call_ensures(bytes_for, (&key,), Some(stored)) && stored@ == bytes@
            },
            SubtreeByteItem::Absent { key: k } => {
                &&& k == key
                &&& (forall|i: int|
                    0 <= i < entries.len() ==> (#[trigger] entries[i]).0 != key) || call_ensures(
                    bytes_for,
                    (&key,),
                    None,
                )
            },
        },
{
    if let SubtreeByteItem::Present { key: k, bytes } = item {
        let stored = choose|stored: Vec<u8>| #[trigger]
            call_ensures(bytes_for, (&key,), Some(stored)) && bytes@ == served_bytes(
                mode,
                key,
                stored@,
            );
        assert(call_ensures(bytes_for, (&key,), Some(stored)));
    }
}

/// A block that a node opens is one of bytes that are stored under a key that was committed to. Its
/// siblings lead from the block to the nonced root of these bytes, so that an auditor who has that
/// root accepts the opening.
pub proof fn opened_block_leads_to_nonced_root<F: Fn(&XorName) -> Option<Vec<u8>>>(
    bytes_for: F,
    mode: Option<AdversaryMode>,
    committed: bool,
    nonce: [u8; 32],
    peer: [u8; 32],
    opening: SubtreeSliceOpening,
    item: SubtreeSliceItem,
) -> (stored: Vec<u8>)
    requires
        opening_answered(bytes_for, mode, committed, nonce, peer, opening, item),
        item is Present,
        mode != Some(AdversaryMode::FakeStorage),
    ensures
        committed,
        call_ensures(bytes_for, (&opening.key,), Some(stored)),
        item matches SubtreeSliceItem::Present { key, block_index, bao_slice, nonced_siblings }
            && key == opening.key && block_index == opening.block_index
            && slice::opening_leads_to(
            nonce,
            peer,
            key,
            block_index,
            slice::block_of(stored@, block_index as int),
            nonced_siblings@,
            slice::block_root(nonce, peer, key, stored@),
        ) && slice::accepted_block(
            bao_slice@,
            crate::hashing::blake3_digest(stored@),
            stored@.len() as u64,
            block_index,
        ) == Some(slice::block_of(stored@, block_index as int)),
{
    match item {
        SubtreeSliceItem::Present { key, block_index, bao_slice, nonced_siblings } => {
            let stored = choose|stored: Vec<u8>| #[trigger]
                call_ensures(bytes_for, (&opening.key,), Some(stored)) && {
                    let content = served_bytes(mode, key, stored@);
                    &&& content.len() <= u64::MAX
                    &&& block_index < slice::blocks_in(content.len() as int)
                    &&& slice::accepted_block(
                        bao_slice@,
                        crate::hashing::blake3_digest(content),
                        content.len() as u64,
                        block_index,
                    ) == Some(slice::block_of(content, block_index as int))
                    &&& nonced_siblings@ == slice::block_siblings(
                        nonce,
                        peer,
                        key,
                        content,
                        block_index as int,
                    )
                };
            slice::block_openings_lead_to_root(nonce, peer, key, stored@, block_index);
            stored
        },
        SubtreeSliceItem::Absent { .. } => arbitrary(),
    }
}

/// Every opening that is asked for is answered, in its place, for its own key and block, under the
/// commitment that is pinned.
pub proof fn every_opening_is_answered<F: Fn(&XorName) -> Option<Vec<u8>>>(
    items: Seq<SubtreeSliceItem>,
    challenge: SubtreeSliceChallenge,
    held: RetentionView,
    bytes_for: F,
    mode: Option<AdversaryMode>,
)
    requires
        openings_answered(items, challenge, held, bytes_for, mode),
    ensures
        items.len() == challenge.openings@.len(),
        forall|i: int|
            0 <= i < items.len() ==> match (#[trigger] items[i]) {
                SubtreeSliceItem::Present { key, block_index, .. } => key
                    == challenge.openings@[i].key && block_index
                    == challenge.openings@[i].block_index,
                SubtreeSliceItem::Absent { key, block_index } => key
                    == challenge.openings@[i].key && block_index
                    == challenge.openings@[i].block_index,
            },
        held.answerable(challenge.expected_commitment_hash),
{
}

/// Every key that bytes are asked for is answered, in its place, under the commitment that is pinned.
pub proof fn every_demand_is_answered<F: Fn(&XorName) -> Option<Vec<u8>>>(
    items: Seq<SubtreeByteItem>,
    challenge: SubtreeByteChallenge,
    held: RetentionView,
    bytes_for: F,
    mode: Option<AdversaryMode>,
)
    requires
        items_answered(items, challenge, held, bytes_for, mode),
    ensures
        items.len() == challenge.keys@.len(),
        forall|i: int|
            0 <= i < items.len() ==> crate::replication::audit::key_in(#[trigger] items[i])
                == challenge.keys@[i],
        held.answerable(challenge.expected_commitment_hash),
{
    let slot = choose|slot: int|
        0 <= slot < held.slots.len() && (#[trigger] held.slots[slot]).digest()
            == challenge.expected_commitment_hash && forall|i: int|
            0 <= i < items.len() ==> item_answered(
                bytes_for,
                mode,
                is_committed(held.slots[slot].entries(), challenge.keys@[i]),
                challenge.keys@[i],
                #[trigger] items[i],
            );
    assert(held.slots[slot].digest() == challenge.expected_commitment_hash);
}

/// A node that cannot prove a branch names a key that it lacks: one of the branch that is asked for,
/// of the commitment that is pinned, and the first such one.
pub proof fn lacking_key_is_of_pinned_branch<F: Fn(&XorName) -> Option<Vec<u8>>>(
    held: RetentionView,
    challenge: SubtreeAuditChallenge,
    bytes_for: F,
    key: XorName,
) -> (slot: int)
    requires
        lacks_bytes(held, challenge, bytes_for, key),
    ensures
        0 <= slot < held.slots.len(),
        held.slots[slot].digest() == challenge.expected_commitment_hash,
        call_ensures(bytes_for, (&key,), None),
        subtree::branch_keys(challenge.nonce, held.slots[slot].entries()).contains(key),
        missing_bytes_text(key) == "missing bytes for committed key: "@ + hex_text(key@),
{
    let slot = choose|slot: int|
        0 <= slot < held.slots.len() && (#[trigger] held.slots[slot]).digest()
            == challenge.expected_commitment_hash && is_first_lacking(
            subtree::branch_keys(challenge.nonce, held.slots[slot].entries()),
            bytes_for,
            key,
        );
    let n = subtree::first_lacking_key_is_named(
        subtree::branch_keys(challenge.nonce, held.slots[slot].entries()),
        bytes_for,
        key,
    );
    slot
}

/// A block is named as absent only where its chunk was not committed to, nothing is stored under the
/// key, or the stored chunk has no such block.
pub proof fn absent_blocks_are_not_stored<F: Fn(&XorName) -> Option<Vec<u8>>>(
    bytes_for: F,
    mode: Option<AdversaryMode>,
    nonce: [u8; 32],
    peer: [u8; 32],
    opening: SubtreeSliceOpening,
    item: SubtreeSliceItem,
)
    requires
        opening_answered(bytes_for, mode, true, nonce, peer, opening, item),
        mode != Some(AdversaryMode::FakeStorage),
        forall|stored: Vec<u8>| #[trigger]
            call_ensures(bytes_for, (&opening.key,), Some(stored)) ==> opening.block_index
                < slice::blocks_in(stored@.len() as int),
        !call_ensures(bytes_for, (&opening.key,), None),
    ensures
        item matches SubtreeSliceItem::Present { key, block_index, .. } && key == opening.key
            && block_index == opening.block_index,
{
}

/// An honest node passes the first round: what it answers passes every gate, where its commitment
/// is signed with the key that its identity comes from, and where it has for each key the bytes
/// that it committed to.
pub proof fn honest_branch_passes<F: Fn(&XorName) -> Option<Vec<u8>>>(
    response: SubtreeAuditResponse,
    challenge: SubtreeAuditChallenge,
    held: RetentionView,
    bytes_for: F,
)
    requires
        proves_branch(response, challenge, held, bytes_for, None),
        forall|slot: int|
            0 <= slot < held.slots.len() ==> {
                let c = (#[trigger] held.slots[slot]).says();
                &&& commitment::signed_by_own_key(c)
                &&& c.sender_peer_id == challenge.challenged_peer_id
                &&& crate::hashing::blake3_digest(c.sender_public_key) == c.sender_peer_id
                &&& forall|i: int, bytes: Vec<u8>|
                    0 <= i < held.slots[slot].entries().len() && #[trigger] call_ensures(
                        bytes_for,
                        (&held.slots[slot].entries()[i].0,),
                        Some(bytes),
                    ) ==> crate::hashing::blake3_digest(bytes@)
                        == held.slots[slot].entries()[i].1
            },
    ensures
        response matches SubtreeAuditResponse::Proof { commitment, proof_of_branch, .. }
            && structure_gate(
            commitment@,
            proof_of_branch.leaves@,
            proof_of_branch.sibling_cut_hashes@,
            challenge.nonce,
            challenge.expected_commitment_hash,
            challenge.challenged_peer_id,
        ) is None,
{
    if let SubtreeAuditResponse::Proof { challenge_id: _, commitment: c, proof_of_branch } =
        response {
        let slot = choose|slot: int|
            0 <= slot < held.slots.len() && (#[trigger] held.slots[slot]).digest()
                == challenge.expected_commitment_hash && held.slots[slot].consistent() && c@
                == held.slots[slot].says() && is_branch(
                proof_of_branch,
                held.slots[slot].entries(),
                challenge,
                bytes_for,
                None,
            );
        let entries = held.slots[slot].entries();
        let keys = subtree::branch_keys(challenge.nonce, entries);
        let (h, j) = subtree::selected(challenge.nonce, entries.len());
        let width = vstd::arithmetic::power2::pow2(h);
        let first = (j * width) as int;
        subtree::selection_holds_root_of_keys(challenge.nonce, entries.len());
        assert((j + 1) * width == j * width + width) by (nonlinear_arith);
        assert forall|i: int| 0 <= i < keys.len() implies (
        #[trigger] proof_of_branch.leaves@[i]).key == entries[first + i].0
            && proof_of_branch.leaves@[i].bytes_hash == entries[first + i].1 by {
            assert(keys[i] == entries[first + i].0);
            assert(leaf_answered(
                bytes_for,
                None,
                challenge.nonce,
                challenge.challenged_peer_id,
                keys[i],
                proof_of_branch.leaves@[i],
            ));
            let bytes = choose|bytes: Vec<u8>| #[trigger]
                call_ensures(bytes_for, (&keys[i],), Some(bytes)) && proof_of_branch.leaves@[i]
                    == subtree::leaf_of(
                    challenge.nonce,
                    challenge.challenged_peer_id,
                    keys[i],
                    served_bytes(None, keys[i], bytes@),
                );
            assert(call_ensures(bytes_for, (&entries[first + i].0,), Some(bytes)));
        }
        subtree::honest_branch_is_valid(
            challenge.nonce,
            entries,
            c@,
            proof_of_branch.leaves@,
            proof_of_branch.sibling_cut_hashes@,
        );
    }
}

/// The item that answers for a key is the first one about it.
proof fn item_is_found(items: Seq<SubtreeByteItem>, key: XorName, from: int) -> (place: int)
    requires
        0 <= from <= items.len(),
    ensures
        item_for(items, key, from) is Some ==> from <= place < items.len() && item_for(
            items,
            key,
            from,
        ) == said_of(items[place], key),
        item_for(items, key, from) is None ==> forall|i: int|
            from <= i < items.len() ==> said_of(#[trigger] items[i], key) is None,
    decreases items.len() - from,
{
    if from >= items.len() || said_of(items[from], key) is Some {
        from
    } else {
        item_is_found(items, key, from + 1)
    }
}

/// An honest node passes the second round: it serves for the sampled leaves the bytes that it made
/// them of, where its storage gives the same bytes for a key each time.
pub proof fn honest_bytes_pass<F: Fn(&XorName) -> Option<Vec<u8>>>(
    items: Seq<SubtreeByteItem>,
    challenge: SubtreeByteChallenge,
    held: RetentionView,
    bytes_for: F,
    sampled: Seq<SubtreeLeaf>,
)
    requires
        items_answered(items, challenge, held, bytes_for, None),
        challenge.keys@ == leaf_keys(sampled),
        forall|i: int|
            0 <= i < sampled.len() ==> leaf_answered(
                bytes_for,
                None,
                challenge.nonce,
                challenge.challenged_peer_id,
                (#[trigger] sampled[i]).key,
                sampled[i],
            ),
        forall|slot: int, i: int|
            0 <= slot < held.slots.len() && 0 <= i < sampled.len() && held.slots[slot].digest()
                == challenge.expected_commitment_hash ==> is_committed(
                #[trigger] held.slots[slot].entries(),
                (#[trigger] sampled[i]).key,
            ),
        forall|key: XorName, a: Option<Vec<u8>>, b: Option<Vec<u8>>| #[trigger]
            call_ensures(bytes_for, (&key,), a) && #[trigger] call_ensures(bytes_for, (&key,), b)
                ==> slice::option_view(a) == slice::option_view(b),
    ensures
        all_borne_out(sampled, challenge.nonce, challenge.challenged_peer_id, items),
{
    let slot = choose|slot: int|
        0 <= slot < held.slots.len() && (#[trigger] held.slots[slot]).digest()
            == challenge.expected_commitment_hash && forall|i: int|
            0 <= i < items.len() ==> item_answered(
                bytes_for,
                None,
                is_committed(held.slots[slot].entries(), challenge.keys@[i]),
                challenge.keys@[i],
                #[trigger] items[i],
            );
    let entries = held.slots[slot].entries();
    assert forall|i: int| 0 <= i < sampled.len() implies item_bears_out(
        #[trigger] sampled[i],
        challenge.nonce,
        challenge.challenged_peer_id,
        items,
    ) by {
        let leaf = sampled[i];
        let key = leaf.key;
        assert(challenge.keys@[i] == key);
        assert(is_committed(entries, key));
        let place = item_is_found(items, key, 0);
        assert(said_of(items[i], key) is Some);
        assert(item_answered(
            bytes_for,
            None,
            is_committed(entries, challenge.keys@[place]),
            challenge.keys@[place],
            items[place],
        ));
        let bytes = choose|bytes: Vec<u8>| #[trigger]
            call_ensures(bytes_for, (&key,), Some(bytes)) && leaf == subtree::leaf_of(
                challenge.nonce,
                challenge.challenged_peer_id,
                key,
                served_bytes(None, key, bytes@),
            );
        let given: Option<Vec<u8>> = Some(bytes);
        assert(call_ensures(bytes_for, (&key,), given));
        match items[place] {
            SubtreeByteItem::Present { key: k, bytes: content } => {
                let stored = choose|stored: Vec<u8>| #[trigger]
                    call_ensures(bytes_for, (&key,), Some(stored)) && content@ == served_bytes(
                        None,
                        key,
                        stored@,
                    );
                let again: Option<Vec<u8>> = Some(stored);
                assert(call_ensures(bytes_for, (&key,), again));
                assert(slice::option_view(given) == slice::option_view(again));
            },
            SubtreeByteItem::Absent { key: k } => {
                let none: Option<Vec<u8>> = None;
                assert(call_ensures(bytes_for, (&key,), none));
                assert(slice::option_view(given) == slice::option_view(none));
            },
        }
    }
}

/// A node that has lost the bytes of a sampled key fails, whatever it still proves of the tree.
pub proof fn lost_bytes_fail<F: Fn(&XorName) -> Option<Vec<u8>>>(
    items: Seq<SubtreeByteItem>,
    challenge: SubtreeByteChallenge,
    held: RetentionView,
    bytes_for: F,
    mode: Option<AdversaryMode>,
    sampled: Seq<SubtreeLeaf>,
    lost: int,
)
    requires
        items_answered(items, challenge, held, bytes_for, mode),
        0 <= lost < sampled.len(),
        forall|bytes: Vec<u8>| !call_ensures(bytes_for, (&sampled[lost].key,), Some(bytes)),
    ensures
        !all_borne_out(sampled, challenge.nonce, challenge.challenged_peer_id, items),
{
    let key = sampled[lost].key;
    let place = item_is_found(items, key, 0);
    if item_for(items, key, 0) is Some {
        let slot = choose|slot: int|
            0 <= slot < held.slots.len() && (#[trigger] held.slots[slot]).digest()
                == challenge.expected_commitment_hash && forall|i: int|
                0 <= i < items.len() ==> item_answered(
                    bytes_for,
                    mode,
                    is_committed(held.slots[slot].entries(), challenge.keys@[i]),
                    challenge.keys@[i],
                    #[trigger] items[i],
                );
        assert(item_answered(
            bytes_for,
            mode,
            is_committed(held.slots[slot].entries(), challenge.keys@[place]),
            challenge.keys@[place],
            items[place],
        ));
    }
    assert(!item_bears_out(
        sampled[lost],
        challenge.nonce,
        challenge.challenged_peer_id,
        items,
    ));
}

/// An honest node passes an audit: where it signs with the key that its identity comes from, has for
/// each key the bytes that it committed to, and finds the same ones each time, its answers to both
/// rounds pass every check, whatever nonce was drawn.
pub proof fn honest_node_passes<F: Fn(&XorName) -> Option<Vec<u8>>>(
    response: SubtreeAuditResponse,
    challenge: SubtreeAuditChallenge,
    demand: SubtreeByteChallenge,
    items: Seq<SubtreeByteItem>,
    held: RetentionView,
    bytes_for: F,
)
    requires
        proves_branch(response, challenge, held, bytes_for, None),
        demand.nonce == challenge.nonce,
        demand.challenged_peer_id == challenge.challenged_peer_id,
        demand.expected_commitment_hash == challenge.expected_commitment_hash,
        response matches SubtreeAuditResponse::Proof { commitment, proof_of_branch, .. }
            && demand.keys@ == leaf_keys(
            sampled_leaves(
                proof_of_branch.leaves@,
                challenge.nonce,
                commitment.key_count,
                byte_sample_size(),
            ),
        ),
        items_answered(items, demand, held, bytes_for, None),
        forall|slot: int|
            0 <= slot < held.slots.len() ==> {
                let c = (#[trigger] held.slots[slot]).says();
                &&& commitment::signed_by_own_key(c)
                &&& c.sender_peer_id == challenge.challenged_peer_id
                &&& crate::hashing::blake3_digest(c.sender_public_key) == c.sender_peer_id
                &&& forall|i: int, bytes: Vec<u8>|
                    0 <= i < held.slots[slot].entries().len() && #[trigger] call_ensures(
                        bytes_for,
                        (&held.slots[slot].entries()[i].0,),
                        Some(bytes),
                    ) ==> crate::hashing::blake3_digest(bytes@)
                        == held.slots[slot].entries()[i].1
            },
        forall|a: int, b: int|
            0 <= a < held.slots.len() && 0 <= b < held.slots.len() && (
            #[trigger] held.slots[a]).digest() == (#[trigger] held.slots[b]).digest()
                ==> held.slots[a].entries() == held.slots[b].entries(),
        forall|key: XorName, a: Option<Vec<u8>>, b: Option<Vec<u8>>| #[trigger]
            call_ensures(bytes_for, (&key,), a) && #[trigger] call_ensures(bytes_for, (&key,), b)
                ==> slice::option_view(a) == slice::option_view(b),
    ensures
        response matches SubtreeAuditResponse::Proof { commitment, proof_of_branch, .. }
            && structure_gate(
            commitment@,
            proof_of_branch.leaves@,
            proof_of_branch.sibling_cut_hashes@,
            challenge.nonce,
            challenge.expected_commitment_hash,
            challenge.challenged_peer_id,
        ) is None && sampled_leaves(
            proof_of_branch.leaves@,
            challenge.nonce,
            commitment.key_count,
            byte_sample_size(),
        ).len() > 0 && all_borne_out(
            sampled_leaves(
                proof_of_branch.leaves@,
                challenge.nonce,
                commitment.key_count,
                byte_sample_size(),
            ),
            challenge.nonce,
            challenge.challenged_peer_id,
            items,
        ),
{
    honest_branch_passes(response, challenge, held, bytes_for);
    if let SubtreeAuditResponse::Proof { challenge_id: _, commitment: c, proof_of_branch } =
        response {
        let leaves = proof_of_branch.leaves@;
        let cuts = proof_of_branch.sibling_cut_hashes@;
        let sampled = sampled_leaves(leaves, challenge.nonce, c.key_count, byte_sample_size());
        let slot = choose|slot: int|
            0 <= slot < held.slots.len() && (#[trigger] held.slots[slot]).digest()
                == challenge.expected_commitment_hash && held.slots[slot].consistent() && c@
                == held.slots[slot].says() && is_branch(
                proof_of_branch,
                held.slots[slot].entries(),
                challenge,
                bytes_for,
                None,
            );
        let entries = held.slots[slot].entries();
        let keys = subtree::branch_keys(challenge.nonce, entries);
        let (h, j) = subtree::selected(challenge.nonce, entries.len());
        let width = vstd::arithmetic::power2::pow2(h);
        let first = (j * width) as int;
        subtree::selection_holds_root_of_keys(challenge.nonce, entries.len());
        assert((j + 1) * width == j * width + width) by (nonlinear_arith);
        sample_stays_in_band(c@, leaves, cuts, challenge.nonce);
        assert forall|i: int| 0 <= i < sampled.len() implies leaf_answered(
            bytes_for,
            None,
            demand.nonce,
            demand.challenged_peer_id,
            (#[trigger] sampled[i]).key,
            sampled[i],
        ) && is_committed(entries, sampled[i].key) by {
            let k = choose|k: int| 0 <= k < leaves.len() && leaves[k] == sampled[i];
            assert(leaf_answered(
                bytes_for,
                None,
                challenge.nonce,
                challenge.challenged_peer_id,
                keys[k],
                proof_of_branch.leaves@[k],
            ));
            assert(leaves[k].key == keys[k]);
            assert(entries[first + k].0 == keys[k]);
        }
        assert forall|other: int, i: int|
            0 <= other < held.slots.len() && 0 <= i < sampled.len() && held.slots[other].digest()
                == demand.expected_commitment_hash implies is_committed(
            #[trigger] held.slots[other].entries(),
            (#[trigger] sampled[i]).key,
        ) by {
            assert(held.slots[other].entries() == held.slots[slot].entries());
        }
        honest_bytes_pass(items, demand, held, bytes_for, sampled);
    }
}

} // verus!
