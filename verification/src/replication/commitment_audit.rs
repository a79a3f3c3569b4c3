//! Checking a response that is bound to a commitment.
//!
//! The gates run from the cheapest to the dearest: the shape of the response, the identity of the
//! sender, the pinned digest, the signature, and for each key its bytes, its inclusion path and
//! its audit digest. The first gate that fails names the error.

use crate::ant_protocol::XorName;
use crate::hashing::{blake3_hash, same_bytes32};
use crate::replication::commitment;
use crate::replication::commitment::{
    commitment_hash, leaf_hash, path_len, verify_commitment_signature, verify_path,
    CommitmentBoundResult, CommitmentView, StorageCommitment, MAX_COMMITMENT_KEY_COUNT,
};
use crate::replication::merkle;
use crate::replication::protocol;
use crate::replication::protocol::compute_audit_digest;
use vstd::prelude::*;
use vstd::string::*;

verus! {

/// Which gate a response failed.
#[derive(Clone, Copy, Debug, PartialEq, Eq)]
pub enum AuditVerifyError {
    /// The response does not answer as many keys as were challenged.
    PerKeyCountMismatch {
        /// How many it answers.
        got: usize,
        /// How many were challenged.
        expected: usize,
    },
    /// The response answers another key than the challenged one.
    PerKeyOrderMismatch {
        /// Where.
        index: usize,
        /// The key that it answers.
        got: XorName,
        /// The challenged key.
        expected: XorName,
    },
    /// The response answers a key twice.
    DuplicateKey {
        /// The key.
        key: XorName,
    },
    /// The commitment covers no key, or more than it may.
    KeyCountOverProtocolMax {
        /// How many it claims to cover.
        key_count: u32,
    },
    /// An inclusion path is not as long as the tree is deep.
    WrongPathLength {
        /// Of which answer.
        index: usize,
        /// How long it is.
        got: usize,
        /// How deep the tree is.
        expected: usize,
    },
    /// The commitment is not the pinned one.
    CommitmentHashMismatch,
    /// The commitment is not the challenged peer's, or its key is not.
    SenderPeerIdMismatch,
    /// The signature of the commitment is not valid.
    SignatureInvalid,
    /// The digest of a key's bytes is not that of the auditor's bytes.
    BytesHashMismatch {
        /// Of which answer.
        index: usize,
    },
    /// A leaf index is past the end of the tree.
    LeafIndexOutOfRange {
        /// Of which answer.
        index: usize,
        /// The leaf index.
        leaf_index: u32,
        /// How many leaves the tree has.
        key_count: u32,
    },
    /// An inclusion path does not lead to the root.
    PathInvalid {
        /// Of which answer.
        index: usize,
    },
    /// An audit digest is not that of the auditor's bytes.
    DigestMismatch {
        /// Of which answer.
        index: usize,
    },
}

/// Whether the first `n` answers are about the first `n` challenged keys.
pub open spec fn answers_in_order(
    keys: Seq<XorName>,
    answers: Seq<CommitmentBoundResult>,
    n: int,
) -> bool {
    forall|i: int| 0 <= i < n ==> (#[trigger] answers[i]).key == keys[i]
}

/// Whether the first `n` answers are about different keys.
pub open spec fn answers_distinct(answers: Seq<CommitmentBoundResult>, n: int) -> bool {
    forall|i: int, j: int|
        0 <= i < j < n ==> (#[trigger] answers[i]).key != (#[trigger] answers[j]).key
}

/// Whether the first `n` inclusion paths are as long as the tree is deep.
pub open spec fn paths_fit(
    answers: Seq<CommitmentBoundResult>,
    key_count: u32,
    n: int,
) -> bool {
    forall|i: int|
        0 <= i < n ==> (#[trigger] answers[i]).path.len() == merkle::depth(key_count as nat)
}

/// Whether the response answers the challenged keys, each once and in their order.
pub open spec fn answers_challenge(
    keys: Seq<XorName>,
    answers: Seq<CommitmentBoundResult>,
) -> bool {
    &&& answers.len() == keys.len()
    &&& answers_in_order(keys, answers, keys.len() as int)
    &&& answers_distinct(answers, keys.len() as int)
}

/// Whether the shape of the response fits the challenge and the commitment.
pub open spec fn shape_ok(
    keys: Seq<XorName>,
    c: CommitmentView,
    answers: Seq<CommitmentBoundResult>,
) -> bool {
    &&& answers_challenge(keys, answers)
    &&& 0 < c.key_count <= MAX_COMMITMENT_KEY_COUNT
    &&& paths_fit(answers, c.key_count, keys.len() as int)
}

/// Whether a peer's identity is the digest of the public key that its commitment carries.
pub open spec fn key_bound_to_peer(c: CommitmentView) -> bool {
    crate::hashing::blake3_digest(c.sender_public_key) == c.sender_peer_id
}

/// Whether a response passes every gate but those on single keys.
pub open spec fn metadata_ok(
    keys: Seq<XorName>,
    peer: [u8; 32],
    pin: [u8; 32],
    c: CommitmentView,
    answers: Seq<CommitmentBoundResult>,
) -> bool {
    &&& shape_ok(keys, c, answers)
    &&& c.sender_peer_id == peer
    &&& commitment::commitment_digest(c) == pin
    &&& key_bound_to_peer(c)
    &&& commitment::signed_by_own_key(c)
}

/// Whether `e` is the first of those gates that a response fails.
pub open spec fn metadata_fails_at(
    keys: Seq<XorName>,
    peer: [u8; 32],
    pin: [u8; 32],
    c: CommitmentView,
    answers: Seq<CommitmentBoundResult>,
    e: AuditVerifyError,
) -> bool {
    match e {
        AuditVerifyError::PerKeyCountMismatch { got, expected } => {
            &&& got == answers.len()
            &&& expected == keys.len()
            &&& got != expected
        },
        AuditVerifyError::PerKeyOrderMismatch { index, got, expected } => {
            &&& answers.len() == keys.len()
            &&& index < keys.len()
            &&& answers_in_order(keys, answers, index as int)
            &&& got == answers[index as int].key
            &&& expected == keys[index as int]
            &&& got != expected
        },
        AuditVerifyError::DuplicateKey { key } => {
            &&& answers.len() == keys.len()
            &&& answers_in_order(keys, answers, keys.len() as int)
            &&& exists|i: int|
                0 <= i < keys.len() && (#[trigger] answers[i]).key == key && answers_distinct(
                    answers,
                    i,
                ) && !answers_distinct(answers, i + 1)
        },
        AuditVerifyError::KeyCountOverProtocolMax { key_count } => {
            &&& answers_challenge(keys, answers)
            &&& key_count == c.key_count
            &&& key_count == 0 || key_count > MAX_COMMITMENT_KEY_COUNT
        },
        AuditVerifyError::WrongPathLength { index, got, expected } => {
            &&& answers_challenge(keys, answers)
            &&& 0 < c.key_count <= MAX_COMMITMENT_KEY_COUNT
            &&& index < keys.len()
            &&& paths_fit(answers, c.key_count, index as int)
            &&& got == answers[index as int].path.len()
            &&& expected == merkle::depth(c.key_count as nat)
            &&& got != expected
        },
        AuditVerifyError::SenderPeerIdMismatch => {
            &&& shape_ok(keys, c, answers)
            &&& c.sender_peer_id != peer || commitment::commitment_digest(c) == pin
                && !key_bound_to_peer(c)
        },
        AuditVerifyError::CommitmentHashMismatch => {
            &&& shape_ok(keys, c, answers)
            &&& c.sender_peer_id == peer
            &&& commitment::commitment_digest(c) != pin
        },
        AuditVerifyError::SignatureInvalid => {
            &&& shape_ok(keys, c, answers)
            &&& c.sender_peer_id == peer
            &&& commitment::commitment_digest(c) == pin
            &&& key_bound_to_peer(c)
            &&& !commitment::signed_by_own_key(c)
        },
        _ => false,
    }
}

/// Whether an answer proves that the responder committed to the auditor's `bytes` of its key, and
/// has them.
pub open spec fn answer_ok(
    nonce: [u8; 32],
    peer: [u8; 32],
    c: CommitmentView,
    answer: CommitmentBoundResult,
    bytes: Seq<u8>,
) -> bool {
    &&& answer.bytes_hash == crate::hashing::blake3_digest(bytes)
    &&& commitment::path_valid(
        commitment::leaf_digest(answer.key, answer.bytes_hash),
        answer.path@,
        answer.leaf_index as int,
        c.key_count,
        c.root,
    )
    &&& answer.digest == protocol::audit_digest(nonce, peer, answer.key, bytes)
}

/// Whether `e` is the first gate that the answer at `index` fails.
pub open spec fn answer_fails_at(
    index: usize,
    nonce: [u8; 32],
    peer: [u8; 32],
    c: CommitmentView,
    answer: CommitmentBoundResult,
    bytes: Seq<u8>,
    e: AuditVerifyError,
) -> bool {
    let bytes_match = answer.bytes_hash == crate::hashing::blake3_digest(bytes);
    let path_leads = commitment::path_valid(
        commitment::leaf_digest(answer.key, answer.bytes_hash),
        answer.path@,
        answer.leaf_index as int,
        c.key_count,
        c.root,
    );
    match e {
        AuditVerifyError::BytesHashMismatch { index: i } => i == index && !bytes_match,
        AuditVerifyError::LeafIndexOutOfRange { index: i, leaf_index, key_count } => {
            &&& i == index
            &&& bytes_match
            &&& leaf_index == answer.leaf_index
            &&& key_count == c.key_count
            &&& leaf_index >= key_count
        },
        AuditVerifyError::PathInvalid { index: i } => {
            &&& i == index
            &&& bytes_match
            &&& answer.leaf_index < c.key_count
            &&& !path_leads
        },
        AuditVerifyError::DigestMismatch { index: i } => {
            &&& i == index
            &&& bytes_match
            &&& path_leads
            &&& answer.digest != protocol::audit_digest(nonce, peer, answer.key, bytes)
        },
        _ => false,
    }
}

/// A response fails at a gate exactly where it does not pass them all, and only at one.
pub proof fn metadata_gates_are_exclusive(
    keys: Seq<XorName>,
    peer: [u8; 32],
    pin: [u8; 32],
    c: CommitmentView,
    answers: Seq<CommitmentBoundResult>,
    e: AuditVerifyError,
)
    requires
        metadata_fails_at(keys, peer, pin, c, answers, e),
    ensures
        !metadata_ok(keys, peer, pin, c, answers),
        forall|other: AuditVerifyError|
            #[trigger] metadata_fails_at(keys, peer, pin, c, answers, other) ==> other == e,
{
    if let AuditVerifyError::DuplicateKey { key } = e {
        let i = choose|i: int|
            0 <= i < keys.len() && (#[trigger] answers[i]).key == key && answers_distinct(
                answers,
                i,
            ) && !answers_distinct(answers, i + 1);
        assert(!answers_distinct(answers, keys.len() as int));
        assert forall|other: AuditVerifyError| #[trigger]
            metadata_fails_at(keys, peer, pin, c, answers, other) implies other == e by {
            if let AuditVerifyError::DuplicateKey { key: k } = other {
                let j = choose|j: int|
                    0 <= j < keys.len() && (#[trigger] answers[j]).key == k && answers_distinct(
                        answers,
                        j,
                    ) && !answers_distinct(answers, j + 1);
                assert(i == j);
            }
        }
    }
}

/// A response passes the gates on the whole just where it answers every challenged key once and in
/// order, its commitment covers no more keys than it may and is the challenged peer's own, pinned
/// and signed one, and every path is as long as the tree is deep.
pub proof fn passing_response_answers_pinned_challenge(
    keys: Seq<XorName>,
    peer: [u8; 32],
    pin: [u8; 32],
    c: CommitmentView,
    answers: Seq<CommitmentBoundResult>,
)
    ensures
        metadata_ok(keys, peer, pin, c, answers) <==> {
            &&& answers.len() == keys.len()
            &&& forall|i: int| 0 <= i < keys.len() ==> (#[trigger] answers[i]).key == keys[i]
            &&& forall|i: int, j: int|
                0 <= i < j < keys.len() ==> (#[trigger] answers[i]).key != (
                #[trigger] answers[j]).key
            &&& 1 <= c.key_count <= 1_000_000
            &&& forall|i: int|
                0 <= i < keys.len() ==> (#[trigger] answers[i]).path.len() == merkle::depth(
                    c.key_count as nat,
                )
            &&& c.sender_peer_id == peer
            &&& crate::hashing::blake3_digest(c.sender_public_key) == peer
            &&& crate::hashing::blake3_digest(commitment::wire_bytes(c)) == pin
            &&& crate::ml_dsa::signature_valid(
                c.sender_public_key,
                commitment::DOMAIN_SIGNATURE.spec_bytes() + c.root@
                    + vstd::bytes::spec_u32_to_le_bytes(c.key_count) + c.sender_peer_id@
                    + c.sender_public_key,
                c.signature,
            )
        },
{
}

/// An answer about a key passes just where the digest in it is that of the auditor's own bytes, its
/// leaf lies in the tree and leads to the committed root, and its audit digest is that of the nonce,
/// the peer, the key and the auditor's bytes.
pub proof fn passing_answer_is_about_auditors_bytes(
    nonce: [u8; 32],
    peer: [u8; 32],
    c: CommitmentView,
    answer: CommitmentBoundResult,
    bytes: Seq<u8>,
)
    ensures
        answer_ok(nonce, peer, c, answer, bytes) <==> {
            &&& answer.bytes_hash == crate::hashing::blake3_digest(bytes)
            &&& answer.digest == crate::hashing::blake3_digest(
                nonce@ + peer@ + answer.key@ + bytes,
            )
            &&& answer.leaf_index < c.key_count <= 1_000_000
            &&& answer.path@.len() == merkle::depth(c.key_count as nat)
            &&& merkle::fold_path(
                commitment::DOMAIN_NODE.spec_bytes(),
                crate::hashing::blake3_digest(
                    commitment::DOMAIN_LEAF.spec_bytes() + answer.key@ + answer.bytes_hash@,
                ),
                answer.leaf_index as int,
                answer.path@,
            ) == c.root
        },
{
}

/// An answer about a key fails at a gate just where it does not pass them all, and at the first one
/// only.
pub proof fn answer_gates_are_exclusive(
    index: usize,
    nonce: [u8; 32],
    peer: [u8; 32],
    c: CommitmentView,
    answer: CommitmentBoundResult,
    bytes: Seq<u8>,
    e: AuditVerifyError,
)
    requires
        answer_fails_at(index, nonce, peer, c, answer, bytes, e),
    ensures
        !answer_ok(nonce, peer, c, answer, bytes),
        forall|other: AuditVerifyError| #[trigger]
            answer_fails_at(index, nonce, peer, c, answer, bytes, other) ==> other == e,
{
}

/// The error of a response says what is wrong with it: which commitment, key, path or signature is
/// not the right one.
pub proof fn refusal_says_what_is_wrong(
    keys: Seq<XorName>,
    peer: [u8; 32],
    pin: [u8; 32],
    c: CommitmentView,
    answers: Seq<CommitmentBoundResult>,
    e: AuditVerifyError,
)
    requires
        metadata_fails_at(keys, peer, pin, c, answers, e),
    ensures
        match e {
            AuditVerifyError::PerKeyCountMismatch { got, expected } => got == answers.len()
                && expected == keys.len() && answers.len() != keys.len(),
            AuditVerifyError::PerKeyOrderMismatch { index, got, expected } => index < keys.len()
                && got == answers[index as int].key && expected == keys[index as int] && got
                != expected,
            AuditVerifyError::DuplicateKey { key } => exists|i: int, j: int|
                0 <= i < j < answers.len() && (#[trigger] answers[i]).key == key && (
                #[trigger] answers[j]).key == key,
            AuditVerifyError::KeyCountOverProtocolMax { key_count } => key_count == c.key_count && !(
            1 <= key_count <= 1_000_000),
            AuditVerifyError::WrongPathLength { index, got, expected } => index < answers.len()
                && got == answers[index as int].path.len() && expected == merkle::depth(
                c.key_count as nat,
            ) && got != expected,
            AuditVerifyError::CommitmentHashMismatch => crate::hashing::blake3_digest(
                commitment::wire_bytes(c),
            ) != pin,
            AuditVerifyError::SenderPeerIdMismatch => c.sender_peer_id != peer
                || crate::hashing::blake3_digest(c.sender_public_key) != peer,
            AuditVerifyError::SignatureInvalid => !commitment::signed_by_own_key(c)
                && c.sender_peer_id == peer && crate::hashing::blake3_digest(c.sender_public_key)
                == peer,
            _ => false,
        },
{
    if let AuditVerifyError::DuplicateKey { key } = e {
        let j = choose|j: int|
            0 <= j < keys.len() && (#[trigger] answers[j]).key == key && answers_distinct(
                answers,
                j,
            ) && !answers_distinct(answers, j + 1);
        let (a, b) = choose|a: int, b: int|
            0 <= a < b < j + 1 && (#[trigger] answers[a]).key == (#[trigger] answers[b]).key;
        assert(b == j);
        assert(answers[a].key == key && answers[j].key == key);
    }
}

/// The error of an answer about a key says what is wrong with it.
pub proof fn refused_answer_says_what_is_wrong(
    index: usize,
    nonce: [u8; 32],
    peer: [u8; 32],
    c: CommitmentView,
    answer: CommitmentBoundResult,
    bytes: Seq<u8>,
    e: AuditVerifyError,
)
    requires
        answer_fails_at(index, nonce, peer, c, answer, bytes, e),
    ensures
        match e {
            AuditVerifyError::BytesHashMismatch { index: i } => i == index && answer.bytes_hash
                != crate::hashing::blake3_digest(bytes),
            AuditVerifyError::LeafIndexOutOfRange { index: i, leaf_index, key_count } => i == index
                && leaf_index == answer.leaf_index && key_count == c.key_count && leaf_index
                >= key_count,
            AuditVerifyError::PathInvalid { index: i } => i == index && !commitment::path_valid(
                commitment::leaf_digest(answer.key, answer.bytes_hash),
                answer.path@,
                answer.leaf_index as int,
                c.key_count,
                c.root,
            ),
            AuditVerifyError::DigestMismatch { index: i } => i == index && answer.digest
                != crate::hashing::blake3_digest(nonce@ + peer@ + answer.key@ + bytes),
            _ => false,
        },
{
}

/// An answer is borne out only by bytes that the auditor itself has for the key, and an auditor
/// whose bytes do not bear it out does not take it.
pub proof fn answers_are_held_to_auditors_bytes<F: Fn(&XorName) -> Option<Vec<u8>>>(
    local_bytes_for: F,
    nonce: [u8; 32],
    peer: [u8; 32],
    c: CommitmentView,
    answer: CommitmentBoundResult,
)
    requires
        borne_out(local_bytes_for, nonce, peer, c, answer),
    ensures
        exists|bytes: Vec<u8>| #[trigger]
            call_ensures(local_bytes_for, (&answer.key,), Some(bytes))
                && crate::hashing::blake3_digest(bytes@) == answer.bytes_hash
                && crate::hashing::blake3_digest(nonce@ + peer@ + answer.key@ + bytes@)
                == answer.digest,
{
    let bytes = choose|bytes: Vec<u8>|
        call_ensures(local_bytes_for, (&answer.key,), Some(bytes)) && #[trigger] answer_ok(
            nonce,
            peer,
            c,
            answer,
            bytes@,
        );
    assert(call_ensures(local_bytes_for, (&answer.key,), Some(bytes)));
}

/// The commitment that an honest node published passes the gates of an audit that pins it, where
/// the response answers the challenged keys with the paths of the committed tree.
pub proof fn honest_metadata_passes(
    entries: Seq<(XorName, [u8; 32])>,
    c: CommitmentView,
    keys: Seq<XorName>,
    answers: Seq<CommitmentBoundResult>,
)
    requires
        commitment::committable(entries),
        c.root == commitment::tree_root(entries),
        c.key_count == entries.len(),
        key_bound_to_peer(c),
        commitment::signed_by_own_key(c),
        answers_challenge(keys, answers),
        forall|i: int|
            0 <= i < answers.len() ==> {
                &&& (#[trigger] answers[i]).leaf_index < entries.len()
                &&& answers[i].path@ == commitment::tree_path(
                    entries,
                    answers[i].leaf_index as int,
                )
            },
    ensures
        metadata_ok(keys, c.sender_peer_id, commitment::commitment_digest(c), c, answers),
{
    assert forall|i: int| 0 <= i < keys.len() implies (#[trigger] answers[i]).path.len()
        == merkle::depth(c.key_count as nat) by {
        commitment::inclusion_paths_are_valid(entries, answers[i].leaf_index as int);
        assert(answers[i].path@.len() == answers[i].path.len());
    }
}

/// An honest answer passes: its leaf is that of the key and the digest of the bytes that the
/// auditor holds too.
pub proof fn honest_answer_passes(
    entries: Seq<(XorName, [u8; 32])>,
    c: CommitmentView,
    nonce: [u8; 32],
    answer: CommitmentBoundResult,
    bytes: Seq<u8>,
)
    requires
        commitment::committable(entries),
        c.root == commitment::tree_root(entries),
        c.key_count == entries.len(),
        answer.leaf_index < entries.len(),
        entries[answer.leaf_index as int] == (answer.key, crate::hashing::blake3_digest(bytes)),
        answer.bytes_hash == crate::hashing::blake3_digest(bytes),
        answer.path@ == commitment::tree_path(entries, answer.leaf_index as int),
        answer.digest == protocol::audit_digest(nonce, c.sender_peer_id, answer.key, bytes),
    ensures
        answer_ok(nonce, c.sender_peer_id, c, answer, bytes),
{
    commitment::inclusion_paths_are_valid(entries, answer.leaf_index as int);
}

/// An answer that passes is about what was committed to: its key and the digest of the auditor's
/// bytes are the entry at its index, unless the two byte strings of `path_collision` are
/// different and have one digest.
pub proof fn passing_answer_is_committed(
    entries: Seq<(XorName, [u8; 32])>,
    c: CommitmentView,
    nonce: [u8; 32],
    peer: [u8; 32],
    answer: CommitmentBoundResult,
    bytes: Seq<u8>,
)
    requires
        commitment::committable(entries),
        c.root == commitment::tree_root(entries),
        c.key_count == entries.len(),
        answer_ok(nonce, peer, c, answer, bytes),
    ensures
        answer.leaf_index < entries.len(),
        entries[answer.leaf_index as int] == (answer.key, crate::hashing::blake3_digest(bytes))
            || crate::hashing::collides(
            commitment::path_collision(
                entries,
                answer.key,
                answer.bytes_hash,
                answer.path@,
                answer.leaf_index as int,
            ),
        ),
{
    commitment::valid_path_is_committed(
        entries,
        answer.key,
        answer.bytes_hash,
        answer.path@,
        answer.leaf_index as int,
    );
}

/// The first answer that repeats the key of an earlier one, if there is any.
fn first_duplicate(answers: &[CommitmentBoundResult]) -> (place: Option<usize>)
    ensures
        match place {
            Some(i) => i < answers.len() && answers_distinct(answers@, i as int)
                && !answers_distinct(answers@, i + 1),
            None => answers_distinct(answers@, answers.len() as int),
        },
{
    let mut i: usize = 0;
    while i < answers.len()
        invariant
            i <= answers.len(),
            answers_distinct(answers@, i as int),
        decreases answers.len() - i,
    {
        let mut j: usize = 0;
        while j < i
            invariant
                j <= i < answers.len(),
                answers_distinct(answers@, i as int),
                forall|k: int|
                    0 <= k < j ==> (#[trigger] answers@[k]).key != answers@[i as int].key,
            decreases i - j,
        {
            if same_bytes32(&answers[j].key, &answers[i].key) {
                assert(answers@[j as int].key == answers@[i as int].key);
                return Some(i);
            }
            j += 1;
        }
        i += 1;
    }
    None
}

/// Check a response against the challenge, the pin and the signature, but not yet key by key.
pub fn verify_commitment_bound_metadata(
    challenge_keys: &[XorName],
    challenged_peer_id: &[u8; 32],
    expected_commitment_hash: &[u8; 32],
    response_commitment: &StorageCommitment,
    response_per_key: &[CommitmentBoundResult],
) -> (verdict: Result<(), AuditVerifyError>)
    ensures
        match verdict {
            Ok(()) => metadata_ok(
                challenge_keys@,
                *challenged_peer_id,
                *expected_commitment_hash,
                response_commitment@,
                response_per_key@,
            ),
            Err(e) => metadata_fails_at(
                challenge_keys@,
                *challenged_peer_id,
                *expected_commitment_hash,
                response_commitment@,
                response_per_key@,
                e,
            ),
        },
{
    if response_per_key.len() != challenge_keys.len() {
        return Err(
            AuditVerifyError::PerKeyCountMismatch {
                got: response_per_key.len(),
                expected: challenge_keys.len(),
            },
        );
    }
    let mut i: usize = 0;
    while i < challenge_keys.len()
        invariant
            i <= challenge_keys.len() == response_per_key.len(),
            answers_in_order(challenge_keys@, response_per_key@, i as int),
        decreases challenge_keys.len() - i,
    {
        let got = response_per_key[i].key;
        if !same_bytes32(&got, &challenge_keys[i]) {
            return Err(
                AuditVerifyError::PerKeyOrderMismatch {
                    index: i,
                    got,
                    expected: challenge_keys[i],
                },
            );
        }
        i += 1;
    }
    if let Some(place) = first_duplicate(response_per_key) {
        return Err(AuditVerifyError::DuplicateKey { key: response_per_key[place].key });
    }
    let key_count: u32 = response_commitment.key_count;
    if key_count == 0 || key_count > MAX_COMMITMENT_KEY_COUNT {
        return Err(AuditVerifyError::KeyCountOverProtocolMax { key_count });
    }
    let expected_path_len: usize = path_len(key_count);
    let mut k: usize = 0;
    while k < response_per_key.len()
        invariant
            k <= response_per_key.len() == challenge_keys.len(),
            answers_challenge(challenge_keys@, response_per_key@),
            0 < key_count <= MAX_COMMITMENT_KEY_COUNT,
            key_count == response_commitment.key_count,
            expected_path_len == merkle::depth(key_count as nat),
            paths_fit(response_per_key@, key_count, k as int),
        decreases response_per_key.len() - k,
    {
        let got: usize = response_per_key[k].path.len();
        if got != expected_path_len {
            return Err(
                AuditVerifyError::WrongPathLength { index: k, got, expected: expected_path_len },
            );
        }
        k += 1;
    }
    if !same_bytes32(&response_commitment.sender_peer_id, challenged_peer_id) {
        return Err(AuditVerifyError::SenderPeerIdMismatch);
    }
    match commitment_hash(response_commitment) {
        Some(hash) => if !same_bytes32(&hash, expected_commitment_hash) {
            return Err(AuditVerifyError::CommitmentHashMismatch);
        },
        None => return Err(AuditVerifyError::CommitmentHashMismatch),
    }
    let derived_peer_id = blake3_hash(response_commitment.sender_public_key.as_slice());
    if !same_bytes32(&derived_peer_id, &response_commitment.sender_peer_id) {
        return Err(AuditVerifyError::SenderPeerIdMismatch);
    }
    if !verify_commitment_signature(response_commitment) {
        return Err(AuditVerifyError::SignatureInvalid);
    }
    Ok(())
}

/// Check one answer against the auditor's own bytes of its key.
pub fn verify_commitment_bound_per_key(
    index: usize,
    challenge_nonce: &[u8; 32],
    challenged_peer_id: &[u8; 32],
    response_commitment: &StorageCommitment,
    result: &CommitmentBoundResult,
    local_bytes: &[u8],
) -> (verdict: Result<(), AuditVerifyError>)
    ensures
        match verdict {
            Ok(()) => answer_ok(
                *challenge_nonce,
                *challenged_peer_id,
                response_commitment@,
                *result,
                local_bytes@,
            ),
            Err(e) => answer_fails_at(
                index,
                *challenge_nonce,
                *challenged_peer_id,
                response_commitment@,
                *result,
                local_bytes@,
                e,
            ),
        },
{
    let expected_bytes_hash = blake3_hash(local_bytes);
    if !same_bytes32(&result.bytes_hash, &expected_bytes_hash) {
        return Err(AuditVerifyError::BytesHashMismatch { index });
    }
    let leaf = leaf_hash(&result.key, &result.bytes_hash);
    let key_count: u32 = response_commitment.key_count;
    if result.leaf_index >= key_count {
        return Err(
            AuditVerifyError::LeafIndexOutOfRange {
                index,
                leaf_index: result.leaf_index,
                key_count,
            },
        );
    }
    if !verify_path(
        &leaf,
        result.path.as_slice(),
        result.leaf_index as usize,
        key_count,
        &response_commitment.root,
    ) {
        return Err(AuditVerifyError::PathInvalid { index });
    }
    let expected_digest = compute_audit_digest(
        challenge_nonce,
        challenged_peer_id,
        &result.key,
        local_bytes,
    );
    if !same_bytes32(&result.digest, &expected_digest) {
        return Err(AuditVerifyError::DigestMismatch { index });
    }
    Ok(())
}

/// Whether the auditor's bytes, as `local_bytes_for` gives them, bear out an answer.
pub open spec fn borne_out<F: Fn(&XorName) -> Option<Vec<u8>>>(
    local_bytes_for: F,
    nonce: [u8; 32],
    peer: [u8; 32],
    c: CommitmentView,
    answer: CommitmentBoundResult,
) -> bool {
    exists|bytes: Vec<u8>|
        call_ensures(local_bytes_for, (&answer.key,), Some(bytes)) && #[trigger] answer_ok(
            nonce,
            peer,
            c,
            answer,
            bytes@,
        )
}

/// Whether the auditor's bytes, as `local_bytes_for` gives them, refute the answer at `index` with
/// `e`. An answer about a key that the auditor does not hold cannot be borne out either.
pub open spec fn refuted<F: Fn(&XorName) -> Option<Vec<u8>>>(
    local_bytes_for: F,
    index: usize,
    nonce: [u8; 32],
    peer: [u8; 32],
    c: CommitmentView,
    answer: CommitmentBoundResult,
    e: AuditVerifyError,
) -> bool {
    ||| call_ensures(local_bytes_for, (&answer.key,), None) && e == (
    AuditVerifyError::BytesHashMismatch { index })
    ||| exists|bytes: Vec<u8>|
        call_ensures(local_bytes_for, (&answer.key,), Some(bytes)) && #[trigger] answer_fails_at(
            index,
            nonce,
            peer,
            c,
            answer,
            bytes@,
            e,
        )
}

/// Check a whole response against the auditor's own bytes, key by key in their order. The error is
/// that of the first answer that is not borne out.
pub fn verify_commitment_bound_response<F: Fn(&XorName) -> Option<Vec<u8>>>(
    challenge_keys: &[XorName],
    challenge_nonce: &[u8; 32],
    challenged_peer_id: &[u8; 32],
    expected_commitment_hash: &[u8; 32],
    response_commitment: &StorageCommitment,
    response_per_key: &[CommitmentBoundResult],
    local_bytes_for: F,
) -> (verdict: Result<(), AuditVerifyError>)
    requires
        forall|key: &XorName| call_requires(local_bytes_for, (key,)),
    ensures
        match verdict {
            Ok(()) => metadata_ok(
                challenge_keys@,
                *challenged_peer_id,
                *expected_commitment_hash,
                response_commitment@,
                response_per_key@,
            ) && forall|i: int|
                0 <= i < response_per_key.len() ==> borne_out(
                    local_bytes_for,
                    *challenge_nonce,
                    *challenged_peer_id,
                    response_commitment@,
                    #[trigger] response_per_key@[i],
                ),
            Err(e) => metadata_fails_at(
                challenge_keys@,
                *challenged_peer_id,
                *expected_commitment_hash,
                response_commitment@,
                response_per_key@,
                e,
            ) || metadata_ok(
                challenge_keys@,
                *challenged_peer_id,
                *expected_commitment_hash,
                response_commitment@,
                response_per_key@,
            ) && exists|i: int|
                0 <= i < response_per_key.len() && refuted(
                    local_bytes_for,
                    i as usize,
                    *challenge_nonce,
                    *challenged_peer_id,
                    response_commitment@,
                    #[trigger] response_per_key@[i],
                    e,
                ) && forall|j: int|
                    0 <= j < i ==> borne_out(
                        local_bytes_for,
                        *challenge_nonce,
                        *challenged_peer_id,
                        response_commitment@,
                        #[trigger] response_per_key@[j],
                    ),
        },
{
    match verify_commitment_bound_metadata(
        challenge_keys,
        challenged_peer_id,
        expected_commitment_hash,
        response_commitment,
        response_per_key,
    ) {
        Ok(()) => {},
        Err(e) => return Err(e),
    }
    let mut i: usize = 0;
    while i < response_per_key.len()
        invariant
            i <= response_per_key.len(),
            forall|key: &XorName| call_requires(local_bytes_for, (key,)),
            metadata_ok(
                challenge_keys@,
                *challenged_peer_id,
                *expected_commitment_hash,
                response_commitment@,
                response_per_key@,
            ),
            forall|j: int|
                0 <= j < i ==> borne_out(
                    local_bytes_for,
                    *challenge_nonce,
                    *challenged_peer_id,
                    response_commitment@,
                    #[trigger] response_per_key@[j],
                ),
        decreases response_per_key.len() - i,
    {
        let result = &response_per_key[i];
        let local_bytes = match local_bytes_for(&result.key) {
            Some(bytes) => bytes,
            None => {
                assert(refuted(
                    local_bytes_for,
                    i,
                    *challenge_nonce,
                    *challenged_peer_id,
                    response_commitment@,
                    response_per_key@[i as int],
                    AuditVerifyError::BytesHashMismatch { index: i },
                ));
                return Err(AuditVerifyError::BytesHashMismatch { index: i });
            },
        };
        match verify_commitment_bound_per_key(
            i,
            challenge_nonce,
            challenged_peer_id,
            response_commitment,
            result,
            local_bytes.as_slice(),
        ) {
            Ok(()) => {},
            Err(e) => {
                assert(refuted(
                    local_bytes_for,
                    i,
                    *challenge_nonce,
                    *challenged_peer_id,
                    response_commitment@,
                    response_per_key@[i as int],
                    e,
                ));
                return Err(e);
            },
        }
        i += 1;
    }
    Ok(())
}

} // verus!
