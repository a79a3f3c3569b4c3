//! What nodes say to each other about chunks, and the digest that both sides of an audit compute.

use crate::ant_protocol::XorName;
use crate::hashing::{append, blake3_hash};
use crate::replication::commitment::StorageCommitment;
use crate::replication::subtree::SubtreeProof;
use vstd::prelude::*;

verus! {

/// A chunk that was just paid for, offered to a peer that should hold it.
#[derive(Clone, Debug, PartialEq, Eq)]
pub struct FreshReplicationOffer {
    /// The chunk's address.
    pub key: XorName,
    /// The chunk.
    pub data: Vec<u8>,
    /// What shows that it was paid for.
    pub proof_of_payment: Vec<u8>,
}

/// The answer to an offer.
#[derive(Clone, Debug, PartialEq, Eq)]
pub enum FreshReplicationResponse {
    /// The chunk was stored.
    Accepted {
        /// The chunk's address.
        key: XorName,
    },
    /// It was not.
    Rejected {
        /// The chunk's address.
        key: XorName,
        /// Why not.
        reason: String,
    },
}

/// Word that a key was paid for.
#[derive(Clone, Debug, PartialEq, Eq)]
pub struct PaidNotify {
    /// The key.
    pub key: XorName,
    /// What shows that it was paid for.
    pub proof_of_payment: Vec<u8>,
}

/// What a node tells a neighbour when it syncs.
#[derive(Debug)]
pub struct NeighborSyncRequest {
    /// Keys that the neighbour should hold.
    pub replica_hints: Vec<XorName>,
    /// Keys that the neighbour should know to be paid for.
    pub paid_hints: Vec<XorName>,
    /// Whether the sender is starting up.
    pub bootstrapping: bool,
    /// The sender's commitment.
    pub commitment: Option<StorageCommitment>,
}

/// What the neighbour tells in return.
#[derive(Debug)]
pub struct NeighborSyncResponse {
    /// Keys that the asking node should hold.
    pub replica_hints: Vec<XorName>,
    /// Keys that the asking node should know to be paid for.
    pub paid_hints: Vec<XorName>,
    /// Whether the neighbour is starting up.
    pub bootstrapping: bool,
    /// The neighbour's commitment.
    pub commitment: Option<StorageCommitment>,
}

/// A question which keys a peer holds.
#[derive(Clone, Debug, PartialEq, Eq)]
pub struct VerificationRequest {
    /// The keys.
    pub keys: Vec<XorName>,
    /// The places of those keys of which it is also asked whether they are paid for.
    pub paid_list_check_indices: Vec<u32>,
}

/// What a peer says of one key.
#[derive(Clone, Copy, Debug, PartialEq, Eq)]
pub struct KeyVerificationResult {
    /// The key.
    pub key: XorName,
    /// Whether the peer holds it.
    pub present: bool,
    /// Whether the peer knows it to be paid for, where that was asked.
    pub paid: Option<bool>,
}

/// What a peer says of the keys that it was asked about, in the same order.
#[derive(Clone, Debug, PartialEq, Eq)]
pub struct VerificationResponse {
    /// One entry for each key.
    pub results: Vec<KeyVerificationResult>,
}

/// A request for a chunk.
#[derive(Clone, Copy, Debug, PartialEq, Eq)]
pub struct FetchRequest {
    /// The chunk's address.
    pub key: XorName,
}

/// The answer to it.
#[derive(Clone, Debug, PartialEq, Eq)]
pub enum FetchResponse {
    /// The chunk.
    Success {
        /// Its address.
        key: XorName,
        /// The chunk.
        data: Vec<u8>,
    },
    /// The peer does not hold it.
    NotFound {
        /// The chunk's address.
        key: XorName,
    },
    /// The peer could not read it.
    Error {
        /// The chunk's address.
        key: XorName,
        /// Why not.
        reason: String,
    },
}

/// A demand for the audit digests of single keys.
#[derive(Clone, Debug, PartialEq, Eq)]
pub struct AuditChallenge {
    /// Which challenge this is.
    pub challenge_id: u64,
    /// What the digests are to be fresh under.
    pub nonce: [u8; 32],
    /// Who is challenged.
    pub challenged_peer_id: [u8; 32],
    /// The keys.
    pub keys: Vec<XorName>,
}

/// The answer to it.
#[derive(Clone, Debug, PartialEq, Eq)]
pub enum AuditResponse {
    /// One digest for each key.
    Digests {
        /// Which challenge is answered.
        challenge_id: u64,
        /// The digests.
        digests: Vec<[u8; 32]>,
    },
    /// The peer is starting up.
    Bootstrapping {
        /// Which challenge is answered.
        challenge_id: u64,
    },
    /// The peer does not answer the challenge.
    Rejected {
        /// Which challenge is answered.
        challenge_id: u64,
        /// Why not.
        reason: String,
    },
}

/// A demand to prove the branch that a nonce selects under a published commitment.
#[derive(Clone, Copy, Debug, PartialEq, Eq)]
pub struct SubtreeAuditChallenge {
    /// Which challenge this is.
    pub challenge_id: u64,
    /// What selects the branch, and what the leaves are to be fresh under.
    pub nonce: [u8; 32],
    /// Who is challenged.
    pub challenged_peer_id: [u8; 32],
    /// The digest of the pinned commitment.
    pub expected_commitment_hash: [u8; 32],
}

/// The answer to it.
#[derive(Debug)]
pub enum SubtreeAuditResponse {
    /// The branch.
    Proof {
        /// Which challenge is answered.
        challenge_id: u64,
        /// The pinned commitment.
        commitment: StorageCommitment,
        /// The branch and what joins it to the root.
        proof_of_branch: SubtreeProof,
    },
    /// The peer is starting up.
    Bootstrapping {
        /// Which challenge is answered.
        challenge_id: u64,
    },
    /// The peer does not answer for the pinned commitment.
    Rejected {
        /// Which challenge is answered.
        challenge_id: u64,
        /// Why not.
        reason: String,
    },
}

/// A demand for the bytes of some leaves of a proved branch.
#[derive(Clone, Debug, PartialEq, Eq)]
pub struct SubtreeByteChallenge {
    /// Which challenge this is.
    pub challenge_id: u64,
    /// The nonce of the branch.
    pub nonce: [u8; 32],
    /// Who is challenged.
    pub challenged_peer_id: [u8; 32],
    /// The digest of the pinned commitment.
    pub expected_commitment_hash: [u8; 32],
    /// The keys.
    pub keys: Vec<XorName>,
}

/// What a peer serves for one key.
#[derive(Clone, Debug, PartialEq, Eq)]
pub enum SubtreeByteItem {
    /// The bytes.
    Present {
        /// The key.
        key: XorName,
        /// Its bytes.
        bytes: Vec<u8>,
    },
    /// The peer does not have them.
    Absent {
        /// The key.
        key: XorName,
    },
}

/// The answer to a demand for bytes.
#[derive(Clone, Debug, PartialEq, Eq)]
pub enum SubtreeByteResponse {
    /// One item for each key.
    Items {
        /// Which challenge is answered.
        challenge_id: u64,
        /// The items.
        items: Vec<SubtreeByteItem>,
    },
    /// The peer is starting up.
    Bootstrapping {
        /// Which challenge is answered.
        challenge_id: u64,
    },
    /// The peer does not answer for the pinned commitment.
    Rejected {
        /// Which challenge is answered.
        challenge_id: u64,
        /// Why not.
        reason: String,
    },
}

/// One block that is to be opened.
#[derive(Clone, Copy, Debug, PartialEq, Eq)]
pub struct SubtreeSliceOpening {
    /// The key of the chunk.
    pub key: XorName,
    /// Which block of the chunk.
    pub block_index: u32,
}

/// A demand to open some blocks of the chunks of a proved branch.
#[derive(Clone, Debug, PartialEq, Eq)]
pub struct SubtreeSliceChallenge {
    /// Which challenge this is.
    pub challenge_id: u64,
    /// The nonce of the branch.
    pub nonce: [u8; 32],
    /// Who is challenged.
    pub challenged_peer_id: [u8; 32],
    /// The digest of the pinned commitment.
    pub expected_commitment_hash: [u8; 32],
    /// The blocks.
    pub openings: Vec<SubtreeSliceOpening>,
}

/// What a peer opens for one demand.
#[derive(Clone, Debug, PartialEq, Eq)]
pub enum SubtreeSliceItem {
    /// The block.
    Present {
        /// The key of the chunk.
        key: XorName,
        /// Which block of the chunk.
        block_index: u32,
        /// The Bao slice that holds the block.
        bao_slice: Vec<u8>,
        /// The siblings on the way from the block to the nonced root.
        nonced_siblings: Vec<[u8; 32]>,
    },
    /// The peer cannot open it.
    Absent {
        /// The key of the chunk.
        key: XorName,
        /// Which block of the chunk.
        block_index: u32,
    },
}

/// The answer to a demand to open blocks.
#[derive(Clone, Debug, PartialEq, Eq)]
pub enum SubtreeSliceResponse {
    /// One item for each opening.
    Items {
        /// Which challenge is answered.
        challenge_id: u64,
        /// The items.
        items: Vec<SubtreeSliceItem>,
    },
    /// The peer is starting up.
    Bootstrapping {
        /// Which challenge is answered.
        challenge_id: u64,
    },
    /// The peer does not answer the challenge.
    Rejected {
        /// Which challenge is answered.
        challenge_id: u64,
        /// Why not.
        reason: String,
    },
}

/// What one message says.
#[derive(Debug)]
pub enum ReplicationMessageBody {
    /// An offer.
    FreshReplicationOffer(FreshReplicationOffer),
    /// The answer to an offer.
    FreshReplicationResponse(FreshReplicationResponse),
    /// Word of a payment.
    PaidNotify(PaidNotify),
    /// A sync.
    NeighborSyncRequest(NeighborSyncRequest),
    /// The answer to a sync.
    NeighborSyncResponse(NeighborSyncResponse),
    /// A question which keys are held.
    VerificationRequest(VerificationRequest),
    /// The answer to it.
    VerificationResponse(VerificationResponse),
    /// A request for a chunk.
    FetchRequest(FetchRequest),
    /// The answer to it.
    FetchResponse(FetchResponse),
    /// A demand for audit digests.
    AuditChallenge(AuditChallenge),
    /// The answer to it.
    AuditResponse(AuditResponse),
    /// A demand to prove a branch.
    SubtreeAuditChallenge(SubtreeAuditChallenge),
    /// The answer to it.
    SubtreeAuditResponse(SubtreeAuditResponse),
    /// A demand for bytes.
    SubtreeByteChallenge(SubtreeByteChallenge),
    /// The answer to it.
    SubtreeByteResponse(SubtreeByteResponse),
}

/// The bytes that an audit of a key digests: the nonce, the challenged peer, the key and its bytes.
pub open spec fn audit_bytes(
    nonce: [u8; 32],
    peer: [u8; 32],
    key: XorName,
    bytes: Seq<u8>,
) -> Seq<u8> {
    nonce@ + peer@ + key@ + bytes
}

/// The audit digest of a key: that of the nonce, the challenged peer, the key and its bytes.
pub open spec fn audit_digest(
    nonce: [u8; 32],
    peer: [u8; 32],
    key: XorName,
    bytes: Seq<u8>,
) -> [u8; 32] {
    crate::hashing::blake3_digest(audit_bytes(nonce, peer, key, bytes))
}

/// An audit digest determines what it was made of: the nonce, the challenged peer, the key and all
/// of its bytes, unless the byte strings that two audits digest are different and have one digest.
pub proof fn audit_digest_determines_bytes(
    nonce: [u8; 32],
    peer: [u8; 32],
    key: XorName,
    bytes: Seq<u8>,
    nonce2: [u8; 32],
    peer2: [u8; 32],
    key2: XorName,
    bytes2: Seq<u8>,
)
    requires
        audit_digest(nonce, peer, key, bytes) == audit_digest(nonce2, peer2, key2, bytes2),
    ensures
        ({
            &&& nonce == nonce2
            &&& peer == peer2
            &&& key == key2
            &&& bytes == bytes2
        }) || crate::hashing::collides(
            (audit_bytes(nonce, peer, key, bytes), audit_bytes(nonce2, peer2, key2, bytes2)),
        ),
{
    let a = audit_bytes(nonce, peer, key, bytes);
    let b = audit_bytes(nonce2, peer2, key2, bytes2);
    if a == b {
        assert(a.subrange(0, 32) =~= nonce@ && b.subrange(0, 32) =~= nonce2@);
        assert(a.subrange(32, 64) =~= peer@ && b.subrange(32, 64) =~= peer2@);
        assert(a.subrange(64, 96) =~= key@ && b.subrange(64, 96) =~= key2@);
        assert(a.skip(96) =~= bytes && b.skip(96) =~= bytes2);
        assert(nonce =~= nonce2 && peer =~= peer2 && key =~= key2);
    }
}

/// Compute the audit digest of a key. It takes all of the bytes, under a nonce that is fresh for
/// each challenge.
pub fn compute_audit_digest(
    nonce: &[u8; 32],
    challenged_peer_id: &[u8; 32],
    key: &XorName,
    bytes: &[u8],
) -> (digest: [u8; 32])
    ensures
        digest == audit_digest(*nonce, *challenged_peer_id, *key, bytes@),
{
    let mut buf: Vec<u8> = Vec::new();
    append(&mut buf, nonce.as_slice());
    append(&mut buf, challenged_peer_id.as_slice());
    append(&mut buf, key.as_slice());
    append(&mut buf, bytes);
    assert(buf@ =~= nonce@ + challenged_peer_id@ + key@ + bytes@);
    blake3_hash(buf.as_slice())
}

} // verus!
