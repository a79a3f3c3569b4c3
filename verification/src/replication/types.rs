//! Words that the parts of replication share.

use crate::ant_protocol::XorName;
use vstd::prelude::*;

verus! {

/// The identity of a peer: the BLAKE3 digest of its public key.
pub type PeerId = [u8; 32];

/// Why an audit failed.
#[derive(Clone, Copy, Debug, PartialEq, Eq, Structural)]
pub enum AuditFailureReason {
    /// No answer came in time.
    Timeout,
    /// The answer could not be read, or was not one to the challenge.
    MalformedResponse,
    /// The answer did not prove what was committed to.
    DigestMismatch,
    /// The peer said that it does not have a key.
    KeyAbsent,
    /// The peer repudiated a commitment that it had published.
    Rejected,
}

/// What shows that a peer misbehaved.
#[derive(Debug)]
pub enum FailureEvidence {
    /// A failed audit.
    AuditFailure {
        /// Which challenge it was.
        challenge_id: u64,
        /// Who was challenged.
        challenged_peer: PeerId,
        /// The keys that the peer is known not to hold.
        confirmed_failed_keys: Vec<XorName>,
        /// Why it failed.
        reason: AuditFailureReason,
    },
}

/// By which way a hint about a key came in.
#[derive(Clone, Copy, Debug, PartialEq, Eq, Structural)]
pub enum HintPipeline {
    /// The node should hold a replica of the key.
    Replica,
    /// The node should only know that the key is paid for.
    PaidOnly,
}

} // verus!
