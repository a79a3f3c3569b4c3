//! What a node reports of its decisions.
//!
//! Each function makes one record. Whoever runs the node decides where records go.

use crate::ant_protocol::XorName;
use crate::hashing::{hex_encode, hex_text};
use crate::replication::types::PeerId;
use vstd::prelude::*;

verus! {

/// One record.
#[derive(Clone, Copy, Debug, PartialEq, Eq)]
pub enum V12Event<'a> {
    /// A node started.
    NodeStarted {
        /// Who.
        peer: &'a str,
        /// How it behaves.
        role: &'a str,
        /// What it runs.
        version: &'a str,
    },
    /// A commitment came in.
    GossipIngest {
        /// From whom.
        source: &'a str,
        /// Whether it was taken.
        accept: bool,
        /// Why, or why not.
        reason: &'a str,
        /// How many commitments are kept.
        cache_size: usize,
    },
    /// A challenge went out.
    AuditIssued {
        /// To whom.
        challenged_peer: &'a str,
        /// Which challenge.
        challenge_id: u64,
        /// How many keys it is about.
        keys: usize,
        /// The pinned commitment.
        pin: Option<&'a str>,
        /// Whether the peer has published commitments.
        commitment_capable: bool,
    },
    /// An audit ended.
    AuditOutcome {
        /// Whose.
        challenged_peer: &'a str,
        /// Which challenge.
        challenge_id: u64,
        /// How.
        outcome: &'a str,
        /// Which gate failed.
        gate: Option<&'a str>,
    },
    /// A holder was credited.
    HolderCreditRecorded {
        /// Who.
        peer: &'a str,
        /// For which key.
        key: &'a str,
        /// Under which commitment.
        pin: &'a str,
    },
    /// Credit was taken away.
    HolderCreditDropped {
        /// From whom.
        peer: Option<&'a str>,
        /// Under which commitment.
        pin: Option<&'a str>,
        /// Why.
        reason: &'a str,
        /// How many entries.
        entries_dropped: usize,
    },
    /// A peer left the routing table.
    PeerRemoved {
        /// Who.
        peer: &'a str,
    },
    /// A key was voted on.
    QuorumDecision {
        /// Which key.
        key: &'a str,
        /// How it went.
        outcome: &'a str,
        /// Credited holders that have it.
        present_credited: usize,
        /// Others that say so.
        present_uncredited: usize,
        /// Peers that do not have it.
        absent: usize,
        /// Peers that did not say.
        unresolved: usize,
    },
    /// The node's own commitment changed.
    CommitmentRotated {
        /// To which.
        new_pin: &'a str,
        /// How many keys it covers.
        key_count: u32,
        /// How many commitments the node can answer for.
        retained_slots: usize,
    },
}

/// A peer in hexadecimal digits.
pub fn peer_hex(p: &PeerId) -> (text: String)
    ensures
        text@ == hex_text(p@),
{
    hex_encode(p.as_slice())
}

/// A digest in hexadecimal digits.
pub fn hex32(b: &[u8; 32]) -> (text: String)
    ensures
        text@ == hex_text(b@),
{
    hex_encode(b.as_slice())
}

/// A key in hexadecimal digits.
pub fn key_hex(k: &XorName) -> (text: String)
    ensures
        text@ == hex_text(k@),
{
    hex_encode(k.as_slice())
}

/// A node started.
pub fn node_started<'a>(peer: &'a str, role: &'a str, version: &'a str) -> (event: V12Event<'a>)
    ensures
        event == (V12Event::NodeStarted { peer, role, version }),
{
    V12Event::NodeStarted { peer, role, version }
}

/// A commitment came in.
pub fn gossip_ingest<'a>(
    source: &'a str,
    accept: bool,
    reason: &'a str,
    cache_size: usize,
) -> (event: V12Event<'a>)
    ensures
        event == (V12Event::GossipIngest { source, accept, reason, cache_size }),
{
    V12Event::GossipIngest { source, accept, reason, cache_size }
}

/// A challenge went out.
pub fn audit_issued<'a>(
    challenged_peer: &'a str,
    challenge_id: u64,
    keys: usize,
    pin: Option<&'a str>,
    commitment_capable: bool,
) -> (event: V12Event<'a>)
    ensures
        event == (V12Event::AuditIssued {
            challenged_peer,
            challenge_id,
            keys,
            pin,
            commitment_capable,
        }),
{
    V12Event::AuditIssued { challenged_peer, challenge_id, keys, pin, commitment_capable }
}

/// An audit ended.
pub fn audit_outcome<'a>(
    challenged_peer: &'a str,
    challenge_id: u64,
    outcome: &'a str,
    gate: Option<&'a str>,
) -> (event: V12Event<'a>)
    ensures
        event == (V12Event::AuditOutcome { challenged_peer, challenge_id, outcome, gate }),
{
    V12Event::AuditOutcome { challenged_peer, challenge_id, outcome, gate }
}

/// A holder was credited.
pub fn holder_credit_recorded<'a>(peer: &'a str, key: &'a str, pin: &'a str) -> (event: V12Event<
    'a,
>)
    ensures
        event == (V12Event::HolderCreditRecorded { peer, key, pin }),
{
    V12Event::HolderCreditRecorded { peer, key, pin }
}

/// Credit was taken away.
pub fn holder_credit_dropped<'a>(
    peer: Option<&'a str>,
    pin: Option<&'a str>,
    reason: &'a str,
    entries_dropped: usize,
) -> (event: V12Event<'a>)
    ensures
        event == (V12Event::HolderCreditDropped { peer, pin, reason, entries_dropped }),
{
    V12Event::HolderCreditDropped { peer, pin, reason, entries_dropped }
}

/// A peer left the routing table.
pub fn peer_removed<'a>(peer: &'a str) -> (event: V12Event<'a>)
    ensures
        event == (V12Event::PeerRemoved { peer }),
{
    V12Event::PeerRemoved { peer }
}

/// A key was voted on.
pub fn quorum_decision<'a>(
    key: &'a str,
    outcome: &'a str,
    present_credited: usize,
    present_uncredited: usize,
    absent: usize,
    unresolved: usize,
) -> (event: V12Event<'a>)
    ensures
        event == (V12Event::QuorumDecision {
            key,
            outcome,
            present_credited,
            present_uncredited,
            absent,
            unresolved,
        }),
{
    V12Event::QuorumDecision {
        key,
        outcome,
        present_credited,
        present_uncredited,
        absent,
        unresolved,
    }
}

/// The node's own commitment changed.
pub fn commitment_rotated<'a>(
    new_pin: &'a str,
    key_count: u32,
    retained_slots: usize,
) -> (event: V12Event<'a>)
    ensures
        event == (V12Event::CommitmentRotated { new_pin, key_count, retained_slots }),
{
    V12Event::CommitmentRotated { new_pin, key_count, retained_slots }
}

} // verus!
