//! What a node keeps of the commitments that its peers publish.
//!
//! A commitment is taken only from a peer in the routing table that signs for itself. Whenever one
//! is taken, whether or not it is new, the peer may be audited against it; a peer that stops
//! publishing is audited against the last one that is known.

use crate::ant_protocol::XorName;
use crate::hashing::{blake3_hash, same_bytes32};
use crate::name_map::NameMap;
use crate::replication::accounting::{audit_launch_decision, sig_verify_rate_limit_ok};
use crate::replication::accounting::{stamped, stamped_within};
use crate::replication::accounting::COMMITMENT_SIG_VERIFY_MIN_INTERVAL_SECS;
use crate::replication::accounting::MAX_LAST_COMMITMENT_BY_PEER;
use crate::replication::commitment::{commitment_hash, verify_commitment_signature};
use crate::replication::commitment::{CommitmentView, StorageCommitment};
use crate::replication::commitment;
use crate::replication::commitment_state::PeerCommitmentRecord;
use crate::replication::config::AUDIT_ON_GOSSIP_COOLDOWN_SECS;
use crate::replication::recent_provers::{by_others, RecentProvers};
use crate::replication::types::PeerId;
use crate::time::Instant;
use vstd::prelude::*;
use vstd::string::*;

verus! {

/// How many peers are remembered to have published commitments.
pub const MAX_EVER_CAPABLE_PEERS: usize = 16_384;

/// What a peer can be audited against.
#[derive(Clone, Copy, Debug, PartialEq, Eq)]
pub struct AuditTarget {
    /// The digest of the commitment.
    pub pin_hash: [u8; 32],
    /// How many keys it covers.
    pub key_count: u32,
}

/// What became of what a peer published.
#[derive(Clone, Copy, Debug, PartialEq, Eq, Structural)]
pub enum IngestVerdict {
    /// The peer published no commitment.
    NoCommitment,
    /// The peer is not in the routing table.
    RtGate,
    /// The commitment names another peer.
    PeerIdMismatch,
    /// The peer's identity is not that of the key in the commitment.
    PubkeyBindMismatch,
    /// A signature of the peer was checked a moment ago.
    SigVerifyRateLimited,
    /// The signature is not valid.
    SigInvalid,
    /// It was taken.
    Accepted,
}

/// What follows from what a peer published.
#[derive(Clone, Copy, Debug)]
pub struct IngestOutcome {
    /// What became of it.
    pub verdict: IngestVerdict,
    /// What the peer can now be audited against.
    pub target: Option<AuditTarget>,
    /// How many commitments are kept.
    pub cache_size: usize,
}

/// What a commitment says, where there is one.
pub open spec fn published(commitment: Option<&StorageCommitment>) -> Option<CommitmentView> {
    match commitment {
        Some(c) => Some(c@),
        None => None,
    }
}

/// The first gate that a published commitment does not pass, or that it passes them all.
pub open spec fn ingest_verdict(
    source: PeerId,
    commitment: Option<CommitmentView>,
    in_routing_table: bool,
    attempts: Map<XorName, Instant>,
    now: Instant,
) -> IngestVerdict {
    match commitment {
        None => IngestVerdict::NoCommitment,
        Some(c) => if !in_routing_table {
            IngestVerdict::RtGate
        } else if c.sender_peer_id != source {
            IngestVerdict::PeerIdMismatch
        } else if crate::hashing::blake3_digest(c.sender_public_key) != c.sender_peer_id {
            IngestVerdict::PubkeyBindMismatch
        } else if stamped_within(
            attempts,
            source,
            now,
            COMMITMENT_SIG_VERIFY_MIN_INTERVAL_SECS,
        ) {
            IngestVerdict::SigVerifyRateLimited
        } else if !commitment::signed_by_own_key(c) {
            IngestVerdict::SigInvalid
        } else {
            IngestVerdict::Accepted
        },
    }
}

/// The audit target that a commitment makes.
pub open spec fn target_for(c: CommitmentView) -> AuditTarget {
    AuditTarget { pin_hash: commitment::commitment_digest(c), key_count: c.key_count }
}

/// The last known commitment of a peer that is known to publish them.
pub open spec fn last_known(records: Map<XorName, PeerCommitmentRecord>, source: PeerId) -> Option<
    CommitmentView,
> {
    if records.contains_key(source) && records[source].commitment_capable {
        match records[source].last_commitment {
            Some(c) => Some(c@),
            None => None,
        }
    } else {
        None
    }
}

/// What the peer can be audited against, given what became of what it published.
pub open spec fn ingest_target(
    verdict: IngestVerdict,
    commitment: Option<CommitmentView>,
    records: Map<XorName, PeerCommitmentRecord>,
    source: PeerId,
) -> Option<AuditTarget> {
    match verdict {
        IngestVerdict::NoCommitment => match last_known(records, source) {
            Some(c) => Some(target_for(c)),
            None => None,
        },
        IngestVerdict::Accepted => Some(target_for(commitment->0)),
        _ => None,
    }
}

/// Whether a record says that the commitment came in at `now`.
pub open spec fn is_record_of(
    record: PeerCommitmentRecord,
    c: CommitmentView,
    now: Instant,
) -> bool {
    &&& record.last_commitment matches Some(kept) && kept@ == c
    &&& record.commitment_capable
    &&& record.received_at == now
    &&& record.last_sig_verify_at == now
}

/// Whether `base` is `before` with room for `source`: a full table loses some entry for a new peer.
pub open spec fn with_room<V>(
    before: Map<XorName, V>,
    source: PeerId,
    base: Map<XorName, V>,
) -> bool {
    if before.contains_key(source) || before.dom().len() < MAX_LAST_COMMITMENT_BY_PEER {
        base == before
    } else {
        exists|victim: XorName| #[trigger]
            before.contains_key(victim) && base == before.remove(victim)
    }
}

/// Whether `after` is `before` with the commitment of `source`.
pub open spec fn recorded(
    before: Map<XorName, PeerCommitmentRecord>,
    source: PeerId,
    c: CommitmentView,
    now: Instant,
    after: Map<XorName, PeerCommitmentRecord>,
) -> bool {
    &&& after.contains_key(source)
    &&& is_record_of(after[source], c, now)
    &&& exists|base: Map<XorName, PeerCommitmentRecord>| #[trigger]
        with_room(before, source, base) && after == base.insert(source, after[source])
}

/// The peers remembered to have published commitments, after one of `source` was taken. Those that
/// are remembered stay; a full table takes no new ones.
pub open spec fn capable_after(before: Map<XorName, ()>, source: PeerId) -> Map<XorName, ()> {
    if before.contains_key(source) || before.dom().len() < MAX_EVER_CAPABLE_PEERS {
        before.insert(source, ())
    } else {
        before
    }
}

/// Once a peer is remembered to have published a commitment it stays so, whoever publishes next.
pub proof fn capability_is_sticky(before: Map<XorName, ()>, source: PeerId, peer: PeerId)
    requires
        before.contains_key(peer),
    ensures
        capable_after(before, source).contains_key(peer),
{
}

/// The memory of peers that have published does not outgrow its bound.
pub proof fn capable_peers_stay_bounded(before: Map<XorName, ()>, source: PeerId)
    requires
        before.dom().finite(),
        before.dom().len() <= MAX_EVER_CAPABLE_PEERS,
    ensures
        capable_after(before, source).dom().len() <= MAX_EVER_CAPABLE_PEERS,
{
    assert(before.insert(source, ()).dom() =~= before.dom().insert(source));
}

/// The table of commitments does not outgrow its bound.
pub proof fn records_stay_bounded(
    before: Map<XorName, PeerCommitmentRecord>,
    source: PeerId,
    c: CommitmentView,
    now: Instant,
    after: Map<XorName, PeerCommitmentRecord>,
)
    requires
        before.dom().finite(),
        before.dom().len() <= MAX_LAST_COMMITMENT_BY_PEER,
        recorded(before, source, c, now, after),
    ensures
        after.dom().finite(),
        after.dom().len() <= MAX_LAST_COMMITMENT_BY_PEER,
{
    let base = choose|base: Map<XorName, PeerCommitmentRecord>| #[trigger]
        with_room(before, source, base) && after == base.insert(source, after[source]);
    assert(after.dom() =~= base.dom().insert(source));
    if before.contains_key(source) {
        assert(after.dom() =~= before.dom());
    } else if before.dom().len() >= MAX_LAST_COMMITMENT_BY_PEER {
        let victim = choose|victim: XorName| #[trigger]
            before.contains_key(victim) && base == before.remove(victim);
        assert(base.dom() =~= before.dom().remove(victim));
    }
}

/// Whether every kept commitment is the word of the peer that it is kept for, signed with the key
/// that the peer's identity comes from.
pub open spec fn records_authentic(records: Map<XorName, PeerCommitmentRecord>) -> bool {
    forall|peer: XorName| #[trigger]
        records.contains_key(peer) ==> match records[peer].last_commitment {
            Some(c) => c@.sender_peer_id == peer && crate::hashing::blake3_digest(
                c@.sender_public_key,
            ) == peer && commitment::signed_by_own_key(c@),
            None => true,
        }
}

/// Whatever is published, every kept commitment is the word of its own peer.
pub proof fn records_stay_authentic(
    before: Map<XorName, PeerCommitmentRecord>,
    source: PeerId,
    c: CommitmentView,
    in_routing_table: bool,
    attempts: Map<XorName, Instant>,
    now: Instant,
    after: Map<XorName, PeerCommitmentRecord>,
)
    requires
        records_authentic(before),
        ingest_verdict(source, Some(c), in_routing_table, attempts, now) is Accepted,
        recorded(before, source, c, now, after),
    ensures
        records_authentic(after),
{
    let base = choose|base: Map<XorName, PeerCommitmentRecord>| #[trigger]
        with_room(before, source, base) && after == base.insert(source, after[source]);
    assert forall|peer: XorName| #[trigger] after.contains_key(peer) implies match after[peer]
        .last_commitment {
        Some(kept) => kept@.sender_peer_id == peer && crate::hashing::blake3_digest(
            kept@.sender_public_key,
        ) == peer && commitment::signed_by_own_key(kept@),
        None => true,
    } by {
        if peer != source {
            assert(base.contains_key(peer) && base[peer] == after[peer]);
            assert(before.contains_key(peer) && before[peer] == base[peer]);
        }
    }
}

/// A peer that publishes nothing more can still be audited against its last known commitment.
pub proof fn downgrade_is_audited(
    before: Map<XorName, PeerCommitmentRecord>,
    source: PeerId,
    c: CommitmentView,
    now: Instant,
    after: Map<XorName, PeerCommitmentRecord>,
)
    requires
        recorded(before, source, c, now, after),
    ensures
        ingest_target(IngestVerdict::NoCommitment, None, after, source) == Some(target_for(c)),
{
}

/// A commitment is taken just where the peer is in the routing table, the commitment names that
/// peer, the peer's identity is the digest of the public key in the commitment, none of its
/// signatures was checked within the last minute, and the signature over the root, the number of
/// keys, the peer and the key is valid under that key.
pub proof fn only_authentic_commitments_are_taken(
    source: PeerId,
    commitment: Option<CommitmentView>,
    in_routing_table: bool,
    attempts: Map<XorName, Instant>,
    now: Instant,
)
    ensures
        ingest_verdict(source, commitment, in_routing_table, attempts, now) is Accepted <==> (
        commitment matches Some(c) && in_routing_table && c.sender_peer_id == source
            && crate::hashing::blake3_digest(c.sender_public_key) == source && !(
        attempts.dom().contains(source) && now.nanos < attempts[source].nanos + 60_000_000_000)
            && crate::ml_dsa::signature_valid(
            c.sender_public_key,
            "autonomi.ant.replication.storage-commitment.signature.v1".spec_bytes() + c.root@
                + vstd::bytes::spec_u32_to_le_bytes(c.key_count) + source@ + c.sender_public_key,
            c.signature,
        )),
        ingest_verdict(source, commitment, in_routing_table, attempts, now) is NoCommitment
            <==> commitment is None,
{
}

/// Why a commitment was not taken is the first thing that is wrong with it, and a signature is only
/// checked where nothing else is.
pub proof fn first_failed_gate_is_named(
    source: PeerId,
    c: CommitmentView,
    in_routing_table: bool,
    attempts: Map<XorName, Instant>,
    now: Instant,
)
    ensures
        ({
            let verdict = ingest_verdict(source, Some(c), in_routing_table, attempts, now);
            let bound = crate::hashing::blake3_digest(c.sender_public_key) == c.sender_peer_id;
            let limited = attempts.dom().contains(source) && now.nanos < attempts[source].nanos
                + 60_000_000_000;
            &&& verdict is RtGate <==> !in_routing_table
            &&& verdict is PeerIdMismatch <==> in_routing_table && c.sender_peer_id != source
            &&& verdict is PubkeyBindMismatch <==> in_routing_table && c.sender_peer_id == source
                && !bound
            &&& verdict is SigVerifyRateLimited <==> in_routing_table && c.sender_peer_id == source
                && bound && limited
            &&& verdict is SigInvalid ==> in_routing_table && c.sender_peer_id == source && bound
                && !limited
        }),
{
}

/// A peer is audited against the commitment that was just taken from it, or where it published none
/// against the last one that is kept for it, and else not at all. The target is pinned by the digest
/// of the commitment's encoding.
pub proof fn audits_pin_last_taken_commitment(
    verdict: IngestVerdict,
    commitment: Option<CommitmentView>,
    records: Map<XorName, PeerCommitmentRecord>,
    source: PeerId,
)
    requires
        verdict is Accepted ==> commitment is Some,
    ensures
        ({
            let target = ingest_target(verdict, commitment, records, source);
            let kept = if records.dom().contains(source) && records[source].commitment_capable {
                records[source].last_commitment
            } else {
                None
            };
            &&& verdict is Accepted ==> (target matches Some(t) && t.key_count
                == commitment->0.key_count && t.pin_hash == crate::hashing::blake3_digest(
                commitment::wire_bytes(commitment->0),
            ))
            &&& verdict is NoCommitment && kept is None ==> target is None
            &&& verdict is NoCommitment && kept is Some ==> (target matches Some(t) && t.key_count
                == kept->0@.key_count && t.pin_hash == crate::hashing::blake3_digest(
                commitment::wire_bytes(kept->0@),
            ))
            &&& !(verdict is Accepted || verdict is NoCommitment) ==> target is None
        }),
{
}

/// Taking a commitment replaces the one of its peer and leaves those of others as they are; one of
/// them goes only where the table holds as many as it may and the peer is new to it.
pub proof fn recording_keeps_other_records(
    before: Map<XorName, PeerCommitmentRecord>,
    source: PeerId,
    c: CommitmentView,
    now: Instant,
    after: Map<XorName, PeerCommitmentRecord>,
)
    requires
        recorded(before, source, c, now, after),
    ensures
        after.dom().contains(source) && after[source].commitment_capable
            && after[source].received_at == now && after[source].last_sig_verify_at == now,
        after[source].last_commitment matches Some(kept) && kept@ == c,
        forall|peer: XorName| #[trigger]
            after.dom().contains(peer) && peer != source ==> before.dom().contains(peer)
                && after[peer] == before[peer],
        before.dom().contains(source) || before.dom().len() < 4096 ==> forall|peer: XorName|
            #[trigger]
            before.dom().contains(peer) ==> after.dom().contains(peer),
        forall|a: XorName, b: XorName|
            #![trigger before.dom().contains(a), before.dom().contains(b)]
            before.dom().contains(a) && !after.dom().contains(a) && before.dom().contains(b)
                && !after.dom().contains(b) ==> a == b,
{
}

/// A peer whose commitment was taken is remembered, as long as there is room for new ones, and nobody
/// else becomes so by it.
pub proof fn capability_is_noted(before: Map<XorName, ()>, source: PeerId, peer: PeerId)
    ensures
        before.dom().len() < 16_384 ==> capable_after(before, source).dom().contains(source),
        peer != source ==> capable_after(before, source).dom().contains(peer)
            == before.dom().contains(peer),
{
}

/// What is published is what the commitment says, and nothing where there is none.
pub proof fn commitment_is_published_as_it_is(commitment: Option<&StorageCommitment>)
    ensures
        published(commitment) is Some <==> commitment is Some,
        commitment matches Some(c) ==> published(commitment)->0 == c@,
{
}

/// Every verdict has a word of its own, and what was taken is said to be accepted.
pub proof fn verdict_names_differ(a: IngestVerdict, b: IngestVerdict)
    requires
        a != b,
    ensures
        verdict_name(a) != verdict_name(b),
        verdict_name(IngestVerdict::Accepted) == "accepted"@,
        verdict_name(IngestVerdict::NoCommitment) == "no_commitment"@,
        verdict_name(IngestVerdict::RtGate) == "rt_gate"@,
        verdict_name(IngestVerdict::PeerIdMismatch) == "peer_id_mismatch"@,
        verdict_name(IngestVerdict::PubkeyBindMismatch) == "pubkey_bind_mismatch"@,
        verdict_name(IngestVerdict::SigVerifyRateLimited) == "sig_verify_rate_limited"@,
        verdict_name(IngestVerdict::SigInvalid) == "sig_invalid"@,
{
    reveal_strlit("no_commitment");
    reveal_strlit("rt_gate");
    reveal_strlit("peer_id_mismatch");
    reveal_strlit("pubkey_bind_mismatch");
    reveal_strlit("sig_verify_rate_limited");
    reveal_strlit("sig_invalid");
    reveal_strlit("accepted");
    assert(verdict_name(a).len() != verdict_name(b).len());
}

/// The word for a verdict in records.
pub open spec fn verdict_name(verdict: IngestVerdict) -> Seq<char> {
    match verdict {
        IngestVerdict::NoCommitment => "no_commitment"@,
        IngestVerdict::RtGate => "rt_gate"@,
        IngestVerdict::PeerIdMismatch => "peer_id_mismatch"@,
        IngestVerdict::PubkeyBindMismatch => "pubkey_bind_mismatch"@,
        IngestVerdict::SigVerifyRateLimited => "sig_verify_rate_limited"@,
        IngestVerdict::SigInvalid => "sig_invalid"@,
        IngestVerdict::Accepted => "accepted"@,
    }
}

impl IngestVerdict {
    /// The word for the verdict in records.
    pub fn name(&self) -> (name: &'static str)
        ensures
            name@ == verdict_name(*self),
    {
        match self {
            IngestVerdict::NoCommitment => "no_commitment",
            IngestVerdict::RtGate => "rt_gate",
            IngestVerdict::PeerIdMismatch => "peer_id_mismatch",
            IngestVerdict::PubkeyBindMismatch => "pubkey_bind_mismatch",
            IngestVerdict::SigVerifyRateLimited => "sig_verify_rate_limited",
            IngestVerdict::SigInvalid => "sig_invalid",
            IngestVerdict::Accepted => "accepted",
        }
    }
}

/// The audit target of a peer that published no commitment.
fn downgrade_target(records: &NameMap<PeerCommitmentRecord>, source: &PeerId) -> (target: Option<
    AuditTarget,
>)
    ensures
        target == ingest_target(IngestVerdict::NoCommitment, None, records@, *source),
{
    match records.get(source) {
        Some(record) => if record.commitment_capable {
            match &record.last_commitment {
                Some(last) => match commitment_hash(last) {
                    Some(pin_hash) => Some(AuditTarget { pin_hash, key_count: last.key_count }),
                    None => None,
                },
                None => None,
            }
        } else {
            None
        },
        None => None,
    }
}

/// What a peer can be audited against right now: the commitment that is kept for it.
pub fn cached_target(records: &NameMap<PeerCommitmentRecord>, peer: &PeerId) -> (target: Option<
    AuditTarget,
>)
    ensures
        target == if records@.contains_key(*peer) {
            match records@[*peer].last_commitment {
                Some(c) => Some(target_for(c@)),
                None => None,
            }
        } else {
            None
        },
{
    match records.get(peer) {
        Some(record) => match &record.last_commitment {
            Some(last) => match commitment_hash(last) {
                Some(pin_hash) => Some(AuditTarget { pin_hash, key_count: last.key_count }),
                None => None,
            },
            None => None,
        },
        None => None,
    }
}

/// Hold a published commitment to the gates, and keep it where it passes them all. A signature that
/// was checked counts against the peer's next one, whether or not it was valid.
pub fn ingest_peer_commitment(
    source: &PeerId,
    commitment: Option<&StorageCommitment>,
    in_routing_table: bool,
    last_commitment_by_peer: &mut NameMap<PeerCommitmentRecord>,
    ever_capable_peers: &mut NameMap<()>,
    sig_verify_attempts: &mut NameMap<Instant>,
    now: Instant,
) -> (outcome: IngestOutcome)
    ensures
        outcome.verdict == ingest_verdict(
            *source,
            published(commitment),
            in_routing_table,
            old(sig_verify_attempts)@,
            now,
        ),
        outcome.target == ingest_target(
            outcome.verdict,
            published(commitment),
            old(last_commitment_by_peer)@,
            *source,
        ),
        outcome.cache_size == final(last_commitment_by_peer)@.dom().len(),
        if outcome.verdict is SigInvalid || outcome.verdict is Accepted {
            stamped(old(sig_verify_attempts)@, *source, now, final(sig_verify_attempts)@)
        } else {
            final(sig_verify_attempts)@ == old(sig_verify_attempts)@
        },
        if outcome.verdict is Accepted {
            recorded(
                old(last_commitment_by_peer)@,
                *source,
                commitment->0@,
                now,
                final(last_commitment_by_peer)@,
            ) && final(ever_capable_peers)@ == capable_after(old(ever_capable_peers)@, *source)
        } else {
            final(last_commitment_by_peer)@ == old(last_commitment_by_peer)@
                && final(ever_capable_peers)@ == old(ever_capable_peers)@
        },
        outcome.verdict is Accepted <==> (commitment matches Some(c) && in_routing_table
            && c.sender_peer_id == *source && crate::hashing::blake3_digest(c.sender_public_key@)
            == *source && commitment::signed_by_own_key(c@) && !(old(
            sig_verify_attempts
        )@.contains_key(*source) && now.nanos < old(sig_verify_attempts)@[*source].nanos
            + 60_000_000_000)),
{
    let size: usize = last_commitment_by_peer.len();
    let c = match commitment {
        Some(c) => c,
        None => {
            return IngestOutcome {
                verdict: IngestVerdict::NoCommitment,
                target: downgrade_target(last_commitment_by_peer, source),
                cache_size: size,
            };
        },
    };
    if !in_routing_table {
        return IngestOutcome {
            verdict: IngestVerdict::RtGate,
            target: None,
            cache_size: size,
        };
    }
    if !same_bytes32(&c.sender_peer_id, source) {
        return IngestOutcome {
            verdict: IngestVerdict::PeerIdMismatch,
            target: None,
            cache_size: size,
        };
    }
    let derived_peer_id = blake3_hash(c.sender_public_key.as_slice());
    if !same_bytes32(&derived_peer_id, &c.sender_peer_id) {
        return IngestOutcome {
            verdict: IngestVerdict::PubkeyBindMismatch,
            target: None,
            cache_size: size,
        };
    }
    if !sig_verify_rate_limit_ok(sig_verify_attempts, source, now) {
        return IngestOutcome {
            verdict: IngestVerdict::SigVerifyRateLimited,
            target: None,
            cache_size: size,
        };
    }
    if !verify_commitment_signature(c) {
        return IngestOutcome {
            verdict: IngestVerdict::SigInvalid,
            target: None,
            cache_size: size,
        };
    }
    let ghost before = last_commitment_by_peer@;
    if size >= MAX_LAST_COMMITMENT_BY_PEER && !last_commitment_by_peer.contains(source) {
        let victim: PeerId = last_commitment_by_peer.at(0).0;
        assert(before.contains_key(victim));
        last_commitment_by_peer.remove(&victim);
    }
    let ghost base = last_commitment_by_peer@;
    assert(with_room(before, *source, base));
    last_commitment_by_peer.insert(*source, PeerCommitmentRecord::from_verified(c.clone(), now));
    assert(last_commitment_by_peer@ =~= base.insert(*source, last_commitment_by_peer@[*source]));
    let cache_size: usize = last_commitment_by_peer.len();
    if ever_capable_peers.contains(source) || ever_capable_peers.len() < MAX_EVER_CAPABLE_PEERS {
        ever_capable_peers.insert(*source, ());
    }
    let target = match commitment_hash(c) {
        Some(pin_hash) => Some(AuditTarget { pin_hash, key_count: c.key_count }),
        None => None,
    };
    IngestOutcome { verdict: IngestVerdict::Accepted, target, cache_size }
}

/// Decide whether what a peer published makes an audit of it start now, and against what. A node
/// that is starting up itself audits nobody; otherwise each chance that the cooldown gives is used
/// up, whether or not the lottery is won.
pub fn maybe_trigger_gossip_audit(
    bootstrapping: bool,
    peer: &PeerId,
    target: Option<AuditTarget>,
    cooldown: &mut NameMap<Instant>,
    now: Instant,
    lottery_wins: bool,
) -> (launched: Option<AuditTarget>)
    ensures
        launched == if !bootstrapping && lottery_wins && !stamped_within(
            old(cooldown)@,
            *peer,
            now,
            AUDIT_ON_GOSSIP_COOLDOWN_SECS,
        ) {
            target
        } else {
            None
        },
        if bootstrapping || target is None || stamped_within(
            old(cooldown)@,
            *peer,
            now,
            AUDIT_ON_GOSSIP_COOLDOWN_SECS,
        ) {
            final(cooldown)@ == old(cooldown)@
        } else {
            stamped(old(cooldown)@, *peer, now, final(cooldown)@)
        },
{
    if bootstrapping || target.is_none() {
        return None;
    }
    if audit_launch_decision(cooldown, peer, now, lottery_wins) {
        target
    } else {
        None
    }
}

/// Forget a peer that left the routing table: its commitment, its credit as a holder, and the
/// stamps and counts that are kept for it. That it once published a commitment stays known.
pub fn forget_departed_peer(
    peer: &PeerId,
    last_commitment_by_peer: &mut NameMap<PeerCommitmentRecord>,
    recent_provers: &mut RecentProvers,
    sig_verify_attempts: &mut NameMap<Instant>,
    audit_timeout_strikes: &mut NameMap<u32>,
    audit_on_gossip_cooldown: &mut NameMap<Instant>,
)
    ensures
        final(last_commitment_by_peer)@ == old(last_commitment_by_peer)@.remove(*peer),
        forall|key: XorName| #[trigger]
            final(recent_provers).proofs_of(key) == old(recent_provers).proofs_of(key).filter(
                by_others(*peer),
            ),
        final(sig_verify_attempts)@ == old(sig_verify_attempts)@.remove(*peer),
        final(audit_timeout_strikes)@ == old(audit_timeout_strikes)@.remove(*peer),
        final(audit_on_gossip_cooldown)@ == old(audit_on_gossip_cooldown)@.remove(*peer),
{
    last_commitment_by_peer.remove(peer);
    recent_provers.forget_peer(peer);
    sig_verify_attempts.remove(peer);
    audit_timeout_strikes.remove(peer);
    audit_on_gossip_cooldown.remove(peer);
}

} // verus!
