//! What the end of an audit changes.

use crate::ant_protocol::XorName;
use crate::name_map::NameMap;
use crate::replication::accounting::{action_for, miss_threshold, misses_of, one_more};
use crate::replication::accounting::{apply_audit_failure_credit_revocation, plan_failed_audit};
use crate::replication::accounting::AuditFailureAction;
use crate::replication::audit::AuditTickResult;
use crate::replication::recent_provers::{by_others, HolderProof, RecentProvers};
use crate::replication::sync::{claim_is_abuse, is_abuse, NeighborSyncState, NeighborSyncView};
use crate::replication::types::{AuditFailureReason, FailureEvidence, PeerId};
use crate::time::{Duration, Instant};
use vstd::prelude::*;

verus! {

/// What is reported to those who keep track of trust.
#[derive(Clone, Copy, Debug, PartialEq, Eq)]
pub enum TrustReport {
    /// Nothing.
    Nothing,
    /// The peer passed an audit.
    AuditPassed {
        /// Which peer.
        peer: PeerId,
    },
    /// The peer failed an audit, beyond doubt.
    AuditFailed {
        /// Which peer.
        peer: PeerId,
    },
    /// The peer claims too long or too often to be starting up.
    ClaimAbused {
        /// Which peer.
        peer: PeerId,
    },
}

/// Whether a failed audit with this reason changed nothing but, for a miss, the count of misses; or
/// else took away the peer's credit and its claim to be starting up.
pub open spec fn failure_settled(
    peer: PeerId,
    reason: AuditFailureReason,
    sync: (NeighborSyncView, NeighborSyncView),
    provers_before: RecentProvers,
    provers_after: RecentProvers,
    strikes: (Map<XorName, u32>, Map<XorName, u32>),
    report: TrustReport,
) -> bool {
    if reason == AuditFailureReason::Timeout {
        &&& strikes.1 == strikes.0.insert(peer, one_more(misses_of(strikes.0, peer)))
        &&& sync.1 == sync.0
        &&& provers_after == provers_before
        &&& report is Nothing
    } else {
        &&& strikes.1 == strikes.0
        &&& sync.1 == sync.0.without_claim(peer)
        &&& forall|key: XorName| #[trigger]
            provers_after.proofs_of(key) == provers_before.proofs_of(key).filter(by_others(peer))
        &&& report == (TrustReport::AuditFailed { peer })
    }
}

/// A failure for any other reason than a missed deadline is acted on the first time: it is reported,
/// the peer is left without a proof of any key, under any commitment, and its claim to be starting
/// up ends. What other peers proved and claim stays, and so do all counts of misses and the memory
/// of who ever claimed to be starting up.
pub proof fn confirmed_failure_is_penalized(
    peer: PeerId,
    reason: AuditFailureReason,
    sync: (NeighborSyncView, NeighborSyncView),
    provers_before: RecentProvers,
    provers_after: RecentProvers,
    strikes: (Map<XorName, u32>, Map<XorName, u32>),
    report: TrustReport,
)
    requires
        failure_settled(peer, reason, sync, provers_before, provers_after, strikes, report),
        reason is MalformedResponse || reason is DigestMismatch || reason is KeyAbsent
            || reason is Rejected,
    ensures
        report == (TrustReport::AuditFailed { peer }),
        forall|key: XorName, i: int|
            0 <= i < provers_after.proofs_of(key).len() ==> (#[trigger] provers_after.proofs_of(
                key,
            )[i]).peer != peer,
        forall|key: XorName, proved: HolderProof|
            proved.peer != peer ==> (#[trigger] provers_after.proofs_of(key).contains(proved)
                == provers_before.proofs_of(key).contains(proved)),
        !sync.1.bootstrap_claims.dom().contains(peer),
        forall|other: XorName|
            other != peer ==> (#[trigger] sync.1.bootstrap_claims.dom().contains(other)
                <==> sync.0.bootstrap_claims.dom().contains(other)) && (
            sync.0.bootstrap_claims.dom().contains(other) ==> sync.1.bootstrap_claims[other]
                == sync.0.bootstrap_claims[other]),
        sync.1.bootstrap_claim_history == sync.0.bootstrap_claim_history,
        sync.1.order == sync.0.order && sync.1.cursor == sync.0.cursor,
        sync.1.last_sync_times == sync.0.last_sync_times,
        strikes.1 == strikes.0,
{
    assert forall|key: XorName, i: int| 0 <= i < provers_after.proofs_of(key).len() implies (
    #[trigger] provers_after.proofs_of(key)[i]).peer != peer by {
        let before = provers_before.proofs_of(key);
        let after = provers_after.proofs_of(key);
        assert(after == before.filter(by_others(peer)));
        before.lemma_filter_pred(by_others(peer), i);
    }
    assert forall|key: XorName, proved: HolderProof| proved.peer != peer implies (
    #[trigger] provers_after.proofs_of(key).contains(proved) == provers_before.proofs_of(
        key,
    ).contains(proved)) by {
        let before = provers_before.proofs_of(key);
        let after = provers_after.proofs_of(key);
        assert(after == before.filter(by_others(peer)));
        if before.contains(proved) {
            let k = choose|k: int| 0 <= k < before.len() && before[k] == proved;
            before.lemma_filter_contains(by_others(peer), k);
        }
        if after.contains(proved) {
            before.lemma_filter_contains_rev(by_others(peer), proved);
        }
    }
}

/// A missed deadline costs nothing but a count: it is not reported, no proof and no claim is lost,
/// and the count of the peer's misses, and of no other's, grows by one until it is full.
pub proof fn missed_deadline_is_only_counted(
    peer: PeerId,
    sync: (NeighborSyncView, NeighborSyncView),
    provers_before: RecentProvers,
    provers_after: RecentProvers,
    strikes: (Map<XorName, u32>, Map<XorName, u32>),
    report: TrustReport,
)
    requires
        failure_settled(
            peer,
            AuditFailureReason::Timeout,
            sync,
            provers_before,
            provers_after,
            strikes,
            report,
        ),
    ensures
        report == TrustReport::Nothing,
        sync.1 == sync.0,
        provers_after == provers_before,
        strikes.1.dom().contains(peer),
        strikes.0.dom().contains(peer) && strikes.0[peer] < 64 ==> strikes.1[peer]
            == strikes.0[peer] + 1,
        strikes.0.dom().contains(peer) && strikes.0[peer] >= 64 ==> strikes.1[peer] == 64,
        !strikes.0.dom().contains(peer) ==> strikes.1[peer] == 1,
        forall|other: XorName|
            other != peer ==> (#[trigger] strikes.1.dom().contains(other)
                <==> strikes.0.dom().contains(other)) && (strikes.0.dom().contains(other)
                ==> strikes.1[other] == strikes.0[other]),
{
}

/// Settle a failed audit. A missed deadline is counted, and, for now, not reported even where too
/// many were missed, since peers that do not speak this protocol yet miss every one. A confirmed
/// failure takes away the peer's credit as a holder and its claim to be starting up.
pub fn handle_failed_audit(
    challenged_peer: &PeerId,
    reason: &AuditFailureReason,
    sync_state: &mut NeighborSyncState,
    recent_provers: &mut RecentProvers,
    audit_timeout_strikes: &mut NameMap<u32>,
) -> (settled: (AuditFailureAction, TrustReport))
    ensures
        settled.0 == action_for(
            *reason,
            one_more(misses_of(old(audit_timeout_strikes)@, *challenged_peer)) as int,
            miss_threshold(old(audit_timeout_strikes)@, *challenged_peer),
        ),
        failure_settled(
            *challenged_peer,
            *reason,
            (old(sync_state)@, final(sync_state)@),
            *old(recent_provers),
            *final(recent_provers),
            (old(audit_timeout_strikes)@, final(audit_timeout_strikes)@),
            settled.1,
        ),
        settled.0 == AuditFailureAction::ConfirmedPenalize <==> *reason
            != AuditFailureReason::Timeout,
        settled.1 == (if settled.0 == AuditFailureAction::ConfirmedPenalize {
            TrustReport::AuditFailed { peer: *challenged_peer }
        } else {
            TrustReport::Nothing
        }),
        *reason != AuditFailureReason::Timeout ==> !final(sync_state)@.bootstrap_claims.dom()
            .contains(*challenged_peer) && forall|key: XorName, i: int|
            0 <= i < final(recent_provers).proofs_of(key).len() ==> (#[trigger] final(
                recent_provers
            ).proofs_of(key)[i]).peer != *challenged_peer,
{
    let action = plan_failed_audit(reason, audit_timeout_strikes, challenged_peer);
    match action {
        AuditFailureAction::TimeoutGrace => (action, TrustReport::Nothing),
        AuditFailureAction::TimeoutPenalize => (action, TrustReport::Nothing),
        AuditFailureAction::ConfirmedPenalize => {
            sync_state.clear_active_bootstrap_claim(challenged_peer);
            apply_audit_failure_credit_revocation(recent_provers, challenged_peer, reason);
            proof {
                confirmed_failure_is_penalized(
                    *challenged_peer,
                    *reason,
                    (old(sync_state)@, sync_state@),
                    *old(recent_provers),
                    *recent_provers,
                    (old(audit_timeout_strikes)@, audit_timeout_strikes@),
                    TrustReport::AuditFailed { peer: *challenged_peer },
                );
            }
            (action, TrustReport::AuditFailed { peer: *challenged_peer })
        },
    }
}

/// Settle the end of an audit: a pass clears the count of misses and the claim to be starting up; a
/// claim to be starting up is weighed; and a failure is settled by its reason.
pub fn handle_audit_result(
    result: &AuditTickResult,
    sync_state: &mut NeighborSyncState,
    recent_provers: &mut RecentProvers,
    audit_timeout_strikes: &mut NameMap<u32>,
    now: Instant,
    grace_period: Duration,
) -> (report: TrustReport)
    ensures
        match *result {
            AuditTickResult::Passed { challenged_peer, .. } => {
                &&& report == (TrustReport::AuditPassed { peer: challenged_peer })
                &&& final(sync_state)@ == old(sync_state)@.without_claim(challenged_peer)
                &&& final(audit_timeout_strikes)@ == old(audit_timeout_strikes)@.remove(
                    challenged_peer,
                )
                &&& *final(recent_provers) == *old(recent_provers)
            },
            AuditTickResult::Failed {
                evidence: FailureEvidence::AuditFailure { challenged_peer, reason, .. },
            } => failure_settled(
                challenged_peer,
                reason,
                (old(sync_state)@, final(sync_state)@),
                *old(recent_provers),
                *final(recent_provers),
                (old(audit_timeout_strikes)@, final(audit_timeout_strikes)@),
                report,
            ) && report == (if reason == AuditFailureReason::Timeout {
                TrustReport::Nothing
            } else {
                TrustReport::AuditFailed { peer: challenged_peer }
            }),
            AuditTickResult::BootstrapClaim { peer } => {
                &&& report == if is_abuse(old(sync_state)@.observed(peer, now, grace_period)) {
                    TrustReport::ClaimAbused { peer }
                } else {
                    TrustReport::Nothing
                }
                &&& final(sync_state)@ == old(sync_state)@.with_claim(peer, now)
                &&& final(audit_timeout_strikes)@ == old(audit_timeout_strikes)@
                &&& *final(recent_provers) == *old(recent_provers)
            },
            AuditTickResult::Idle | AuditTickResult::InsufficientKeys => {
                &&& report is Nothing
                &&& final(sync_state)@ == old(sync_state)@
                &&& *final(recent_provers) == *old(recent_provers)
                &&& final(audit_timeout_strikes)@ == old(audit_timeout_strikes)@
            },
        },
{
    match result {
        AuditTickResult::Passed { challenged_peer, keys_checked: _ } => {
            sync_state.clear_active_bootstrap_claim(challenged_peer);
            audit_timeout_strikes.remove(challenged_peer);
            TrustReport::AuditPassed { peer: *challenged_peer }
        },
        AuditTickResult::Failed { evidence } => match evidence {
            FailureEvidence::AuditFailure { challenged_peer, reason, .. } => {
                let (_, report) = handle_failed_audit(
                    challenged_peer,
                    reason,
                    sync_state,
                    recent_provers,
                    audit_timeout_strikes,
                );
                report
            },
        },
        AuditTickResult::BootstrapClaim { peer } => {
            let observed = sync_state.observe_bootstrap_claim(*peer, now, grace_period);
            if claim_is_abuse(&observed) {
                TrustReport::ClaimAbused { peer: *peer }
            } else {
                TrustReport::Nothing
            }
        },
        AuditTickResult::Idle => TrustReport::Nothing,
        AuditTickResult::InsufficientKeys => TrustReport::Nothing,
    }
}

} // verus!
