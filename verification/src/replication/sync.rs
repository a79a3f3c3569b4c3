//! Syncing with neighbours: whose turn it is, what their answers change, and how long a peer may
//! claim to be starting up.

use crate::ant_protocol::XorName;
use crate::name_map::NameMap;
use crate::name_map::{entries_map, names_are_listed, place_of};
use crate::replication::commitment::StorageCommitment;
use crate::replication::commitment_state::{after_gossip, ResponderCommitmentState};
use crate::replication::types::{HintPipeline, PeerId};
use crate::time::{Duration, Instant};
use vstd::prelude::*;

verus! {

/// When a node last synced with a peer.
#[derive(Clone, Copy, Debug, PartialEq, Eq)]
pub struct PeerSyncRecord {
    /// The moment, if it ever did.
    pub last_sync: Option<Instant>,
    /// How many rounds through all neighbours have ended since.
    pub cycles_since_sync: u32,
}

/// What a claim to be starting up amounts to.
#[derive(Clone, Copy, Debug, PartialEq, Eq, Structural)]
pub enum BootstrapClaimObservation {
    /// The peer may still claim it.
    WithinGrace {
        /// When it first did.
        first_seen: Instant,
    },
    /// The peer has claimed it for too long.
    PastGrace {
        /// When it first did.
        first_seen: Instant,
    },
    /// The peer had stopped to claim it, and does so again.
    Repeated {
        /// When it first did.
        first_seen: Instant,
    },
}

/// Where a node stands in a round through its neighbours, and what it remembers of them.
pub struct NeighborSyncState {
    /// The neighbours, in the order in which their turn comes.
    pub order: Vec<PeerId>,
    /// Whose turn is next.
    pub cursor: usize,
    /// When each neighbour was last synced with.
    pub last_sync_times: NameMap<Instant>,
    /// Since when each peer has claimed to be starting up that does so now.
    pub bootstrap_claims: NameMap<Instant>,
    /// When each peer first claimed it, whether or not it still does.
    pub bootstrap_claim_history: NameMap<Instant>,
    /// Where the next pass that prunes goes on.
    pub prune_cursor: usize,
}

/// What is to be seen of it.
pub struct NeighborSyncView {
    /// The neighbours, in the order in which their turn comes.
    pub order: Seq<PeerId>,
    /// Whose turn is next.
    pub cursor: usize,
    /// When each neighbour was last synced with.
    pub last_sync_times: Map<XorName, Instant>,
    /// Since when each peer has claimed to be starting up that does so now.
    pub bootstrap_claims: Map<XorName, Instant>,
    /// When each peer first claimed it, whether or not it still does.
    pub bootstrap_claim_history: Map<XorName, Instant>,
    /// Where the next pass that prunes goes on.
    pub prune_cursor: usize,
}

impl View for NeighborSyncState {
    type V = NeighborSyncView;

    open spec fn view(&self) -> NeighborSyncView {
        NeighborSyncView {
            order: self.order@,
            cursor: self.cursor,
            last_sync_times: self.last_sync_times@,
            bootstrap_claims: self.bootstrap_claims@,
            bootstrap_claim_history: self.bootstrap_claim_history@,
            prune_cursor: self.prune_cursor,
        }
    }
}

impl NeighborSyncView {
    /// Whether every neighbour has had its turn.
    pub open spec fn cycle_complete(self) -> bool {
        self.cursor >= self.order.len()
    }

    /// What a claim of `peer` at `now` amounts to.
    pub open spec fn observed(
        self,
        peer: PeerId,
        now: Instant,
        grace: Duration,
    ) -> BootstrapClaimObservation {
        observed_claim(self.bootstrap_claims, self.bootstrap_claim_history, peer, now, grace)
    }

    /// The same after a claim of `peer`: the first one is noted, others change nothing.
    pub open spec fn with_claim(self, peer: PeerId, now: Instant) -> NeighborSyncView {
        if self.bootstrap_claims.contains_key(peer) || self.bootstrap_claim_history.contains_key(
            peer,
        ) {
            self
        } else {
            NeighborSyncView {
                bootstrap_claims: self.bootstrap_claims.insert(peer, now),
                bootstrap_claim_history: self.bootstrap_claim_history.insert(peer, now),
                ..self
            }
        }
    }

    /// The same after `peer` has stopped to claim that it is starting up.
    pub open spec fn without_claim(self, peer: PeerId) -> NeighborSyncView {
        NeighborSyncView { bootstrap_claims: self.bootstrap_claims.remove(peer), ..self }
    }

    /// The same after a sync with `peer`.
    pub open spec fn with_sync(self, peer: PeerId, now: Instant) -> NeighborSyncView {
        NeighborSyncView { last_sync_times: self.last_sync_times.insert(peer, now), ..self }
    }
}

/// What a claim at `now` amounts to.
pub open spec fn observed_claim(
    claims: Map<XorName, Instant>,
    history: Map<XorName, Instant>,
    peer: PeerId,
    now: Instant,
    grace: Duration,
) -> BootstrapClaimObservation {
    if claims.contains_key(peer) {
        let first_seen = claims[peer];
        if now.since(first_seen) > grace.nanos {
            BootstrapClaimObservation::PastGrace { first_seen }
        } else {
            BootstrapClaimObservation::WithinGrace { first_seen }
        }
    } else if history.contains_key(peer) {
        BootstrapClaimObservation::Repeated { first_seen: history[peer] }
    } else {
        BootstrapClaimObservation::WithinGrace { first_seen: now }
    }
}

/// A peer that claims to be starting up gets one span of grace: once it has stopped, every further
/// claim is a repeated one.
pub proof fn no_second_grace(
    claims: Map<XorName, Instant>,
    history: Map<XorName, Instant>,
    peer: PeerId,
    now: Instant,
    grace: Duration,
)
    requires
        history.contains_key(peer),
    ensures
        observed_claim(claims.remove(peer), history, peer, now, grace)
            == (BootstrapClaimObservation::Repeated { first_seen: history[peer] }),
{
}

/// A peer may claim to be starting up for one span of grace from its first claim on, however often
/// it repeats the claim, and never again once it has stopped.
pub proof fn grace_runs_once_from_first_claim(
    state: NeighborSyncView,
    peer: PeerId,
    first: Instant,
    again: Instant,
    later: Instant,
    grace: Duration,
)
    requires
        !state.bootstrap_claims.dom().contains(peer),
        !state.bootstrap_claim_history.dom().contains(peer),
        first.nanos <= later.nanos,
    ensures
        !is_abuse(state.observed(peer, first, grace)),
        state.with_claim(peer, first).with_claim(peer, again) == state.with_claim(peer, first),
        is_abuse(state.with_claim(peer, first).observed(peer, later, grace)) <==> later.nanos
            > first.nanos + grace.nanos,
        is_abuse(
            state.with_claim(peer, first).without_claim(peer).observed(peer, later, grace),
        ),
        is_abuse(
            state.with_claim(peer, first).without_claim(peer).with_claim(peer, again).observed(
                peer,
                later,
                grace,
            ),
        ),
{
}

/// A claim is abuse just where it has been up for longer than the grace, or was up before and is not
/// any more.
pub proof fn claim_is_abuse_by_age_or_repetition(
    state: NeighborSyncView,
    peer: PeerId,
    now: Instant,
    grace: Duration,
)
    ensures
        is_abuse(state.observed(peer, now, grace)) <==> if state.bootstrap_claims.dom().contains(
            peer,
        ) {
            now.nanos > state.bootstrap_claims[peer].nanos + grace.nanos
        } else {
            state.bootstrap_claim_history.dom().contains(peer)
        },
{
}

/// What a peer claims, or stops to claim, is noted of that peer and of no other, and nothing else
/// changes with it. That a peer ever claimed to be starting up is not forgotten.
pub proof fn claims_are_kept_apart(
    state: NeighborSyncView,
    peer: PeerId,
    other: PeerId,
    now: Instant,
)
    requires
        peer != other,
    ensures
        ({
            let claimed = state.with_claim(peer, now);
            let stopped = state.without_claim(peer);
            &&& claimed.bootstrap_claim_history.dom().contains(peer)
                || state.bootstrap_claims.dom().contains(peer)
            &&& claimed.bootstrap_claims.dom().contains(other)
                == state.bootstrap_claims.dom().contains(other)
            &&& claimed.bootstrap_claims[other] == state.bootstrap_claims[other]
            &&& claimed.bootstrap_claim_history.dom().contains(other)
                == state.bootstrap_claim_history.dom().contains(other)
            &&& claimed.bootstrap_claim_history[other] == state.bootstrap_claim_history[other]
            &&& !stopped.bootstrap_claims.dom().contains(peer)
            &&& stopped.bootstrap_claims.dom().contains(other)
                == state.bootstrap_claims.dom().contains(other)
            &&& state.bootstrap_claims.dom().contains(other) ==> stopped.bootstrap_claims[other]
                == state.bootstrap_claims[other]
            &&& stopped.bootstrap_claim_history == state.bootstrap_claim_history
            &&& claimed.order == state.order && stopped.order == state.order
            &&& claimed.cursor == state.cursor && stopped.cursor == state.cursor
            &&& claimed.last_sync_times == state.last_sync_times && stopped.last_sync_times
                == state.last_sync_times
            &&& claimed.prune_cursor == state.prune_cursor && stopped.prune_cursor
                == state.prune_cursor
        }),
{
}

/// A sync with a peer is noted of that peer, at that moment, and changes nothing else.
pub proof fn sync_is_noted(state: NeighborSyncView, peer: PeerId, other: PeerId, now: Instant)
    ensures
        ({
            let after = state.with_sync(peer, now);
            &&& after.last_sync_times.dom().contains(peer) && after.last_sync_times[peer] == now
            &&& other != peer ==> after.last_sync_times.dom().contains(other)
                == state.last_sync_times.dom().contains(other) && after.last_sync_times[other]
                == state.last_sync_times[other]
            &&& after.bootstrap_claims == state.bootstrap_claims
            &&& after.bootstrap_claim_history == state.bootstrap_claim_history
            &&& after.order == state.order && after.cursor == state.cursor
            &&& after.prune_cursor == state.prune_cursor
        }),
{
}

/// A round is over just when there is no neighbour left whose turn is to come.
pub proof fn round_ends_after_last_turn(state: NeighborSyncView)
    ensures
        state.cycle_complete() <==> forall|i: int|
            0 <= i < state.order.len() ==> i < state.cursor && #[trigger] state.order[i]
                == state.order[i],
{
    if !state.cycle_complete() {
        let next = state.cursor as int;
        assert(state.order[next] == state.order[next]);
    }
}

impl NeighborSyncState {
    /// The beginning of a round through these neighbours, with nothing remembered.
    pub fn new_cycle(order: Vec<PeerId>) -> (state: Self)
        ensures
            state@ == (NeighborSyncView {
                order: order@,
                cursor: 0,
                last_sync_times: Map::empty(),
                bootstrap_claims: Map::empty(),
                bootstrap_claim_history: Map::empty(),
                prune_cursor: 0,
            }),
    {
        NeighborSyncState {
            order,
            cursor: 0,
            last_sync_times: NameMap::new(),
            bootstrap_claims: NameMap::new(),
            bootstrap_claim_history: NameMap::new(),
            prune_cursor: 0,
        }
    }

    /// Whether every neighbour has had its turn.
    pub fn is_cycle_complete(&self) -> (complete: bool)
        ensures
            complete == self@.cycle_complete(),
    {
        self.cursor >= self.order.len()
    }

    /// Begin a new round where the last one is complete. What is remembered of peers is kept, so
    /// that a new round does not give anyone a new span of grace.
    pub fn start_next_cycle(&mut self, neighbors: Vec<PeerId>) -> (started: bool)
        ensures
            started == old(self)@.cycle_complete(),
            final(self)@ == if started {
                NeighborSyncView { order: neighbors@, cursor: 0, ..old(self)@ }
            } else {
                old(self)@
            },
    {
        if !self.is_cycle_complete() {
            return false;
        }
        self.order = neighbors;
        self.cursor = 0;
        true
    }

    /// Note that `peer` claims to be starting up, and say what that amounts to. The first claim
    /// begins the span of grace.
    pub fn observe_bootstrap_claim(
        &mut self,
        peer: PeerId,
        now: Instant,
        grace_period: Duration,
    ) -> (observed: BootstrapClaimObservation)
        ensures
            observed == old(self)@.observed(peer, now, grace_period),
            final(self)@ == old(self)@.with_claim(peer, now),
    {
        if let Some(first) = self.bootstrap_claims.get(&peer) {
            let first_seen = *first;
            return if now.saturating_duration_since(first_seen).nanos > grace_period.nanos {
                BootstrapClaimObservation::PastGrace { first_seen }
            } else {
                BootstrapClaimObservation::WithinGrace { first_seen }
            };
        }
        if let Some(first) = self.bootstrap_claim_history.get(&peer) {
            return BootstrapClaimObservation::Repeated { first_seen: *first };
        }
        self.bootstrap_claims.insert(peer, now);
        self.bootstrap_claim_history.insert(peer, now);
        BootstrapClaimObservation::WithinGrace { first_seen: now }
    }

    /// Note that `peer` does not claim to be starting up any more. That it did is remembered.
    pub fn clear_active_bootstrap_claim(&mut self, peer: &PeerId)
        ensures
            final(self)@ == old(self)@.without_claim(*peer),
    {
        self.bootstrap_claims.remove(peer);
    }
}

/// Whether a claim is to be reported as abuse.
pub open spec fn is_abuse(observed: BootstrapClaimObservation) -> bool {
    !(observed is WithinGrace)
}

/// Decide whether a claim is to be reported as abuse.
pub fn claim_is_abuse(observed: &BootstrapClaimObservation) -> (abuse: bool)
    ensures
        abuse == is_abuse(*observed),
{
    !matches!(observed, BootstrapClaimObservation::WithinGrace { .. })
}

/// A record after one more round has ended.
pub open spec fn aged(record: PeerSyncRecord) -> PeerSyncRecord {
    PeerSyncRecord {
        cycles_since_sync: if record.cycles_since_sync < u32::MAX {
            (record.cycles_since_sync + 1) as u32
        } else {
            u32::MAX
        },
        ..record
    }
}

/// One more round counts one more, up to the most that can be counted, and leaves the moment of the
/// last sync alone.
pub proof fn records_age_by_one_round(record: PeerSyncRecord)
    ensures
        aged(record).last_sync == record.last_sync,
        record.cycles_since_sync < 0xffff_ffff ==> aged(record).cycles_since_sync
            == record.cycles_since_sync + 1,
        record.cycles_since_sync == 0xffff_ffff ==> aged(record) == record,
{
}

/// Note in every record that one more round has ended.
pub fn age_sync_history(history: &mut NameMap<PeerSyncRecord>)
    ensures
        final(history)@ == old(history)@.map_values(|record: PeerSyncRecord| aged(record)),
{
    let len: usize = history.len();
    let ghost listed = history.listed();
    let ghost before = history@;
    let mut next: NameMap<PeerSyncRecord> = NameMap::new();
    let mut i: usize = 0;
    while i < len
        invariant
            i <= len,
            len == listed.len(),
            listed == history.listed(),
            before == history@,
            before == entries_map(listed),
            crate::names::strictly_ascending(listed),
            forall|k: int|
                0 <= k < i ==> next@.contains_key((#[trigger] listed[k]).0),
            forall|name: XorName| #[trigger]
                next@.contains_key(name) ==> before.contains_key(name) && next@[name] == aged(
                    before[name],
                ),
        decreases len - i,
    {
        let entry = history.at(i);
        let record = PeerSyncRecord {
            last_sync: entry.1.last_sync,
            cycles_since_sync: if entry.1.cycles_since_sync < u32::MAX {
                entry.1.cycles_since_sync + 1
            } else {
                u32::MAX
            },
        };
        next.insert(entry.0, record);
        i += 1;
    }
    proof {
        names_are_listed(listed);
        assert forall|name: XorName| before.contains_key(name) implies next@.contains_key(name) by {
            let k = place_of(listed, name);
            assert(listed[k].0 == name);
        }
        assert(next@ =~= before.map_values(|record: PeerSyncRecord| aged(record)));
    }
    *history = next;
}

/// The number of a round after one more has ended.
pub fn next_sync_epoch(epoch: u64) -> (next: u64)
    ensures
        next == if epoch < u64::MAX {
            epoch + 1
        } else {
            u64::MAX as int
        },
{
    if epoch < u64::MAX {
        epoch + 1
    } else {
        u64::MAX
    }
}

/// Note a sync with `peer`.
pub fn record_sync(history: &mut NameMap<PeerSyncRecord>, peer: &PeerId, now: Instant)
    ensures
        final(history)@ == old(history)@.insert(
            *peer,
            PeerSyncRecord { last_sync: Some(now), cycles_since_sync: 0 },
        ),
{
    history.insert(*peer, PeerSyncRecord { last_sync: Some(now), cycles_since_sync: 0 });
}

/// A pass that prunes, due after every round.
#[derive(Clone, Copy, Debug, PartialEq, Eq, Structural)]
pub struct PrunePass {
    /// The number of rounds that have ended.
    pub sync_epoch: u64,
    /// Whether peers may be asked to confirm that chunks can be pruned.
    pub allow_remote_audits: bool,
}

/// Begin a sync. Where the last round through the neighbours is complete, every record ages, one
/// more round is counted, and a pass that prunes is due, after which a new round begins.
pub fn begin_sync_round(
    state: &NeighborSyncState,
    history: &mut NameMap<PeerSyncRecord>,
    sync_cycle_epoch: &mut u64,
    bootstrapping: bool,
    drained: bool,
) -> (due: Option<PrunePass>)
    ensures
        due is Some <==> state@.cycle_complete(),
        due is None ==> final(history)@ == old(history)@ && *final(sync_cycle_epoch) == *old(
            sync_cycle_epoch
        ),
        due matches Some(pass) ==> {
            &&& final(history)@ == old(history)@.map_values(|record: PeerSyncRecord| aged(record))
            &&& *final(sync_cycle_epoch) == if *old(sync_cycle_epoch) < u64::MAX {
                *old(sync_cycle_epoch) + 1
            } else {
                u64::MAX as int
            }
            &&& pass.sync_epoch == *final(sync_cycle_epoch)
            &&& pass.allow_remote_audits == (!bootstrapping && drained)
        },
{
    if !state.is_cycle_complete() {
        return None;
    }
    age_sync_history(history);
    let epoch: u64 = next_sync_epoch(*sync_cycle_epoch);
    *sync_cycle_epoch = epoch;
    Some(
        PrunePass {
            sync_epoch: epoch,
            allow_remote_audits: allow_remote_prune_audits(bootstrapping, drained),
        },
    )
}

/// What follows an attempt to sync with a neighbour.
#[derive(Clone, Copy, Debug, PartialEq, Eq, Structural)]
pub enum AfterSync {
    /// The neighbour answered, and its answer is dealt with.
    TakeAnswer,
    /// The neighbour is taken out of the round, and another one is tried in its place.
    Replace,
    /// The slot stays empty.
    GiveUp,
}

/// Decide what follows an attempt to sync. A neighbour that does not answer is replaced once; its
/// replacement is not.
pub fn after_sync_attempt(answered: bool, is_replacement: bool) -> (next: AfterSync)
    ensures
        next == if answered {
            AfterSync::TakeAnswer
        } else if is_replacement {
            AfterSync::GiveUp
        } else {
            AfterSync::Replace
        },
{
    if answered {
        AfterSync::TakeAnswer
    } else if is_replacement {
        AfterSync::GiveUp
    } else {
        AfterSync::Replace
    }
}

/// Whether peers may be asked to confirm that chunks can be pruned: only by a node that has caught
/// up.
pub fn allow_remote_prune_audits(bootstrapping: bool, drained: bool) -> (allowed: bool)
    ensures
        allowed == (!bootstrapping && drained),
{
    !bootstrapping && drained
}

/// Put the current commitment on the wire, if there is one. From then on the node has to stay
/// answerable for it.
pub fn publish_current(state: &mut ResponderCommitmentState) -> (published: Option<
    StorageCommitment,
>)
    ensures
        match published {
            Some(c) => old(state)@.slots.len() > 0 && c@ == old(state)@.slots[0].says()
                && final(state)@ == after_gossip(old(state)@, old(state)@.slots[0].digest()),
            None => old(state)@.slots.len() == 0 && final(state)@ == old(state)@,
        },
{
    match state.current() {
        Some(built) => {
            state.mark_gossiped(built.hash());
            Some(built.commitment().clone())
        },
        None => None,
    }
}

/// What follows from a neighbour's answer to a sync.
#[derive(Clone, Copy, Debug, PartialEq, Eq, Structural)]
pub struct SyncFollowUp {
    /// Whether the neighbour is to be reported for claiming too long to be starting up.
    pub report_abuse: bool,
    /// Whether its hints are to be taken, and the hints to it recorded.
    pub take_hints: bool,
}

/// Note a neighbour's answer to a sync, and decide what follows. The hints of a neighbour that is
/// starting up are not taken.
pub fn handle_sync_response(
    peer: &PeerId,
    peer_bootstrapping: bool,
    state: &mut NeighborSyncState,
    history: &mut NameMap<PeerSyncRecord>,
    now: Instant,
    grace_period: Duration,
) -> (follow_up: SyncFollowUp)
    ensures
        final(history)@ == old(history)@.insert(
            *peer,
            PeerSyncRecord { last_sync: Some(now), cycles_since_sync: 0 },
        ),
        follow_up.take_hints == !peer_bootstrapping,
        follow_up.report_abuse == (peer_bootstrapping && is_abuse(
            old(state)@.observed(*peer, now, grace_period),
        )),
        final(state)@ == if peer_bootstrapping {
            old(state)@.with_sync(*peer, now).with_claim(*peer, now)
        } else {
            old(state)@.with_sync(*peer, now).without_claim(*peer)
        },
{
    state.last_sync_times.insert(*peer, now);
    record_sync(history, peer, now);
    if peer_bootstrapping {
        let observed = state.observe_bootstrap_claim(*peer, now, grace_period);
        SyncFollowUp { report_abuse: claim_is_abuse(&observed), take_hints: false }
    } else {
        state.clear_active_bootstrap_claim(peer);
        SyncFollowUp { report_abuse: false, take_hints: true }
    }
}

/// What follows from a neighbour's own sync.
#[derive(Clone, Copy, Debug, PartialEq, Eq, Structural)]
pub struct RequestFollowUp {
    /// Whether the hints that were sent in return are to be recorded.
    pub record_hints: bool,
    /// Whether its hints are to be taken.
    pub take_hints: bool,
}

/// Note a neighbour's own sync, and decide what follows. A peer that is not in the routing table is
/// answered, and that is all; hints that did not reach the neighbour, or that one which is starting
/// up cannot act on, are not recorded.
pub fn handle_neighbor_sync_request(
    source: &PeerId,
    sender_in_rt: bool,
    response_sent: bool,
    request_bootstrapping: bool,
    history: &mut NameMap<PeerSyncRecord>,
    now: Instant,
) -> (follow_up: RequestFollowUp)
    ensures
        follow_up.take_hints == sender_in_rt,
        follow_up.record_hints == (sender_in_rt && response_sent && !request_bootstrapping),
        final(history)@ == if sender_in_rt {
            old(history)@.insert(
                *source,
                PeerSyncRecord { last_sync: Some(now), cycles_since_sync: 0 },
            )
        } else {
            old(history)@
        },
{
    if !sender_in_rt {
        return RequestFollowUp { record_hints: false, take_hints: false };
    }
    record_sync(history, source, now);
    RequestFollowUp { record_hints: response_sent && !request_bootstrapping, take_hints: true }
}

/// What the queue made of a hint.
#[derive(Clone, Copy, Debug, PartialEq, Eq, Structural)]
pub enum AdmissionResult {
    /// It was taken.
    Admitted,
    /// The key was there already.
    AlreadyPresent,
    /// There was no room.
    CapacityRejected,
}

/// What became of the hints of a neighbour.
#[derive(Clone, Debug, PartialEq, Eq)]
pub struct AdmissionOutcome {
    /// The keys that were taken.
    pub discovered: Vec<XorName>,
    /// How many hints found no room.
    pub capacity_rejected_count: usize,
}

/// Whether `plan` lists the keys to queue: first those hinted as replicas that are not stored yet,
/// then those hinted as paid for, each in the order given.
pub open spec fn is_queue_plan<F: Fn(&XorName) -> bool>(
    plan: Seq<(XorName, HintPipeline)>,
    replica_keys: Seq<XorName>,
    paid_only_keys: Seq<XorName>,
    stored: F,
) -> bool {
    exists|missing: Seq<bool>|
        #![trigger missing.len()]
        missing.len() == replica_keys.len() && (forall|i: int|
            0 <= i < missing.len() ==> call_ensures(
                stored,
                (&replica_keys[i],),
                !#[trigger] missing[i],
            )) && plan == kept_keys(replica_keys, missing) + paid_only_keys.map_values(
            |key: XorName| (key, HintPipeline::PaidOnly),
        )
}

/// The keys whose mark is set, as replicas.
pub open spec fn kept_keys(keys: Seq<XorName>, marks: Seq<bool>) -> Seq<(XorName, HintPipeline)>
    decreases keys.len(),
{
    if keys.len() == 0 || marks.len() != keys.len() {
        Seq::empty()
    } else {
        let before = kept_keys(keys.drop_last(), marks.drop_last());
        if marks.last() {
            before.push((keys.last(), HintPipeline::Replica))
        } else {
            before
        }
    }
}

/// List the keys to queue of those that were admitted.
pub fn plan_queueing<F: Fn(&XorName) -> bool>(
    replica_keys: &Vec<XorName>,
    paid_only_keys: &Vec<XorName>,
    stored: F,
) -> (plan: Vec<(XorName, HintPipeline)>)
    requires
        forall|key: &XorName| call_requires(stored, (key,)),
    ensures
        is_queue_plan(plan@, replica_keys@, paid_only_keys@, stored),
{
    let mut plan: Vec<(XorName, HintPipeline)> = Vec::new();
    let mut i: usize = 0;
    let ghost mut missing: Seq<bool> = Seq::empty();
    assert(replica_keys@.take(0) =~= Seq::empty());
    while i < replica_keys.len()
        invariant
            i <= replica_keys.len(),
            forall|key: &XorName| call_requires(stored, (key,)),
            missing.len() == i,
            forall|k: int|
                0 <= k < i ==> call_ensures(stored, (&replica_keys@[k],), !#[trigger] missing[k]),
            plan@ == kept_keys(replica_keys@.take(i as int), missing),
        decreases replica_keys.len() - i,
    {
        let key = replica_keys[i];
        let held = stored(&key);
        let ghost before = missing;
        proof {
            missing = missing.push(!held);
            assert(missing.drop_last() =~= before);
            assert(replica_keys@.take(i + 1).drop_last() =~= replica_keys@.take(i as int));
        }
        if !held {
            plan.push((key, HintPipeline::Replica));
        }
        i += 1;
    }
    assert(replica_keys@.take(i as int) =~= replica_keys@);
    let ghost head = plan@;
    let mut j: usize = 0;
    while j < paid_only_keys.len()
        invariant
            j <= paid_only_keys.len(),
            plan@.len() == head.len() + j,
            forall|k: int| 0 <= k < head.len() ==> plan@[k] == head[k],
            forall|k: int|
                0 <= k < j ==> plan@[head.len() + k] == (
                    #[trigger] paid_only_keys@[k],
                    HintPipeline::PaidOnly,
                ),
        decreases paid_only_keys.len() - j,
    {
        plan.push((paid_only_keys[j], HintPipeline::PaidOnly));
        j += 1;
    }
    proof {
        let tail = paid_only_keys@.map_values(|key: XorName| (key, HintPipeline::PaidOnly));
        assert(plan@ =~= head + tail);
        assert(missing.len() == replica_keys@.len());
    }
    plan
}

/// The keys that the queue took, each once, in the order in which it first took them.
pub open spec fn admitted_keys(results: Seq<(XorName, AdmissionResult)>) -> Seq<XorName>
    decreases results.len(),
{
    if results.len() == 0 {
        Seq::empty()
    } else {
        let before = admitted_keys(results.drop_last());
        if results.last().1 == AdmissionResult::Admitted && !before.contains(results.last().0) {
            before.push(results.last().0)
        } else {
            before
        }
    }
}

/// How many hints found no room.
pub open spec fn rejected_count(results: Seq<(XorName, AdmissionResult)>) -> nat
    decreases results.len(),
{
    if results.len() == 0 {
        0
    } else {
        rejected_count(results.drop_last()) + (if results.last().1
            == AdmissionResult::CapacityRejected {
            1nat
        } else {
            0
        })
    }
}

/// The keys that are kept are, as replicas and in their order, those whose mark is set.
proof fn kept_keys_are_marked(keys: Seq<XorName>, marks: Seq<bool>, i: int)
    requires
        keys.len() == marks.len(),
        0 <= i < keys.len(),
    ensures
        marks[i] ==> kept_keys(keys, marks).contains((keys[i], HintPipeline::Replica)),
    decreases keys.len(),
{
    let before = kept_keys(keys.drop_last(), marks.drop_last());
    let all = kept_keys(keys, marks);
    if i < keys.len() - 1 {
        kept_keys_are_marked(keys.drop_last(), marks.drop_last(), i);
        if marks[i] {
            let k = choose|k: int|
                0 <= k < before.len() && before[k] == (keys[i], HintPipeline::Replica);
            assert(all[k] == before[k]);
        }
    } else if marks[i] {
        assert(all[all.len() - 1] == (keys[i], HintPipeline::Replica));
    }
}

/// What is kept has a mark.
proof fn marked_keys_are_kept(keys: Seq<XorName>, marks: Seq<bool>, k: int) -> (i: int)
    requires
        keys.len() == marks.len(),
        0 <= k < kept_keys(keys, marks).len(),
    ensures
        0 <= i < keys.len(),
        marks[i],
        kept_keys(keys, marks)[k] == (keys[i], HintPipeline::Replica),
    decreases keys.len(),
{
    let before = kept_keys(keys.drop_last(), marks.drop_last());
    if k < before.len() {
        marked_keys_are_kept(keys.drop_last(), marks.drop_last(), k)
    } else {
        keys.len() - 1
    }
}

/// Every key that was hinted at as a replica and is not stored is queued as one, and so is every key
/// that was hinted at as paid for; nothing else is queued, and no key that is surely stored is
/// queued as a replica. All replicas come first.
pub proof fn admitted_hints_are_queued<F: Fn(&XorName) -> bool>(
    plan: Seq<(XorName, HintPipeline)>,
    replica_keys: Seq<XorName>,
    paid_only_keys: Seq<XorName>,
    stored: F,
)
    requires
        is_queue_plan(plan, replica_keys, paid_only_keys, stored),
    ensures
        forall|i: int|
            0 <= i < replica_keys.len() && !call_ensures(stored, (&replica_keys[i],), true)
                ==> plan.contains((#[trigger] replica_keys[i], HintPipeline::Replica)),
        forall|i: int|
            0 <= i < paid_only_keys.len() ==> plan.contains(
                (#[trigger] paid_only_keys[i], HintPipeline::PaidOnly),
            ),
        forall|k: int|
            0 <= k < plan.len() && (#[trigger] plan[k]).1 == HintPipeline::Replica
                ==> replica_keys.contains(plan[k].0) && call_ensures(
                stored,
                (&plan[k].0,),
                false,
            ),
        forall|k: int|
            0 <= k < plan.len() && (#[trigger] plan[k]).1 == HintPipeline::PaidOnly
                ==> paid_only_keys.contains(plan[k].0),
        forall|a: int, b: int|
            0 <= a < b < plan.len() && (#[trigger] plan[b]).1 == HintPipeline::Replica ==> (
            #[trigger] plan[a]).1 == HintPipeline::Replica,
        plan.len() <= replica_keys.len() + paid_only_keys.len(),
{
    let missing = choose|missing: Seq<bool>|
        #![trigger missing.len()]
        missing.len() == replica_keys.len() && (forall|i: int|
            0 <= i < missing.len() ==> call_ensures(
                stored,
                (&replica_keys[i],),
                !#[trigger] missing[i],
            )) && plan == kept_keys(replica_keys, missing) + paid_only_keys.map_values(
            |key: XorName| (key, HintPipeline::PaidOnly),
        );
    let kept = kept_keys(replica_keys, missing);
    let tail = paid_only_keys.map_values(|key: XorName| (key, HintPipeline::PaidOnly));
    assert forall|i: int|
        0 <= i < replica_keys.len() && !call_ensures(stored, (&replica_keys[i],), true) implies
        plan.contains((#[trigger] replica_keys[i], HintPipeline::Replica)) by {
        assert(call_ensures(stored, (&replica_keys[i],), !missing[i]));
        kept_keys_are_marked(replica_keys, missing, i);
        let k = choose|k: int|
            0 <= k < kept.len() && kept[k] == (replica_keys[i], HintPipeline::Replica);
        assert(plan[k] == kept[k]);
    }
    assert forall|i: int| 0 <= i < paid_only_keys.len() implies plan.contains(
        (#[trigger] paid_only_keys[i], HintPipeline::PaidOnly),
    ) by {
        assert(plan[kept.len() + i] == tail[i]);
    }
    assert forall|k: int| 0 <= k < kept.len() implies (#[trigger] plan[k]).1
        == HintPipeline::Replica && replica_keys.contains(plan[k].0) && call_ensures(
        stored,
        (&plan[k].0,),
        false,
    ) by {
        let i = marked_keys_are_kept(replica_keys, missing, k);
        assert(call_ensures(stored, (&replica_keys[i],), !missing[i]));
    }
    assert forall|k: int| kept.len() <= k < plan.len() implies (#[trigger] plan[k]).1
        == HintPipeline::PaidOnly && paid_only_keys.contains(plan[k].0) by {
        assert(plan[k] == tail[k - kept.len()]);
        assert(paid_only_keys[k - kept.len()] == plan[k].0);
    }
    kept_keys_are_few(replica_keys, missing);
}

/// No more keys are kept than there are.
proof fn kept_keys_are_few(keys: Seq<XorName>, marks: Seq<bool>)
    ensures
        kept_keys(keys, marks).len() <= keys.len(),
    decreases keys.len(),
{
    if keys.len() > 0 && marks.len() == keys.len() {
        kept_keys_are_few(keys.drop_last(), marks.drop_last());
    }
}

/// Listed as discovered is, once, each key that the queue took, and no other; and counted is each
/// hint that found no room.
pub proof fn admissions_are_summed_up(results: Seq<(XorName, AdmissionResult)>)
    ensures
        admitted_keys(results).no_duplicates(),
        forall|key: XorName| #[trigger]
            admitted_keys(results).contains(key) <==> results.contains(
                (key, AdmissionResult::Admitted),
            ),
        rejected_count(results) == results.filter(
            |r: (XorName, AdmissionResult)| r.1 == AdmissionResult::CapacityRejected,
        ).len(),
    decreases results.len(),
{
    reveal(Seq::filter);
    if results.len() > 0 {
        let rest = results.drop_last();
        let last = results.last();
        let before = admitted_keys(rest);
        let all = admitted_keys(results);
        admissions_are_summed_up(rest);
        assert(results =~= rest.push(last));
        assert forall|key: XorName| #[trigger] all.contains(key) <==> results.contains(
            (key, AdmissionResult::Admitted),
        ) by {
            let wanted = (key, AdmissionResult::Admitted);
            assert(before.contains(key) <==> rest.contains(wanted));
            if all.contains(key) {
                let k = choose|k: int| 0 <= k < all.len() && all[k] == key;
                if k < before.len() {
                    assert(before[k] == key);
                    let i = choose|i: int| 0 <= i < rest.len() && rest[i] == wanted;
                    assert(results[i] == wanted);
                } else {
                    assert(results[results.len() - 1] == wanted);
                }
            }
            if results.contains(wanted) {
                let i = choose|i: int| 0 <= i < results.len() && results[i] == wanted;
                if i < rest.len() {
                    assert(rest[i] == wanted);
                }
                if before.contains(key) {
                    let k = choose|k: int| 0 <= k < before.len() && before[k] == key;
                    assert(all[k] == key);
                } else {
                    assert(all[all.len() - 1] == key);
                }
            }
        }
        assert forall|a: int, b: int| 0 <= a < all.len() && 0 <= b < all.len() && a != b implies
            all[a] != all[b] by {
            if a == before.len() {
                assert(before.contains(before[b]));
            } else if b == before.len() {
                assert(before.contains(before[a]));
            }
        }
    }
}

/// Whether a key is among others.
fn holds_key(keys: &Vec<XorName>, key: &XorName) -> (held: bool)
    ensures
        held == keys@.contains(*key),
{
    let mut i: usize = 0;
    while i < keys.len()
        invariant
            i <= keys.len(),
            forall|k: int| 0 <= k < i ==> keys@[k] != *key,
        decreases keys.len() - i,
    {
        if crate::hashing::same_bytes32(&keys[i], key) {
            return true;
        }
        i += 1;
    }
    false
}

/// Sum up what the queue made of the hints of a neighbour.
pub fn admit_and_queue_hints(results: &Vec<(XorName, AdmissionResult)>) -> (outcome:
    AdmissionOutcome)
    ensures
        outcome.discovered@ == admitted_keys(results@),
        outcome.capacity_rejected_count == rejected_count(results@),
{
    let mut discovered: Vec<XorName> = Vec::new();
    let mut capacity_rejected_count: usize = 0;
    let mut i: usize = 0;
    assert(results@.take(0) =~= Seq::empty());
    while i < results.len()
        invariant
            i <= results.len(),
            discovered@ == admitted_keys(results@.take(i as int)),
            capacity_rejected_count == rejected_count(results@.take(i as int)),
            capacity_rejected_count <= i,
        decreases results.len() - i,
    {
        let key = results[i].0;
        assert(results@.take(i + 1).drop_last() =~= results@.take(i as int));
        assert(results@.take(i + 1).last() == results@[i as int]);
        match results[i].1 {
            AdmissionResult::Admitted => {
                if !holds_key(&discovered, &key) {
                    discovered.push(key);
                }
            },
            AdmissionResult::AlreadyPresent => {},
            AdmissionResult::CapacityRejected => {
                capacity_rejected_count += 1;
            },
        }
        i += 1;
    }
    assert(results@.take(i as int) =~= results@);
    AdmissionOutcome { discovered, capacity_rejected_count }
}

} // verus!
