//! Verifying that keys which others hint at exist and are paid for, before they are fetched.
//!
//! A cycle begins with the keys that wait. Those that the node itself knows to be paid for only need
//! holders to be found; about the rest others are asked. Each key that a cycle deals with is either
//! fetched or settled for good; whoever runs the node asks around and keeps the queues.

use crate::ant_protocol::XorName;
use crate::client::{distance, xor_distance};
use crate::name_map::NameMap;
use crate::replication::commitment::commitment_hash;
use crate::replication::commitment;
use crate::replication::commitment_state::PeerCommitmentRecord;
use crate::replication::protocol::{KeyVerificationResult, VerificationRequest};
use crate::replication::protocol::VerificationResponse;
use crate::replication::recent_provers::{credits, RecentProvers};
use crate::replication::types::{HintPipeline, PeerId};
use crate::time::Instant;
use vstd::prelude::*;

verus! {

/// A key that waits to be verified.
#[derive(Clone, Copy, Debug, PartialEq, Eq)]
pub struct PendingKey {
    /// The key.
    pub key: XorName,
    /// Whether the node itself knows it to be paid for.
    pub locally_paid: bool,
    /// By which way it came in; nothing where it does not wait any more.
    pub pipeline: Option<HintPipeline>,
}

/// A cycle of verification under way.
#[derive(Clone, Debug, PartialEq, Eq)]
pub struct VerificationCycle {
    /// Keys that are authorized here, of which only the holders have to be found.
    pub probe: Vec<XorName>,
    /// Keys that others have to be asked about.
    pub network: Vec<XorName>,
    /// Keys that are settled for good.
    pub terminal: Vec<XorName>,
}

/// Whether a key is authorized here and is to be fetched.
pub open spec fn is_probe() -> spec_fn(PendingKey) -> bool {
    |p: PendingKey| p.locally_paid && p.pipeline == Some(HintPipeline::Replica)
}

/// Whether a key is authorized here but may not have to be fetched.
pub open spec fn is_paid_only() -> spec_fn(PendingKey) -> bool {
    |p: PendingKey| p.locally_paid && p.pipeline == Some(HintPipeline::PaidOnly)
}

/// Whether others have to be asked about a key.
pub open spec fn is_network() -> spec_fn(PendingKey) -> bool {
    |p: PendingKey| !p.locally_paid
}

/// The keys of those entries that are wanted, in their order.
pub open spec fn keys_where(pending: Seq<PendingKey>, wanted: spec_fn(PendingKey) -> bool) -> Seq<
    XorName,
>
    decreases pending.len(),
{
    if pending.len() == 0 {
        Seq::empty()
    } else {
        let before = keys_where(pending.drop_last(), wanted);
        if wanted(pending.last()) {
            before.push(pending.last().key)
        } else {
            before
        }
    }
}

/// Begin a cycle with the keys that wait, and list those that are authorized here but may not have to
/// be fetched.
pub fn begin_cycle(pending: &Vec<PendingKey>) -> (begun: (VerificationCycle, Vec<XorName>))
    ensures
        begun.0.probe@ == keys_where(pending@, is_probe()),
        begun.0.network@ == keys_where(pending@, is_network()),
        begun.0.terminal@ == Seq::<XorName>::empty(),
        begun.1@ == keys_where(pending@, is_paid_only()),
{
    let mut probe: Vec<XorName> = Vec::new();
    let mut paid_only: Vec<XorName> = Vec::new();
    let mut network: Vec<XorName> = Vec::new();
    let mut i: usize = 0;
    assert(pending@.take(0) =~= Seq::empty());
    while i < pending.len()
        invariant
            i <= pending.len(),
            probe@ == keys_where(pending@.take(i as int), is_probe()),
            paid_only@ == keys_where(pending@.take(i as int), is_paid_only()),
            network@ == keys_where(pending@.take(i as int), is_network()),
        decreases pending.len() - i,
    {
        let entry = pending[i];
        assert(pending@.take(i + 1).drop_last() =~= pending@.take(i as int));
        assert(pending@.take(i + 1).last() == entry);
        if entry.locally_paid {
            match entry.pipeline {
                Some(HintPipeline::PaidOnly) => {
                    paid_only.push(entry.key);
                },
                Some(HintPipeline::Replica) => {
                    probe.push(entry.key);
                },
                None => {},
            }
        } else {
            network.push(entry.key);
        }
        i += 1;
    }
    assert(pending@.take(i as int) =~= pending@);
    (VerificationCycle { probe, network, terminal: Vec::new() }, paid_only)
}

/// No key that waits is passed over: each is probed for, looked at again, or asked about, unless it
/// is authorized here and does not wait any more.
pub proof fn every_pending_key_is_planned(pending: Seq<PendingKey>, i: int)
    requires
        0 <= i < pending.len(),
        pending[i].locally_paid ==> pending[i].pipeline is Some,
    ensures
        keys_where(pending, is_probe()).contains(pending[i].key) || keys_where(
            pending,
            is_paid_only(),
        ).contains(pending[i].key) || keys_where(pending, is_network()).contains(pending[i].key),
{
    if !pending[i].locally_paid {
        wanted_key_is_listed(pending, is_network(), i);
    } else {
        match pending[i].pipeline->0 {
            HintPipeline::Replica => wanted_key_is_listed(pending, is_probe(), i),
            HintPipeline::PaidOnly => wanted_key_is_listed(pending, is_paid_only(), i),
        }
    }
}

/// The key of a wanted entry is listed.
proof fn wanted_key_is_listed(
    pending: Seq<PendingKey>,
    wanted: spec_fn(PendingKey) -> bool,
    i: int,
)
    requires
        0 <= i < pending.len(),
        wanted(pending[i]),
    ensures
        keys_where(pending, wanted).contains(pending[i].key),
    decreases pending.len(),
{
    let before = keys_where(pending.drop_last(), wanted);
    if i == pending.len() - 1 {
        assert(keys_where(pending, wanted)[before.len() as int] == pending[i].key);
    } else {
        wanted_key_is_listed(pending.drop_last(), wanted, i);
        let k = choose|k: int| 0 <= k < before.len() && before[k] == pending[i].key;
        assert(keys_where(pending, wanted)[k] == pending[i].key);
    }
}

/// What a node finds out about a key that is authorized here and was only hinted at as paid for.
#[derive(Clone, Copy, Debug, PartialEq, Eq)]
pub struct PaidOnlyKey {
    /// The key.
    pub key: XorName,
    /// Whether the node holds it.
    pub stored: bool,
    /// Whether the node should hold it.
    pub responsible: bool,
}

/// The keys that the node should hold and does not, in their order.
pub open spec fn missing_keys(keys: Seq<PaidOnlyKey>) -> Seq<XorName>
    decreases keys.len(),
{
    if keys.len() == 0 {
        Seq::empty()
    } else {
        let before = missing_keys(keys.drop_last());
        if !keys.last().stored && keys.last().responsible {
            before.push(keys.last().key)
        } else {
            before
        }
    }
}

/// The other keys, in their order.
pub open spec fn unneeded_keys(keys: Seq<PaidOnlyKey>) -> Seq<XorName>
    decreases keys.len(),
{
    if keys.len() == 0 {
        Seq::empty()
    } else {
        let before = unneeded_keys(keys.drop_last());
        if !keys.last().stored && keys.last().responsible {
            before
        } else {
            before.push(keys.last().key)
        }
    }
}

impl VerificationCycle {
    /// Deal with the keys that are authorized here and were only hinted at as paid for: those that
    /// the node should hold and does not are probed for after all, the others are settled.
    pub fn settle_paid_only(&mut self, keys: &Vec<PaidOnlyKey>)
        ensures
            final(self).probe@ == old(self).probe@ + missing_keys(keys@),
            final(self).terminal@ == old(self).terminal@ + unneeded_keys(keys@),
            final(self).network@ == old(self).network@,
    {
        let ghost before = *self;
        let mut i: usize = 0;
        assert(keys@.take(0) =~= Seq::empty());
        assert(before.probe@ =~= before.probe@ + missing_keys(keys@.take(0)));
        assert(before.terminal@ =~= before.terminal@ + unneeded_keys(keys@.take(0)));
        while i < keys.len()
            invariant
                i <= keys.len(),
                self.probe@ == before.probe@ + missing_keys(keys@.take(i as int)),
                self.terminal@ == before.terminal@ + unneeded_keys(keys@.take(i as int)),
                self.network@ == before.network@,
            decreases keys.len() - i,
        {
            let entry = keys[i];
            assert(keys@.take(i + 1).drop_last() =~= keys@.take(i as int));
            assert(keys@.take(i + 1).last() == entry);
            if !entry.stored && entry.responsible {
                self.probe.push(entry.key);
            } else {
                self.terminal.push(entry.key);
            }
            assert(self.probe@ =~= before.probe@ + missing_keys(keys@.take(i + 1)));
            assert(self.terminal@ =~= before.terminal@ + unneeded_keys(keys@.take(i + 1)));
            i += 1;
        }
        assert(keys@.take(i as int) =~= keys@);
    }
}

/// What is done about a key once it was verified or not.
#[derive(Clone, Debug, PartialEq, Eq)]
pub enum QueueStep {
    /// It does not wait any more, and is settled for good.
    Settle {
        /// The key.
        key: XorName,
    },
    /// It is to be fetched. Where the queue has no room for that, it goes on waiting.
    Fetch {
        /// The key.
        key: XorName,
        /// How far it is from the node; nearer keys come first.
        distance: XorName,
        /// Who holds it.
        sources: Vec<PeerId>,
    },
}

/// Whether `step` settles `key`.
pub open spec fn settles(step: QueueStep, key: XorName) -> bool {
    step == (QueueStep::Settle { key })
}

/// Whether `step` has `key` fetched from `sources` by the node `own`.
pub open spec fn fetches(
    step: QueueStep,
    key: XorName,
    own: PeerId,
    sources: Seq<PeerId>,
) -> bool {
    step matches QueueStep::Fetch { key: k, distance: d, sources: from } && k == key && d@
        == distance(key, own) && from@ == sources
}

/// What a probe found out about a key that is authorized here.
#[derive(Clone, Debug, PartialEq, Eq)]
pub struct ProbedKey {
    /// The key.
    pub key: XorName,
    /// Whether the node holds it by now.
    pub stored: bool,
    /// Who says to hold it.
    pub sources: Vec<PeerId>,
}

/// Whether a key that was probed for is to be fetched.
pub open spec fn probe_found(p: ProbedKey) -> bool {
    !p.stored && p.sources.len() > 0
}

/// Whether `step` is what is done about a key that was probed for.
pub open spec fn follows_probe(step: QueueStep, p: ProbedKey, own: PeerId) -> bool {
    if probe_found(p) {
        fetches(step, p.key, own, p.sources@)
    } else {
        settles(step, p.key)
    }
}

/// Decide about a key that was probed for.
pub fn settle_probe(own: &PeerId, probed: ProbedKey) -> (step: QueueStep)
    ensures
        follows_probe(step, probed, *own),
{
    let key = probed.key;
    if probed.stored || probed.sources.len() == 0 {
        QueueStep::Settle { key }
    } else {
        QueueStep::Fetch { key, distance: xor_distance(&key, own), sources: probed.sources }
    }
}

/// The keys that steps settle, in their order.
pub open spec fn settled_by(steps: Seq<QueueStep>) -> Seq<XorName>
    decreases steps.len(),
{
    if steps.len() == 0 {
        Seq::empty()
    } else {
        let before = settled_by(steps.drop_last());
        match steps.last() {
            QueueStep::Settle { key } => before.push(key),
            QueueStep::Fetch { .. } => before,
        }
    }
}

impl VerificationCycle {
    /// Note what a step does about its key.
    fn note_step(&mut self, step: &QueueStep)
        ensures
            final(self).probe@ == old(self).probe@,
            final(self).network@ == old(self).network@,
            final(self).terminal@ == match *step {
                QueueStep::Settle { key } => old(self).terminal@.push(key),
                QueueStep::Fetch { .. } => old(self).terminal@,
            },
    {
        match step {
            QueueStep::Settle { key } => {
                self.terminal.push(*key);
            },
            QueueStep::Fetch { .. } => {},
        }
    }

    /// Deal with the keys that were probed for, in the order given.
    pub fn settle_probes(&mut self, own: &PeerId, probed: Vec<ProbedKey>) -> (steps: Vec<QueueStep>)
        ensures
            steps.len() == probed.len(),
            forall|i: int|
                0 <= i < probed.len() ==> follows_probe(#[trigger] steps@[i], probed@[i], *own),
            final(self).terminal@ == old(self).terminal@ + settled_by(steps@),
            final(self).probe@ == old(self).probe@,
            final(self).network@ == old(self).network@,
    {
        let ghost before = *self;
        let ghost all = probed@;
        let mut steps: Vec<QueueStep> = Vec::new();
        assert(before.terminal@ =~= before.terminal@ + settled_by(steps@));
        for entry in iter: probed
            invariant
                iter.seq() == all,
                steps.len() == iter.index(),
                forall|k: int|
                    0 <= k < iter.index() ==> follows_probe(#[trigger] steps@[k], all[k], *own),
                self.terminal@ == before.terminal@ + settled_by(steps@),
                self.probe@ == before.probe@,
                self.network@ == before.network@,
        {
            let step = settle_probe(own, entry);
            self.note_step(&step);
            let ghost earlier = steps@;
            steps.push(step);
            assert(steps@.drop_last() =~= earlier);
            assert(self.terminal@ =~= before.terminal@ + settled_by(steps@));
        }
        steps
    }
}

/// What others said of a key, taken together.
#[derive(Clone, Debug, PartialEq, Eq)]
pub enum KeyVerificationOutcome {
    /// Enough of those who should hold it do.
    QuorumVerified {
        /// Who does.
        sources: Vec<PeerId>,
    },
    /// Enough of those who keep track of payments know it to be paid for.
    PaidListVerified {
        /// Who holds it.
        sources: Vec<PeerId>,
    },
    /// Too few hold it.
    QuorumFailed,
    /// Too few said.
    QuorumInconclusive,
}

/// Who holds a key that was verified; nothing where it was not.
pub open spec fn verified_sources(outcome: KeyVerificationOutcome) -> Option<Seq<PeerId>> {
    match outcome {
        KeyVerificationOutcome::QuorumVerified { sources } => Some(sources@),
        KeyVerificationOutcome::PaidListVerified { sources } => Some(sources@),
        _ => None,
    }
}

/// Whether a key was verified, so that it is to be noted as paid for.
pub fn is_verified(outcome: &KeyVerificationOutcome) -> (verified: bool)
    ensures
        verified == verified_sources(*outcome) is Some,
{
    match outcome {
        KeyVerificationOutcome::QuorumVerified { .. } => true,
        KeyVerificationOutcome::PaidListVerified { .. } => true,
        KeyVerificationOutcome::QuorumFailed => false,
        KeyVerificationOutcome::QuorumInconclusive => false,
    }
}

/// A key about which others were asked.
#[derive(Clone, Debug, PartialEq, Eq)]
pub struct EvaluatedKey {
    /// The key.
    pub key: XorName,
    /// What they said.
    pub outcome: KeyVerificationOutcome,
    /// By which way the key came in.
    pub pipeline: HintPipeline,
    /// Whether the node holds it.
    pub stored: bool,
    /// Whether the node should hold it.
    pub responsible: bool,
}

/// Whether a key is to be fetched if it was verified: one that was hinted at as a replica is; one
/// that was hinted at as paid for is where the node should hold it and does not.
pub open spec fn fetch_eligible(e: EvaluatedKey) -> bool {
    e.pipeline == HintPipeline::Replica || !e.stored && e.responsible
}

/// Whether a key is to be fetched: it was verified, it is eligible, and someone holds it.
pub open spec fn to_be_fetched(e: EvaluatedKey) -> bool {
    verified_sources(e.outcome) matches Some(sources) && sources.len() > 0 && fetch_eligible(e)
}

/// Whether `step` is what is done about a key after others were asked.
pub open spec fn follows_outcome(step: QueueStep, e: EvaluatedKey, own: PeerId) -> bool {
    if to_be_fetched(e) {
        fetches(step, e.key, own, verified_sources(e.outcome)->0)
    } else {
        settles(step, e.key)
    }
}

/// Decide about a key after others were asked.
pub fn settle_outcome(own: &PeerId, evaluated: EvaluatedKey) -> (step: QueueStep)
    ensures
        follows_outcome(step, evaluated, *own),
{
    let key = evaluated.key;
    let eligible = match evaluated.pipeline {
        HintPipeline::Replica => true,
        HintPipeline::PaidOnly => !evaluated.stored && evaluated.responsible,
    };
    match evaluated.outcome {
        KeyVerificationOutcome::QuorumVerified { sources } => {
            if eligible && sources.len() > 0 {
                QueueStep::Fetch { key, distance: xor_distance(&key, own), sources }
            } else {
                QueueStep::Settle { key }
            }
        },
        KeyVerificationOutcome::PaidListVerified { sources } => {
            if eligible && sources.len() > 0 {
                QueueStep::Fetch { key, distance: xor_distance(&key, own), sources }
            } else {
                QueueStep::Settle { key }
            }
        },
        KeyVerificationOutcome::QuorumFailed => QueueStep::Settle { key },
        KeyVerificationOutcome::QuorumInconclusive => QueueStep::Settle { key },
    }
}

/// The keys that were verified, in their order.
pub open spec fn verified_keys(evaluated: Seq<EvaluatedKey>) -> Seq<XorName>
    decreases evaluated.len(),
{
    if evaluated.len() == 0 {
        Seq::empty()
    } else {
        let before = verified_keys(evaluated.drop_last());
        if verified_sources(evaluated.last().outcome) is Some {
            before.push(evaluated.last().key)
        } else {
            before
        }
    }
}

/// The keys to note as paid for after others were asked.
pub fn paid_insert_keys(evaluated: &Vec<EvaluatedKey>) -> (keys: Vec<XorName>)
    ensures
        keys@ == verified_keys(evaluated@),
{
    let mut keys: Vec<XorName> = Vec::new();
    let mut i: usize = 0;
    assert(evaluated@.take(0) =~= Seq::empty());
    while i < evaluated.len()
        invariant
            i <= evaluated.len(),
            keys@ == verified_keys(evaluated@.take(i as int)),
        decreases evaluated.len() - i,
    {
        assert(evaluated@.take(i + 1).drop_last() =~= evaluated@.take(i as int));
        assert(evaluated@.take(i + 1).last() == evaluated@[i as int]);
        if is_verified(&evaluated[i].outcome) {
            keys.push(evaluated[i].key);
        }
        i += 1;
    }
    assert(evaluated@.take(i as int) =~= evaluated@);
    keys
}

/// End a cycle: decide about each key that others were asked about, in the order given, and list
/// every key that the cycle settled for good.
pub fn run_verification_cycle(
    cycle: VerificationCycle,
    own: &PeerId,
    evaluated: Vec<EvaluatedKey>,
) -> (ended: (Vec<QueueStep>, Vec<XorName>))
    ensures
        ended.0.len() == evaluated.len(),
        forall|i: int|
            0 <= i < evaluated.len() ==> follows_outcome(
                #[trigger] ended.0@[i],
                evaluated@[i],
                *own,
            ),
        ended.1@ == cycle.terminal@ + settled_by(ended.0@),
{
    let ghost before = cycle;
    let mut cycle = cycle;
    let mut steps: Vec<QueueStep> = Vec::new();
    let ghost all = evaluated@;
    assert(before.terminal@ =~= before.terminal@ + settled_by(steps@));
    for entry in iter: evaluated
        invariant
            iter.seq() == all,
            steps.len() == iter.index(),
            forall|k: int|
                0 <= k < iter.index() ==> follows_outcome(#[trigger] steps@[k], all[k], *own),
            cycle.terminal@ == before.terminal@ + settled_by(steps@),
    {
        let step = settle_outcome(own, entry);
        cycle.note_step(&step);
        let ghost earlier = steps@;
        steps.push(step);
        assert(steps@.drop_last() =~= earlier);
        assert(cycle.terminal@ =~= before.terminal@ + settled_by(steps@));
    }
    (steps, cycle.terminal)
}

/// What a cycle lists as settled are just the keys that its steps settle.
pub proof fn settled_keys_are_listed(steps: Seq<QueueStep>, i: int)
    requires
        0 <= i < steps.len(),
    ensures
        steps[i] matches QueueStep::Settle { key } ==> settled_by(steps).contains(key),
    decreases steps.len(),
{
    let before = settled_by(steps.drop_last());
    if i < steps.len() - 1 {
        settled_keys_are_listed(steps.drop_last(), i);
        if let QueueStep::Settle { key } = steps[i] {
            let k = choose|k: int| 0 <= k < before.len() && before[k] == key;
            assert(settled_by(steps)[k] == key);
        }
    } else if let QueueStep::Settle { key } = steps[i] {
        assert(settled_by(steps)[before.len() as int] == key);
    }
}

/// No key is listed as settled that a step has fetched, unless another step settles it.
pub proof fn listed_keys_are_settled(steps: Seq<QueueStep>, key: XorName)
    requires
        settled_by(steps).contains(key),
    ensures
        exists|i: int| 0 <= i < steps.len() && settles(#[trigger] steps[i], key),
    decreases steps.len(),
{
    let before = settled_by(steps.drop_last());
    let k = choose|k: int| 0 <= k < settled_by(steps).len() && settled_by(steps)[k] == key;
    let last = steps.len() - 1;
    if steps.len() > 0 && !settles(steps[last], key) {
        assert(k < before.len());
        assert(before[k] == key);
        listed_keys_are_settled(steps.drop_last(), key);
        let i = choose|i: int|
            0 <= i < steps.drop_last().len() && settles(#[trigger] steps.drop_last()[i], key);
        assert(settles(steps[i], key));
    }
}

/// A verified key that the node should hold is never given up as long as anyone holds it, and no
/// other key is fetched.
pub proof fn verified_keys_are_fetched(step: QueueStep, e: EvaluatedKey, own: PeerId)
    requires
        follows_outcome(step, e, own),
    ensures
        step is Fetch <==> verified_sources(e.outcome) is Some && verified_sources(
            e.outcome,
        )->0.len() > 0 && fetch_eligible(e),
        step matches QueueStep::Fetch { sources, .. } ==> sources.len() > 0,
{
}

/// A key that enough of its holders, or enough of those who keep track of payments, vouch for is
/// fetched from just those who hold it, where there is anyone: always if it was hinted at as a
/// replica, and if it was hinted at as paid for, just where the node should hold it and does not.
/// Every other key is settled.
pub proof fn vouched_keys_are_fetched_from_holders(step: QueueStep, e: EvaluatedKey, own: PeerId)
    requires
        follows_outcome(step, e, own),
    ensures
        ({
            let wanted = match e.pipeline {
                HintPipeline::Replica => true,
                HintPipeline::PaidOnly => !e.stored && e.responsible,
            };
            let holders = match e.outcome {
                KeyVerificationOutcome::QuorumVerified { sources } => sources@,
                KeyVerificationOutcome::PaidListVerified { sources } => sources@,
                KeyVerificationOutcome::QuorumFailed => Seq::<PeerId>::empty(),
                KeyVerificationOutcome::QuorumInconclusive => Seq::<PeerId>::empty(),
            };
            if wanted && holders.len() > 0 {
                step matches QueueStep::Fetch { key, distance, sources } && key == e.key
                    && sources@ == holders && forall|i: int|
                    0 <= i < 32 ==> #[trigger] distance[i] == e.key[i] ^ own[i]
            } else {
                step == (QueueStep::Settle { key: e.key })
            }
        }),
{
    if let QueueStep::Fetch { key, distance: d, sources } = step {
        assert forall|i: int| 0 <= i < 32 implies #[trigger] d[i] == e.key[i] ^ own[i] by {
            assert(d@[i] == distance(e.key, own)[i]);
        }
    }
}

/// A key that was probed for is fetched from those who say to hold it, where there is anyone and
/// the node does not hold it by now; else it is settled.
pub proof fn probed_keys_are_fetched_from_holders(step: QueueStep, p: ProbedKey, own: PeerId)
    requires
        follows_probe(step, p, own),
    ensures
        if !p.stored && p.sources@.len() > 0 {
            step matches QueueStep::Fetch { key, distance, sources } && key == p.key && sources@
                == p.sources@ && forall|i: int|
                0 <= i < 32 ==> #[trigger] distance[i] == p.key[i] ^ own[i]
        } else {
            step == (QueueStep::Settle { key: p.key })
        },
{
    if let QueueStep::Fetch { key, distance: d, sources } = step {
        assert forall|i: int| 0 <= i < 32 implies #[trigger] d[i] == p.key[i] ^ own[i] by {
            assert(d@[i] == distance(p.key, own)[i]);
        }
    }
}

/// The keys that are listed for being verified are those of the entries that were, in their order.
proof fn verified_keys_are_filtered(
    evaluated: Seq<EvaluatedKey>,
    wanted: spec_fn(EvaluatedKey) -> bool,
)
    requires
        forall|e: EvaluatedKey| #[trigger]
            wanted(e) == (e.outcome is QuorumVerified || e.outcome is PaidListVerified),
    ensures
        verified_keys(evaluated).len() == evaluated.filter(wanted).len(),
        forall|i: int|
            0 <= i < verified_keys(evaluated).len() ==> #[trigger] verified_keys(evaluated)[i]
                == evaluated.filter(wanted)[i].key,
    decreases evaluated.len(),
{
    reveal(Seq::filter);
    if evaluated.len() > 0 {
        verified_keys_are_filtered(evaluated.drop_last(), wanted);
        assert(wanted(evaluated.last()) == (evaluated.last().outcome is QuorumVerified
            || evaluated.last().outcome is PaidListVerified));
    }
}

/// Noted as paid for are just the keys that enough of their holders, or enough of those who keep
/// track of payments, vouch for, in the order given, whether or not anyone holds them.
pub proof fn vouched_keys_are_noted_as_paid(evaluated: Seq<EvaluatedKey>)
    ensures
        ({
            let vouched = evaluated.filter(
                |e: EvaluatedKey|
                    e.outcome is QuorumVerified || e.outcome is PaidListVerified,
            );
            &&& verified_keys(evaluated).len() == vouched.len()
            &&& forall|i: int|
                0 <= i < vouched.len() ==> #[trigger] verified_keys(evaluated)[i]
                    == vouched[i].key
        }),
{
    verified_keys_are_filtered(
        evaluated,
        |e: EvaluatedKey| e.outcome is QuorumVerified || e.outcome is PaidListVerified,
    );
}

/// The keys of wanted entries are those of the entries that any equal choice keeps.
proof fn wanted_keys_are_filtered(
    pending: Seq<PendingKey>,
    wanted: spec_fn(PendingKey) -> bool,
    same: spec_fn(PendingKey) -> bool,
)
    requires
        forall|p: PendingKey| #[trigger] wanted(p) == same(p),
    ensures
        keys_where(pending, wanted).len() == pending.filter(same).len(),
        forall|i: int|
            0 <= i < keys_where(pending, wanted).len() ==> #[trigger] keys_where(
                pending,
                wanted,
            )[i] == pending.filter(same)[i].key,
    decreases pending.len(),
{
    reveal(Seq::filter);
    if pending.len() > 0 {
        wanted_keys_are_filtered(pending.drop_last(), wanted, same);
        assert(wanted(pending.last()) == same(pending.last()));
    }
}

/// A key that the node knows to be paid for is probed for where it was hinted at as a replica, and
/// looked at again where it was hinted at as paid for; about every other key others are asked. Each
/// list keeps the order of the keys that wait.
pub proof fn pending_keys_are_sorted_out(pending: Seq<PendingKey>)
    ensures
        ({
            let probe = pending.filter(
                |p: PendingKey| p.locally_paid && p.pipeline == Some(HintPipeline::Replica),
            );
            let paid_only = pending.filter(
                |p: PendingKey| p.locally_paid && p.pipeline == Some(HintPipeline::PaidOnly),
            );
            let network = pending.filter(|p: PendingKey| !p.locally_paid);
            &&& keys_where(pending, is_probe()).len() == probe.len()
            &&& forall|i: int|
                0 <= i < probe.len() ==> #[trigger] keys_where(pending, is_probe())[i]
                    == probe[i].key
            &&& keys_where(pending, is_paid_only()).len() == paid_only.len()
            &&& forall|i: int|
                0 <= i < paid_only.len() ==> #[trigger] keys_where(pending, is_paid_only())[i]
                    == paid_only[i].key
            &&& keys_where(pending, is_network()).len() == network.len()
            &&& forall|i: int|
                0 <= i < network.len() ==> #[trigger] keys_where(pending, is_network())[i]
                    == network[i].key
        }),
{
    wanted_keys_are_filtered(
        pending,
        is_probe(),
        |p: PendingKey| p.locally_paid && p.pipeline == Some(HintPipeline::Replica),
    );
    wanted_keys_are_filtered(
        pending,
        is_paid_only(),
        |p: PendingKey| p.locally_paid && p.pipeline == Some(HintPipeline::PaidOnly),
    );
    wanted_keys_are_filtered(pending, is_network(), |p: PendingKey| !p.locally_paid);
}

/// The keys that are missing, and the others, are those of the entries that these choices keep.
proof fn paid_only_keys_are_filtered(
    keys: Seq<PaidOnlyKey>,
    missing: spec_fn(PaidOnlyKey) -> bool,
    others: spec_fn(PaidOnlyKey) -> bool,
)
    requires
        forall|k: PaidOnlyKey| #[trigger] missing(k) == (!k.stored && k.responsible),
        forall|k: PaidOnlyKey| #[trigger] others(k) == (k.stored || !k.responsible),
    ensures
        missing_keys(keys).len() == keys.filter(missing).len(),
        forall|i: int|
            0 <= i < missing_keys(keys).len() ==> #[trigger] missing_keys(keys)[i]
                == keys.filter(missing)[i].key,
        unneeded_keys(keys).len() == keys.filter(others).len(),
        forall|i: int|
            0 <= i < unneeded_keys(keys).len() ==> #[trigger] unneeded_keys(keys)[i]
                == keys.filter(others)[i].key,
    decreases keys.len(),
{
    reveal(Seq::filter);
    if keys.len() > 0 {
        paid_only_keys_are_filtered(keys.drop_last(), missing, others);
        assert(missing(keys.last()) == (!keys.last().stored && keys.last().responsible));
        assert(others(keys.last()) == (keys.last().stored || !keys.last().responsible));
    }
}

/// Of the keys that were only hinted at as paid for, those that the node should hold and does not
/// are probed for after all, and just the others are settled, in their order.
pub proof fn missing_keys_are_probed_for(keys: Seq<PaidOnlyKey>)
    ensures
        ({
            let missing = keys.filter(|k: PaidOnlyKey| !k.stored && k.responsible);
            let others = keys.filter(|k: PaidOnlyKey| k.stored || !k.responsible);
            &&& missing_keys(keys).len() == missing.len()
            &&& forall|i: int|
                0 <= i < missing.len() ==> #[trigger] missing_keys(keys)[i] == missing[i].key
            &&& unneeded_keys(keys).len() == others.len()
            &&& forall|i: int|
                0 <= i < others.len() ==> #[trigger] unneeded_keys(keys)[i] == others[i].key
        }),
{
    paid_only_keys_are_filtered(
        keys,
        |k: PaidOnlyKey| !k.stored && k.responsible,
        |k: PaidOnlyKey| k.stored || !k.responsible,
    );
}

/// The steps that settle a key, and no others, have their keys listed, in their order.
proof fn settled_keys_are_filtered(steps: Seq<QueueStep>, settling: spec_fn(QueueStep) -> bool)
    requires
        forall|step: QueueStep| #[trigger] settling(step) == (step is Settle),
    ensures
        settled_by(steps).len() == steps.filter(settling).len(),
        forall|i: int|
            0 <= i < settled_by(steps).len() ==> steps.filter(settling)[i] == (QueueStep::Settle {
                key: #[trigger] settled_by(steps)[i],
            }),
    decreases steps.len(),
{
    reveal(Seq::filter);
    if steps.len() > 0 {
        settled_keys_are_filtered(steps.drop_last(), settling);
        assert(settling(steps.last()) == (steps.last() is Settle));
    }
}

/// What a cycle lists as settled is, in their order, one key for each step that settles one.
pub proof fn each_settling_step_is_listed_once(steps: Seq<QueueStep>)
    ensures
        ({
            let settling = steps.filter(|step: QueueStep| step is Settle);
            &&& settled_by(steps).len() == settling.len()
            &&& forall|i: int|
                0 <= i < settling.len() ==> settling[i] == (QueueStep::Settle {
                    key: #[trigger] settled_by(steps)[i],
                })
        }),
{
    settled_keys_are_filtered(steps, |step: QueueStep| step is Settle);
}

/// The word of a peer that it holds a key counts in three cases, and no other: the node does not
/// hold the key; the peer never published a commitment; or the peer proved to hold the key, no
/// more than forty minutes ago, under the very commitment that it published last.
pub proof fn word_counts_by_proof_or_by_default(
    locally_held: bool,
    peer: PeerId,
    key: XorName,
    capable: Map<XorName, ()>,
    records: Map<XorName, PeerCommitmentRecord>,
    provers: RecentProvers,
    now: Instant,
)
    ensures
        word_counts(locally_held, peer, key, capable, records, provers, now) <==> !locally_held
            || !capable.dom().contains(peer) || (records.dom().contains(peer)
            && records[peer].last_commitment is Some && exists|i: int|
            0 <= i < provers.proofs_of(key).len() && (#[trigger] provers.proofs_of(key)[i]).peer
                == peer && provers.proofs_of(key)[i].commitment_hash
                == crate::hashing::blake3_digest(
                commitment::wire_bytes(records[peer].last_commitment->0@),
            ) && now.nanos <= provers.proofs_of(key)[i].proved_at.nanos + 2_400_000_000_000),
{
}

/// A key is looked up among those paid for just where its place is among those asked about: no
/// place past the keys counts, and none stands for another.
pub proof fn paid_is_asked_by_place(request: VerificationRequest, i: int)
    requires
        0 <= i < request.keys.len() <= u32::MAX,
    ensures
        paid_is_asked(request, i) <==> request.paid_list_check_indices@.contains(i as u32),
{
}

/// Whether the word of `peer` that it holds `key` counts: for a key that the node does not hold,
/// always, since the node could not have audited anyone on it; for another, always where the peer
/// is not known to publish commitments, and else only where it is credited as a holder under its
/// last commitment.
pub open spec fn word_counts(
    locally_held: bool,
    peer: PeerId,
    key: XorName,
    capable: Map<XorName, ()>,
    records: Map<XorName, PeerCommitmentRecord>,
    provers: RecentProvers,
    now: Instant,
) -> bool {
    if !locally_held || !capable.contains_key(peer) {
        true
    } else if records.contains_key(peer) {
        match records[peer].last_commitment {
            Some(c) => credits(
                provers.proofs_of(key),
                peer,
                commitment::commitment_digest(c@),
                now,
            ),
            None => false,
        }
    } else {
        false
    }
}

/// Decide whether the word of `peer` that it holds `key` counts.
pub fn holder_credit(
    locally_held: bool,
    peer: &PeerId,
    key: &XorName,
    ever_capable_peers: &NameMap<()>,
    last_commitment_by_peer: &NameMap<PeerCommitmentRecord>,
    recent_provers: &RecentProvers,
    now: Instant,
) -> (counts: bool)
    ensures
        counts == word_counts(
            locally_held,
            *peer,
            *key,
            ever_capable_peers@,
            last_commitment_by_peer@,
            *recent_provers,
            now,
        ),
{
    if !locally_held || !ever_capable_peers.contains(peer) {
        return true;
    }
    match last_commitment_by_peer.get(peer) {
        Some(record) => match &record.last_commitment {
            Some(c) => match commitment_hash(c) {
                Some(hash) => recent_provers.is_credited_holder(key, peer, &hash, now),
                None => false,
            },
            None => false,
        },
        None => false,
    }
}

/// A peer that is known to publish commitments does not get its word back by dropping out of the
/// tables: without a commitment on file, it does not count for a key that the node holds.
pub proof fn dropping_out_earns_nothing(
    peer: PeerId,
    key: XorName,
    capable: Map<XorName, ()>,
    records: Map<XorName, PeerCommitmentRecord>,
    provers: RecentProvers,
    now: Instant,
)
    requires
        capable.contains_key(peer),
    ensures
        !word_counts(true, peer, key, capable, records.remove(peer), provers, now),
{
}

/// Whether it was asked of the key at place `i` whether it is paid for.
pub open spec fn paid_is_asked(request: VerificationRequest, i: int) -> bool {
    let probe = if i <= u32::MAX {
        i as u32
    } else {
        u32::MAX
    };
    request.paid_list_check_indices@.contains(probe) && probe < request.keys.len() as u32
}

/// Whether a number is among others.
fn holds_index(indices: &Vec<u32>, index: u32) -> (held: bool)
    ensures
        held == indices@.contains(index),
{
    let mut i: usize = 0;
    while i < indices.len()
        invariant
            i <= indices.len(),
            forall|k: int| 0 <= k < i ==> indices@[k] != index,
        decreases indices.len() - i,
    {
        if indices[i] == index {
            return true;
        }
        i += 1;
    }
    false
}

/// Answer which keys are held, and which of those asked about are paid for. An index past the keys
/// asks nothing.
pub fn handle_verification_request<S: Fn(&XorName) -> bool, P: Fn(&XorName) -> bool>(
    request: &VerificationRequest,
    stored: S,
    paid: P,
) -> (response: VerificationResponse)
    requires
        forall|key: &XorName| call_requires(stored, (key,)),
        forall|key: &XorName| call_requires(paid, (key,)),
    ensures
        response.results.len() == request.keys.len(),
        forall|i: int|
            0 <= i < request.keys.len() ==> {
                let result = #[trigger] response.results@[i];
                &&& result.key == request.keys@[i]
                &&& call_ensures(stored, (&request.keys@[i],), result.present)
                &&& match result.paid {
                    Some(known) => paid_is_asked(*request, i) && call_ensures(
                        paid,
                        (&request.keys@[i],),
                        known,
                    ),
                    None => !paid_is_asked(*request, i),
                }
            },
{
    let keys_len: u32 = #[verifier::truncate]
    (request.keys.len() as u32);
    let mut results: Vec<KeyVerificationResult> = Vec::new();
    let mut i: usize = 0;
    while i < request.keys.len()
        invariant
            i <= request.keys.len(),
            keys_len == request.keys.len() as u32,
            forall|key: &XorName| call_requires(stored, (key,)),
            forall|key: &XorName| call_requires(paid, (key,)),
            results.len() == i,
            forall|k: int|
                0 <= k < i ==> {
                    let result = #[trigger] results@[k];
                    &&& result.key == request.keys@[k]
                    &&& call_ensures(stored, (&request.keys@[k],), result.present)
                    &&& match result.paid {
                        Some(known) => paid_is_asked(*request, k) && call_ensures(
                            paid,
                            (&request.keys@[k],),
                            known,
                        ),
                        None => !paid_is_asked(*request, k),
                    }
                },
        decreases request.keys.len() - i,
    {
        let key = request.keys[i];
        let present = stored(&key);
        let probe: u32 = if i <= u32::MAX as usize {
            i as u32
        } else {
            u32::MAX
        };
        let paid_known = if probe < keys_len && holds_index(
            &request.paid_list_check_indices,
            probe,
        ) {
            Some(paid(&key))
        } else {
            None
        };
        results.push(KeyVerificationResult { key, present, paid: paid_known });
        i += 1;
    }
    VerificationResponse { results }
}

} // verus!
