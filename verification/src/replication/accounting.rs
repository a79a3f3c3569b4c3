//! What follows from a failed audit, and when a peer may be audited.
//!
//! A failure that cannot be bad luck is acted on the first time. A missed deadline is only counted;
//! a peer may miss a few in a row, and a few more where many other peers miss theirs. Audits of one
//! peer are spaced, whether or not an audit took place when one was due.

use crate::ant_protocol::XorName;
use crate::hashing::same_bytes32;
use crate::name_map::NameMap;
use crate::name_map::{count_is_cardinality, count_where, names_are_listed, names_where};
use crate::replication::config::{AUDIT_ON_GOSSIP_COOLDOWN_SECS, AUDIT_TIMEOUT_STRIKE_THRESHOLD};
use crate::replication::recent_provers::RecentProvers;
use crate::replication::types::{AuditFailureReason, PeerId};
use crate::time::{Instant, NANOS_PER_SEC};
use vstd::prelude::*;

verus! {

/// The most misses that are counted.
pub const AUDIT_TIMEOUT_STRIKE_MAX: u32 = 64;

/// How far other peers' misses can widen the allowance.
pub const MAX_ADAPTIVE_TIMEOUT_GRACE: u32 = 6;

/// How many peers are kept in a table.
pub const MAX_LAST_COMMITMENT_BY_PEER: usize = 4096;

/// Least seconds between checks of one peer's signatures.
pub const COMMITMENT_SIG_VERIFY_MIN_INTERVAL_SECS: u64 = 60;

/// What is done about a failed audit.
#[derive(Clone, Copy, Debug, PartialEq, Eq, Structural)]
pub enum AuditFailureAction {
    /// A miss within the allowance: nothing.
    TimeoutGrace,
    /// A miss past the allowance: the peer counts as one that does not store.
    TimeoutPenalize,
    /// A confirmed failure: a penalty, and the loss of credit and of the claim to be starting up.
    ConfirmedPenalize,
}

/// Whether a peer is another than `peer`.
pub open spec fn is_other(peer: PeerId) -> spec_fn(XorName, u32) -> bool {
    |p: XorName, count: u32| p != peer
}

/// Whether a peer is another than `peer` and has missed no more than `most` deadlines.
pub open spec fn is_other_at_most(peer: PeerId, most: u32) -> spec_fn(XorName, u32) -> bool {
    |p: XorName, count: u32| p != peer && count <= most
}

/// The peers other than `peer` that have missed deadlines.
pub open spec fn other_peers(strikes: Map<XorName, u32>, peer: PeerId) -> Set<XorName> {
    names_where(strikes, is_other(peer))
}

/// Those of them that have missed no more than `most`.
pub open spec fn others_at_most(strikes: Map<XorName, u32>, peer: PeerId, most: u32) -> Set<
    XorName,
> {
    names_where(strikes, is_other_at_most(peer, most))
}

/// Whether no less than half of the other peers have missed no more than `most`.
pub open spec fn half_at_most(strikes: Map<XorName, u32>, peer: PeerId, most: u32) -> bool {
    2 * others_at_most(strikes, peer, most).len() >= other_peers(strikes, peer).len()
}

/// Whether `m` is the lower median of the other peers' misses: the least of their counts that no
/// less than half of them do not exceed; none where there are no others.
pub open spec fn is_lower_median(strikes: Map<XorName, u32>, peer: PeerId, m: u32) -> bool {
    if other_peers(strikes, peer).len() == 0 {
        m == 0
    } else {
        &&& exists|p: XorName| #[trigger] strikes.contains_key(p) && p != peer && strikes[p] == m
        &&& half_at_most(strikes, peer, m)
        &&& forall|p: XorName| #[trigger]
            strikes.contains_key(p) && p != peer && strikes[p] < m ==> !half_at_most(
                strikes,
                peer,
                strikes[p],
            )
    }
}

/// The lower median of the other peers' misses.
pub open spec fn lower_median(strikes: Map<XorName, u32>, peer: PeerId) -> u32 {
    choose|m: u32| is_lower_median(strikes, peer, m)
}

/// The misses in a row at which `peer` counts as one that does not store.
pub open spec fn miss_threshold(strikes: Map<XorName, u32>, peer: PeerId) -> int {
    let median = lower_median(strikes, peer);
    AUDIT_TIMEOUT_STRIKE_THRESHOLD + (if median <= MAX_ADAPTIVE_TIMEOUT_GRACE {
        median as int
    } else {
        MAX_ADAPTIVE_TIMEOUT_GRACE as int
    })
}

/// How often `peer` has missed a deadline in a row.
pub open spec fn misses_of(strikes: Map<XorName, u32>, peer: PeerId) -> u32 {
    if strikes.contains_key(peer) {
        strikes[peer]
    } else {
        0
    }
}

/// The count after one more miss.
pub open spec fn one_more(misses: u32) -> u32 {
    if misses < AUDIT_TIMEOUT_STRIKE_MAX {
        (misses + 1) as u32
    } else {
        AUDIT_TIMEOUT_STRIKE_MAX
    }
}

/// What is done about a failure with this reason, where the peer has missed `misses` deadlines in
/// a row and `threshold` of them are too many.
pub open spec fn action_for(reason: AuditFailureReason, misses: int, threshold: int) ->
    AuditFailureAction {
    if reason != AuditFailureReason::Timeout {
        AuditFailureAction::ConfirmedPenalize
    } else if misses >= threshold {
        AuditFailureAction::TimeoutPenalize
    } else {
        AuditFailureAction::TimeoutGrace
    }
}

/// There is only one lower median.
pub proof fn lower_median_is_unique(strikes: Map<XorName, u32>, peer: PeerId, m: u32)
    requires
        is_lower_median(strikes, peer, m),
    ensures
        m == lower_median(strikes, peer),
{
    let other = lower_median(strikes, peer);
    assert(is_lower_median(strikes, peer, other));
    if other_peers(strikes, peer).len() > 0 {
        let p = choose|p: XorName| #[trigger]
            strikes.contains_key(p) && p != peer && strikes[p] == m;
        let q = choose|q: XorName| #[trigger]
            strikes.contains_key(q) && q != peer && strikes[q] == other;
        if m < other {
            assert(!half_at_most(strikes, peer, strikes[p]));
        } else if other < m {
            assert(!half_at_most(strikes, peer, strikes[q]));
        }
    }
}

/// Where there are other peers, their misses have a lower median.
proof fn lower_median_exists(strikes: Map<XorName, u32>, peer: PeerId, most: u32)
    requires
        other_peers(strikes, peer).len() > 0,
        half_at_most(strikes, peer, most),
    ensures
        exists|m: u32| is_lower_median(strikes, peer, m),
    decreases most,
{
    if exists|less: u32| less < most && #[trigger] half_at_most(strikes, peer, less) {
        let less = choose|less: u32| less < most && #[trigger] half_at_most(strikes, peer, less);
        lower_median_exists(strikes, peer, less);
    } else if exists|p: XorName| #[trigger]
        strikes.contains_key(p) && p != peer && strikes[p] == most {
        assert(is_lower_median(strikes, peer, most));
    } else if most > 0 {
        let less = (most - 1) as u32;
        assert(others_at_most(strikes, peer, less) =~= others_at_most(strikes, peer, most));
        assert(half_at_most(strikes, peer, less));
    } else {
        assert(others_at_most(strikes, peer, most) =~= Set::empty());
    }
}

/// However many peers miss their deadlines, the allowance stays between the base and the base plus
/// the greatest widening, which lies below the most misses that are counted.
pub proof fn threshold_is_bounded(strikes: Map<XorName, u32>, peer: PeerId)
    ensures
        AUDIT_TIMEOUT_STRIKE_THRESHOLD <= miss_threshold(strikes, peer)
            <= AUDIT_TIMEOUT_STRIKE_THRESHOLD + MAX_ADAPTIVE_TIMEOUT_GRACE
            < AUDIT_TIMEOUT_STRIKE_MAX,
{
}

/// A peer's own misses do not widen its allowance.
pub proof fn own_misses_do_not_count(
    strikes: Map<XorName, u32>,
    peer: PeerId,
    misses: u32,
)
    ensures
        miss_threshold(strikes.insert(peer, misses), peer) == miss_threshold(strikes, peer),
{
    let changed = strikes.insert(peer, misses);
    assert(other_peers(changed, peer) =~= other_peers(strikes, peer));
    assert forall|most: u32| #[trigger] others_at_most(changed, peer, most) == others_at_most(
        strikes,
        peer,
        most,
    ) by {
        assert(others_at_most(changed, peer, most) =~= others_at_most(strikes, peer, most));
    }
    assert forall|m: u32| is_lower_median(changed, peer, m) == is_lower_median(strikes, peer, m) by {
        assert forall|p: XorName| p != peer implies changed.contains_key(p)
            == strikes.contains_key(p) && changed[p] == strikes[p] by {}
        assert(half_at_most(changed, peer, m) == half_at_most(strikes, peer, m));
        if is_lower_median(strikes, peer, m) && other_peers(strikes, peer).len() > 0 {
            let p = choose|p: XorName| #[trigger]
                strikes.contains_key(p) && p != peer && strikes[p] == m;
            assert(changed.contains_key(p) && p != peer && changed[p] == m);
        }
        if is_lower_median(changed, peer, m) && other_peers(strikes, peer).len() > 0 {
            let p = choose|p: XorName| #[trigger]
                changed.contains_key(p) && p != peer && changed[p] == m;
            assert(strikes.contains_key(p) && p != peer && strikes[p] == m);
        }
        assert forall|p: XorName| #[trigger] strikes.contains_key(p) && p != peer implies
            half_at_most(changed, peer, strikes[p]) == half_at_most(strikes, peer, strikes[p]) by {}
    }
    if other_peers(strikes, peer).len() > 0 {
        assert(others_at_most(strikes, peer, u32::MAX) =~= other_peers(strikes, peer));
        lower_median_exists(strikes, peer, u32::MAX);
    } else {
        assert(is_lower_median(strikes, peer, 0));
    }
    let m = lower_median(strikes, peer);
    assert(is_lower_median(strikes, peer, m));
    assert(is_lower_median(changed, peer, m));
    lower_median_is_unique(changed, peer, m);
}

/// The count after `times` misses in a row.
pub open spec fn misses_after(start: u32, times: nat) -> u32
    decreases times,
{
    if times == 0 {
        start
    } else {
        one_more(misses_after(start, (times - 1) as nat))
    }
}

/// A peer that misses every deadline counts, sooner or later, as one that does not store: no
/// allowance lasts for more misses than it can reach.
pub proof fn persistent_misses_are_penalized(
    strikes: Map<XorName, u32>,
    peer: PeerId,
    start: u32,
    times: nat,
)
    requires
        times >= AUDIT_TIMEOUT_STRIKE_THRESHOLD + MAX_ADAPTIVE_TIMEOUT_GRACE,
    ensures
        action_for(
            AuditFailureReason::Timeout,
            misses_after(start, times) as int,
            miss_threshold(strikes, peer),
        ) == AuditFailureAction::TimeoutPenalize,
{
    misses_add_up(start, times);
    threshold_is_bounded(strikes, peer);
}

/// So many misses count for so many, up to the most that are counted.
proof fn misses_add_up(start: u32, times: nat)
    ensures
        misses_after(start, times) >= times || misses_after(start, times)
            == AUDIT_TIMEOUT_STRIKE_MAX,
    decreases times,
{
    if times > 0 {
        misses_add_up(start, (times - 1) as nat);
    }
}

/// A peer that answers in between is not penalized for its misses: the first miss after an answer,
/// which clears the count, is within any allowance.
pub proof fn lone_miss_is_forgiven(strikes: Map<XorName, u32>, peer: PeerId)
    ensures
        action_for(
            AuditFailureReason::Timeout,
            one_more(misses_of(strikes.remove(peer), peer)) as int,
            miss_threshold(strikes.remove(peer), peer),
        ) == AuditFailureAction::TimeoutGrace,
{
    threshold_is_bounded(strikes.remove(peer), peer);
}

/// Whoever answers wrongly, refuses, or lacks a key is penalized at once, however few deadlines it
/// missed; whoever only misses deadlines is, from the threshold on, and not below it.
pub proof fn failures_are_told_from_misses(reason: AuditFailureReason, misses: int, threshold: int)
    ensures
        reason is MalformedResponse || reason is DigestMismatch || reason is KeyAbsent
            || reason is Rejected ==> action_for(reason, misses, threshold)
            == AuditFailureAction::ConfirmedPenalize,
        reason is Timeout && misses >= threshold ==> action_for(reason, misses, threshold)
            == AuditFailureAction::TimeoutPenalize,
        reason is Timeout && misses < threshold ==> action_for(reason, misses, threshold)
            == AuditFailureAction::TimeoutGrace,
{
}

/// Misses in a row add up, one by one, until the count is full.
pub proof fn misses_are_counted(times: nat)
    ensures
        misses_after(0, times) == if times <= 64 {
            times as int
        } else {
            64
        },
    decreases times,
{
    if times > 0 {
        misses_are_counted((times - 1) as nat);
    }
}

/// The median is one that no less than half of the other peers do not exceed, and that fewer than
/// half of them stay below; none where there are no others.
pub proof fn median_parts_other_peers(strikes: Map<XorName, u32>, peer: PeerId)
    requires
        strikes.dom().finite(),
    ensures
        ({
            let m = lower_median(strikes, peer);
            let others = strikes.dom().remove(peer);
            let up_to = others.filter(|p: XorName| strikes[p] <= m);
            let below = others.filter(|p: XorName| strikes[p] < m);
            if others.len() == 0 {
                m == 0
            } else {
                2 * up_to.len() >= others.len() > 2 * below.len()
            }
        }),
{
    let m = lower_median(strikes, peer);
    let others = strikes.dom().remove(peer);
    let below = others.filter(|p: XorName| strikes[p] < m);
    assert(other_peers(strikes, peer) =~= others);
    lower_median_is_some(strikes, peer);
    assert(others_at_most(strikes, peer, m) =~= others.filter(|p: XorName| strikes[p] <= m));
    if others.len() > 0 {
        if below.len() > 0 {
            let high = greatest_below(strikes, others, m);
            assert(others_at_most(strikes, peer, strikes[high]) =~= below);
            assert(!half_at_most(strikes, peer, strikes[high]));
        }
    }
}

/// The misses of other peers have a lower median.
proof fn lower_median_is_some(strikes: Map<XorName, u32>, peer: PeerId)
    ensures
        is_lower_median(strikes, peer, lower_median(strikes, peer)),
{
    if other_peers(strikes, peer).len() > 0 {
        assert(others_at_most(strikes, peer, u32::MAX) =~= other_peers(strikes, peer));
        lower_median_exists(strikes, peer, u32::MAX);
    } else {
        assert(is_lower_median(strikes, peer, 0));
    }
}

/// Among peers that stay below a count, one has missed the most.
proof fn greatest_below(strikes: Map<XorName, u32>, peers: Set<XorName>, m: u32) -> (high: XorName)
    requires
        peers.finite(),
        peers.filter(|p: XorName| strikes[p] < m).len() > 0,
    ensures
        peers.contains(high),
        strikes[high] < m,
        forall|p: XorName| #[trigger]
            peers.contains(p) && strikes[p] < m ==> strikes[p] <= strikes[high],
    decreases m,
{
    let below = peers.filter(|p: XorName| strikes[p] < m);
    let some = below.choose();
    assert(below.contains(some));
    let less = (m - 1) as u32;
    if exists|p: XorName| #[trigger] peers.contains(p) && strikes[p] == less {
        choose|p: XorName| #[trigger] peers.contains(p) && strikes[p] == less
    } else {
        assert(peers.filter(|p: XorName| strikes[p] < less) =~= below);
        greatest_below(strikes, peers, less)
    }
}

/// The allowance follows the other peers: with the median of their misses it widens one by one,
/// from three misses on, to nine at most.
pub proof fn allowance_follows_median(strikes: Map<XorName, u32>, peer: PeerId)
    ensures
        miss_threshold(strikes, peer) == 3 + if lower_median(strikes, peer) <= 6 {
            lower_median(strikes, peer) as int
        } else {
            6
        },
{
}

/// Where every other peer misses deadlines too, the allowance is wider; where none does, it is not.
pub proof fn shared_trouble_widens_allowance(strikes: Map<XorName, u32>, peer: PeerId, least: u32)
    requires
        least <= 6,
        exists|p: XorName| p != peer && #[trigger] strikes.contains_key(p),
        forall|p: XorName| p != peer && #[trigger] strikes.contains_key(p) ==> strikes[p] >= least,
        strikes.dom().finite(),
    ensures
        miss_threshold(strikes, peer) >= 3 + least,
{
    let p = choose|p: XorName| p != peer && #[trigger] strikes.contains_key(p);
    lower_median_is_some(strikes, peer);
    assert(other_peers(strikes, peer) =~= strikes.dom().remove(peer));
    assert(other_peers(strikes, peer).contains(p));
    vstd::set_lib::lemma_len_subset(set![p], other_peers(strikes, peer));
}

/// A peer whose neighbours miss nothing gets no more than the base allowance.
pub proof fn no_shared_trouble_no_widening(strikes: Map<XorName, u32>, peer: PeerId)
    requires
        forall|p: XorName| p != peer && #[trigger] strikes.contains_key(p) ==> strikes[p] == 0,
    ensures
        miss_threshold(strikes, peer) == 3,
{
    lower_median_is_some(strikes, peer);
}

/// A peer was stamped within a span just where its stamp is there and the span since then is not
/// over.
pub proof fn stamp_is_timed_in_seconds(
    stamps: Map<XorName, Instant>,
    peer: PeerId,
    now: Instant,
    secs: u64,
)
    ensures
        secs > 0 ==> (stamped_within(stamps, peer, now, secs) <==> stamps.dom().contains(peer)
            && now.nanos < stamps[peer].nanos + secs * 1_000_000_000),
        !stamped_within(stamps, peer, now, 0),
{
}

/// A peer that was given a chance to be audited gets no other for half an hour, and one whose
/// signature was checked gets no other checked for a minute; after that, both do.
pub proof fn cooldowns_last_their_time(
    before: Map<XorName, Instant>,
    peer: PeerId,
    now: Instant,
    after: Map<XorName, Instant>,
    later: Instant,
)
    requires
        stamped(before, peer, now, after),
    ensures
        stamped_within(after, peer, later, AUDIT_ON_GOSSIP_COOLDOWN_SECS) <==> later.nanos
            < now.nanos + 1_800_000_000_000,
        stamped_within(after, peer, later, COMMITMENT_SIG_VERIFY_MIN_INTERVAL_SECS)
            <==> later.nanos < now.nanos + 60_000_000_000,
{
}

/// A new stamp leaves those of other peers as they are. Only where the table holds as many as it may
/// and the peer has none yet does one go, and none that goes is newer than one that stays.
pub proof fn stamping_keeps_other_stamps(
    before: Map<XorName, Instant>,
    peer: PeerId,
    now: Instant,
    after: Map<XorName, Instant>,
)
    requires
        before.dom().finite(),
        stamped(before, peer, now, after),
    ensures
        after.dom().contains(peer) && after[peer] == now,
        forall|p: XorName| #[trigger]
            after.dom().contains(p) && p != peer ==> before.dom().contains(p) && after[p]
                == before[p],
        before.dom().contains(peer) || before.dom().len() < 4096 ==> forall|p: XorName| #[trigger]
            before.dom().contains(p) ==> after.dom().contains(p),
        forall|gone: XorName, kept: XorName|
            #![trigger before.dom().contains(gone), after.dom().contains(kept)]
            before.dom().contains(gone) && !after.dom().contains(gone) && after.dom().contains(kept)
                && kept != peer ==> before[gone].nanos <= before[kept].nanos,
        forall|a: XorName, b: XorName|
            #![trigger before.dom().contains(a), before.dom().contains(b)]
            before.dom().contains(a) && !after.dom().contains(a) && before.dom().contains(b)
                && !after.dom().contains(b) ==> a == b,
{
}

/// Whether a failed audit ends a peer's claim to be starting up: any does but a miss.
pub fn audit_failure_clears_bootstrap_claim(reason: &AuditFailureReason) -> (clears: bool)
    ensures
        clears == (*reason != AuditFailureReason::Timeout),
{
    !matches!(reason, AuditFailureReason::Timeout)
}

/// Count one more miss of `peer`, and return the count.
pub fn record_audit_timeout_strike(strikes: &mut NameMap<u32>, peer: &PeerId) -> (count: u32)
    ensures
        count == one_more(misses_of(old(strikes)@, *peer)),
        final(strikes)@ == old(strikes)@.insert(*peer, count),
{
    let before: u32 = match strikes.get(peer) {
        Some(count) => *count,
        None => 0,
    };
    let count: u32 = if before < AUDIT_TIMEOUT_STRIKE_MAX {
        before + 1
    } else {
        AUDIT_TIMEOUT_STRIKE_MAX
    };
    strikes.insert(*peer, count);
    count
}

/// How many other peers have missed no more than `most` deadlines.
fn count_others_at_most(strikes: &NameMap<u32>, peer: &PeerId, most: u32) -> (count: usize)
    ensures
        count == others_at_most(strikes@, *peer, most).len(),
        others_at_most(strikes@, *peer, most).finite(),
{
    let len: usize = strikes.len();
    let ghost wanted = is_other_at_most(*peer, most);
    let ghost listed = strikes.listed();
    let mut count: usize = 0;
    let mut i: usize = 0;
    assert(listed.take(0) =~= Seq::empty());
    while i < len
        invariant
            i <= len,
            listed == strikes.listed(),
            len == listed.len(),
            count <= i,
            wanted == is_other_at_most(*peer, most),
            count == count_where(listed.take(i as int), wanted),
        decreases len - i,
    {
        let entry = strikes.at(i);
        proof {
            assert(listed.take(i + 1).drop_last() =~= listed.take(i as int));
            assert(listed.take(i + 1).last() == listed[i as int]);
        }
        if !same_bytes32(&entry.0, peer) && entry.1 <= most {
            count += 1;
        }
        i += 1;
    }
    proof {
        assert(listed.take(i as int) =~= listed);
        count_is_cardinality(listed, wanted);
    }
    count
}

/// The lower median of the other peers' misses.
pub fn median_timeout_strikes_excluding(strikes: &NameMap<u32>, peer: &PeerId) -> (median: u32)
    ensures
        is_lower_median(strikes@, *peer, median),
        median == lower_median(strikes@, *peer),
{
    let len: usize = strikes.len();
    let ghost listed = strikes.listed();
    let others: usize = count_others_at_most(strikes, peer, u32::MAX);
    proof {
        names_are_listed(listed);
        assert(others_at_most(strikes@, *peer, u32::MAX) =~= other_peers(strikes@, *peer));
    }
    let mut best: Option<u32> = None;
    let mut i: usize = 0;
    while i < len
        invariant
            i <= len,
            listed == strikes.listed(),
            strikes@ == crate::name_map::entries_map(listed),
            crate::names::strictly_ascending(listed),
            len == listed.len(),
            others == other_peers(strikes@, *peer).len(),
            forall|k: int|
                0 <= k < i && (#[trigger] listed[k]).0 != *peer && half_at_most(
                    strikes@,
                    *peer,
                    listed[k].1,
                ) ==> best is Some && best->0 <= listed[k].1,
            best matches Some(m) ==> half_at_most(strikes@, *peer, m) && exists|p: XorName|
                #[trigger]
                strikes@.contains_key(p) && p != *peer && strikes@[p] == m,
        decreases len - i,
    {
        let entry = strikes.at(i);
        if !same_bytes32(&entry.0, peer) {
            let count: usize = count_others_at_most(strikes, peer, entry.1);
            let half = count >= others || count >= others - count;
            let better = match best {
                Some(m) => entry.1 < m,
                None => true,
            };
            if half && better {
                assert(strikes@.contains_key(entry.0) && entry.0 != *peer && strikes@[entry.0]
                    == entry.1);
                best = Some(entry.1);
            }
        }
        i += 1;
    }
    proof {
        names_are_listed(listed);
        let all = other_peers(strikes@, *peer);
        count_is_cardinality(listed, is_other(*peer));
        if all.len() > 0 {
            lower_median_exists(strikes@, *peer, u32::MAX);
            let m = lower_median(strikes@, *peer);
            let p = choose|p: XorName| #[trigger]
                strikes@.contains_key(p) && p != *peer && strikes@[p] == m;
            assert(listed[crate::name_map::place_of(listed, p)].0 == p);
            assert(best is Some);
            assert forall|p: XorName| #[trigger] strikes@.contains_key(p) && p != *peer
                && strikes@[p] < best->0 implies !half_at_most(strikes@, *peer, strikes@[p]) by {
                let k = crate::name_map::place_of(listed, p);
                assert(listed[k].0 == p);
            }
        } else if best is Some {
            let m = best->0;
            let p = choose|p: XorName| #[trigger]
                strikes@.contains_key(p) && p != *peer && strikes@[p] == m;
            assert(all.contains(p));
            assert(all =~= Set::empty());
        }
    }
    let median: u32 = match best {
        Some(m) => m,
        None => 0,
    };
    proof {
        lower_median_is_unique(strikes@, *peer, median);
    }
    median
}

/// The misses in a row at which `peer` counts as one that does not store.
pub fn adaptive_timeout_threshold(strikes: &NameMap<u32>, peer: &PeerId) -> (threshold: u32)
    ensures
        threshold == miss_threshold(strikes@, *peer),
{
    let median: u32 = median_timeout_strikes_excluding(strikes, peer);
    let grace: u32 = if median <= MAX_ADAPTIVE_TIMEOUT_GRACE {
        median
    } else {
        MAX_ADAPTIVE_TIMEOUT_GRACE
    };
    grace + AUDIT_TIMEOUT_STRIKE_THRESHOLD
}

/// Whether so many misses are too many.
pub fn timeout_strike_reaches_threshold(strikes: u32, threshold: u32) -> (reached: bool)
    ensures
        reached == (strikes >= threshold),
{
    strikes >= threshold
}

/// Decide what is done about a failed audit.
pub fn decide_audit_failure_action(
    reason: &AuditFailureReason,
    timeout_strikes_after: u32,
    timeout_threshold: u32,
) -> (action: AuditFailureAction)
    ensures
        action == action_for(*reason, timeout_strikes_after as int, timeout_threshold as int),
{
    if matches!(reason, AuditFailureReason::Timeout) {
        if timeout_strike_reaches_threshold(timeout_strikes_after, timeout_threshold) {
            AuditFailureAction::TimeoutPenalize
        } else {
            AuditFailureAction::TimeoutGrace
        }
    } else {
        AuditFailureAction::ConfirmedPenalize
    }
}

/// Decide what is done about a failed audit of `peer`, and count a miss. A confirmed failure leaves
/// the counts as they are.
pub fn plan_failed_audit(
    reason: &AuditFailureReason,
    strikes: &mut NameMap<u32>,
    peer: &PeerId,
) -> (action: AuditFailureAction)
    ensures
        *reason == AuditFailureReason::Timeout ==> {
            let count = one_more(misses_of(old(strikes)@, *peer));
            &&& final(strikes)@ == old(strikes)@.insert(*peer, count)
            &&& action == action_for(
                *reason,
                count as int,
                miss_threshold(old(strikes)@, *peer),
            )
        },
        *reason != AuditFailureReason::Timeout ==> final(strikes)@ == old(strikes)@ && action
            == AuditFailureAction::ConfirmedPenalize,
{
    let threshold: u32 = adaptive_timeout_threshold(strikes, peer);
    let strikes_after: u32 = if matches!(reason, AuditFailureReason::Timeout) {
        record_audit_timeout_strike(strikes, peer)
    } else {
        0
    };
    decide_audit_failure_action(reason, strikes_after, threshold)
}

/// Whether a failed audit takes away a peer's credit as a holder: any does but a miss.
pub fn audit_failure_revokes_holder_credit(reason: &AuditFailureReason) -> (revokes: bool)
    ensures
        revokes == (*reason != AuditFailureReason::Timeout),
{
    !matches!(reason, AuditFailureReason::Timeout)
}

/// Take away a peer's credit as a holder, where the failure calls for it.
pub fn apply_audit_failure_credit_revocation(
    provers: &mut RecentProvers,
    challenged_peer: &PeerId,
    reason: &AuditFailureReason,
)
    ensures
        forall|key: XorName| #[trigger]
            final(provers).proofs_of(key) == if *reason == AuditFailureReason::Timeout {
                old(provers).proofs_of(key)
            } else {
                old(provers).proofs_of(key).filter(
                    crate::replication::recent_provers::by_others(*challenged_peer),
                )
            },
{
    if audit_failure_revokes_holder_credit(reason) {
        provers.forget_peer(challenged_peer);
    }
}

/// Whether `peer` was stamped less than `secs` seconds before `now`.
pub open spec fn stamped_within(
    stamps: Map<XorName, Instant>,
    peer: PeerId,
    now: Instant,
    secs: u64,
) -> bool {
    stamps.contains_key(peer) && now.since(stamps[peer]) < secs * NANOS_PER_SEC
}

/// Whether no peer has an older stamp than `victim`.
pub open spec fn has_oldest_stamp(stamps: Map<XorName, Instant>, victim: PeerId) -> bool {
    &&& stamps.contains_key(victim)
    &&& forall|p: XorName| #[trigger]
        stamps.contains_key(p) ==> stamps[victim].nanos <= stamps[p].nanos
}

/// Whether `after` is `before` with a stamp of `peer` at `now`. A full table makes room for a new
/// peer by losing one with the oldest stamp.
pub open spec fn stamped(
    before: Map<XorName, Instant>,
    peer: PeerId,
    now: Instant,
    after: Map<XorName, Instant>,
) -> bool {
    if before.contains_key(peer) || before.dom().len() < MAX_LAST_COMMITMENT_BY_PEER {
        after == before.insert(peer, now)
    } else {
        exists|victim: XorName| #[trigger]
            has_oldest_stamp(before, victim) && after == before.remove(victim).insert(peer, now)
    }
}

/// Once a peer was stamped, it is refused for the whole of the interval.
pub proof fn stamp_holds_for_interval(
    before: Map<XorName, Instant>,
    peer: PeerId,
    now: Instant,
    after: Map<XorName, Instant>,
    later: Instant,
    secs: u64,
)
    requires
        stamped(before, peer, now, after),
    ensures
        stamped_within(after, peer, later, secs) <==> later.since(now) < secs * NANOS_PER_SEC,
{
}

/// A table of stamps does not outgrow its bound.
pub proof fn stamps_stay_bounded(
    before: Map<XorName, Instant>,
    peer: PeerId,
    now: Instant,
    after: Map<XorName, Instant>,
)
    requires
        before.dom().finite(),
        before.dom().len() <= MAX_LAST_COMMITMENT_BY_PEER,
        stamped(before, peer, now, after),
    ensures
        after.dom().finite(),
        after.dom().len() <= MAX_LAST_COMMITMENT_BY_PEER,
{
    if before.contains_key(peer) || before.dom().len() < MAX_LAST_COMMITMENT_BY_PEER {
        assert(after.dom() =~= before.dom().insert(peer));
    } else {
        let victim = choose|victim: XorName| #[trigger]
            has_oldest_stamp(before, victim) && after == before.remove(victim).insert(peer, now);
        assert(after.dom() =~= before.dom().remove(victim).insert(peer));
    }
}

/// Stamp `peer` at `now`.
fn stamp(stamps: &mut NameMap<Instant>, peer: &PeerId, now: Instant)
    ensures
        stamped(old(stamps)@, *peer, now, final(stamps)@),
{
    let len: usize = stamps.len();
    if len < MAX_LAST_COMMITMENT_BY_PEER || stamps.contains(peer) {
        stamps.insert(*peer, now);
        return;
    }
    let ghost listed = stamps.listed();
    let ghost before = stamps@;
    let mut victim: PeerId = stamps.at(0).0;
    let mut oldest: u128 = stamps.at(0).1.nanos;
    let mut i: usize = 1;
    while i < len
        invariant
            1 <= i <= len,
            listed == stamps.listed(),
            before == stamps@,
            len == listed.len(),
            before.contains_key(victim),
            before[victim].nanos == oldest,
            forall|k: int| 0 <= k < i ==> oldest <= (#[trigger] listed[k]).1.nanos,
        decreases len - i,
    {
        let entry = stamps.at(i);
        if entry.1.nanos < oldest {
            victim = entry.0;
            oldest = entry.1.nanos;
        }
        i += 1;
    }
    proof {
        names_are_listed(listed);
        assert forall|p: XorName| #[trigger] before.contains_key(p) implies before[victim].nanos
            <= before[p].nanos by {
            let k = crate::name_map::place_of(listed, p);
            assert(listed[k].0 == p);
        }
        assert(has_oldest_stamp(before, victim));
    }
    stamps.remove(&victim);
    stamps.insert(*peer, now);
}

/// Whether `peer` may be audited now. A peer that may is stamped, and not again until the cooldown
/// is over.
pub fn cooldown_allows_audit(map: &mut NameMap<Instant>, peer: &PeerId, now: Instant) -> (allowed:
    bool)
    ensures
        allowed == !stamped_within(old(map)@, *peer, now, AUDIT_ON_GOSSIP_COOLDOWN_SECS),
        allowed ==> stamped(old(map)@, *peer, now, final(map)@),
        !allowed ==> final(map)@ == old(map)@,
{
    if let Some(last) = map.get(peer) {
        if now.saturating_duration_since(*last).nanos < AUDIT_ON_GOSSIP_COOLDOWN_SECS as u128
            * NANOS_PER_SEC {
            return false;
        }
    }
    stamp(map, peer, now);
    true
}

/// Whether an audit of `peer` is launched now: where the cooldown allows one and the lottery is
/// won. A lost lottery uses up the cooldown as well.
pub fn audit_launch_decision(
    map: &mut NameMap<Instant>,
    peer: &PeerId,
    now: Instant,
    lottery_wins: bool,
) -> (launched: bool)
    ensures
        launched == (lottery_wins && !stamped_within(
            old(map)@,
            *peer,
            now,
            AUDIT_ON_GOSSIP_COOLDOWN_SECS,
        )),
        stamped_within(old(map)@, *peer, now, AUDIT_ON_GOSSIP_COOLDOWN_SECS) ==> final(map)@
            == old(map)@,
        !stamped_within(old(map)@, *peer, now, AUDIT_ON_GOSSIP_COOLDOWN_SECS) ==> stamped(
            old(map)@,
            *peer,
            now,
            final(map)@,
        ),
{
    if !cooldown_allows_audit(map, peer, now) {
        return false;
    }
    lottery_wins
}

/// Whether a signature of `source` may be checked now. A peer that is let through is stamped,
/// whatever the check finds.
pub fn sig_verify_rate_limit_ok(
    attempts: &mut NameMap<Instant>,
    source: &PeerId,
    now: Instant,
) -> (allowed: bool)
    ensures
        allowed == !stamped_within(
            old(attempts)@,
            *source,
            now,
            COMMITMENT_SIG_VERIFY_MIN_INTERVAL_SECS,
        ),
        allowed ==> stamped(old(attempts)@, *source, now, final(attempts)@),
        !allowed ==> final(attempts)@ == old(attempts)@,
{
    if let Some(last) = attempts.get(source) {
        if now.saturating_duration_since(*last).nanos
            < COMMITMENT_SIG_VERIFY_MIN_INTERVAL_SECS as u128 * NANOS_PER_SEC {
            return false;
        }
    }
    stamp(attempts, source, now);
    true
}

} // verus!
