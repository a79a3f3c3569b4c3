//! Who has lately proved to hold what.
//!
//! A passed audit credits the peer as a holder of the proved keys, under the commitment that was
//! pinned, for as long as the proof is fresh.

use crate::ant_protocol::XorName;
use crate::hashing::same_bytes32;
use crate::name_map::NameMap;
use crate::replication::types::PeerId;
use crate::time::{Instant, NANOS_PER_SEC};
use vstd::prelude::*;

verus! {

/// How long a proof counts.
pub const PROOF_TTL_SECS: u64 = 2400;

/// How many provers are remembered for one key.
pub const MAX_PROVERS_PER_KEY: usize = 16;

/// That a peer proved to hold a key.
#[derive(Clone, Copy, Debug, PartialEq, Eq)]
pub struct HolderProof {
    /// Who proved it.
    pub peer: PeerId,
    /// The digest of the commitment under which it was proved.
    pub commitment_hash: [u8; 32],
    /// When it was proved.
    pub proved_at: Instant,
}

/// The proofs of holders, by key.
pub struct RecentProvers {
    proofs: NameMap<Vec<HolderProof>>,
}

/// Whether a proof still counts at `now`.
pub open spec fn is_fresh(proved: HolderProof, now: Instant) -> bool {
    now.since(proved.proved_at) <= PROOF_TTL_SECS * NANOS_PER_SEC
}

/// The proofs of other peers than `peer`.
pub open spec fn by_others(peer: PeerId) -> spec_fn(HolderProof) -> bool {
    |proved: HolderProof| proved.peer != peer
}

/// The proofs that still count at `now`.
pub open spec fn still_fresh(now: Instant) -> spec_fn(HolderProof) -> bool {
    |proved: HolderProof| is_fresh(proved, now)
}

/// Whether the proof at `i` is the first of the oldest ones.
pub open spec fn is_oldest(proofs: Seq<HolderProof>, i: int) -> bool {
    &&& 0 <= i < proofs.len()
    &&& forall|k: int|
        0 <= k < proofs.len() ==> proofs[i].proved_at.nanos <= (
        #[trigger] proofs[k]).proved_at.nanos
    &&& forall|k: int|
        0 <= k < i ==> proofs[i].proved_at.nanos < (#[trigger] proofs[k]).proved_at.nanos
}

/// The proofs of a key after a new one: it takes the place of an earlier one by the same peer, and
/// where there are too many, that of the oldest.
pub open spec fn with_proof(proofs: Seq<HolderProof>, proved: HolderProof) -> Seq<HolderProof> {
    let others = proofs.filter(by_others(proved.peer));
    if others.len() < MAX_PROVERS_PER_KEY {
        others.push(proved)
    } else {
        others.remove(choose|i: int| is_oldest(others, i)).push(proved)
    }
}

/// Whether `proofs` credit `peer` as a holder under the commitment with digest `hash` at `now`.
pub open spec fn credits(
    proofs: Seq<HolderProof>,
    peer: PeerId,
    hash: [u8; 32],
    now: Instant,
) -> bool {
    exists|i: int|
        0 <= i < proofs.len() && (#[trigger] proofs[i]).peer == peer && proofs[i].commitment_hash
            == hash && is_fresh(proofs[i], now)
}

/// How many of the listed proofs no longer count at `now`.
pub open spec fn count_expired(listed: Seq<(XorName, Vec<HolderProof>)>, now: Instant) -> int
    decreases listed.len(),
{
    if listed.len() == 0 {
        0
    } else {
        count_expired(listed.drop_last(), now) + (listed.last().1@.len()
            - listed.last().1@.filter(still_fresh(now)).len())
    }
}

/// A fresh proof credits the peer that gave it.
pub proof fn recorded_proof_credits(proofs: Seq<HolderProof>, proved: HolderProof)
    ensures
        credits(
            with_proof(proofs, proved),
            proved.peer,
            proved.commitment_hash,
            proved.proved_at,
        ),
{
    let after = with_proof(proofs, proved);
    assert(after[after.len() - 1] == proved);
}

/// Forgetting a peer takes away all of its credit and none of that of others.
pub proof fn forgetting_revokes_only_own_credit(
    proofs: Seq<HolderProof>,
    forgotten: PeerId,
    peer: PeerId,
    hash: [u8; 32],
    now: Instant,
)
    ensures
        credits(proofs.filter(by_others(forgotten)), peer, hash, now) <==> peer != forgotten
            && credits(proofs, peer, hash, now),
{
    broadcast use vstd::seq_lib::group_filter_ensures;

    let kept = proofs.filter(by_others(forgotten));
    if credits(kept, peer, hash, now) {
        let i = choose|i: int|
            0 <= i < kept.len() && (#[trigger] kept[i]).peer == peer && kept[i].commitment_hash
                == hash && is_fresh(kept[i], now);
        assert(by_others(forgotten)(kept[i]));
        assert(kept.contains(kept[i]));
        proofs.lemma_filter_contains_rev(by_others(forgotten), kept[i]);
        let k = choose|k: int| 0 <= k < proofs.len() && proofs[k] == kept[i];
        assert(proofs[k].peer == peer);
    }
    if peer != forgotten && credits(proofs, peer, hash, now) {
        let k = choose|k: int|
            0 <= k < proofs.len() && (#[trigger] proofs[k]).peer == peer
                && proofs[k].commitment_hash == hash && is_fresh(proofs[k], now);
        assert(by_others(forgotten)(proofs[k]));
        assert(kept.contains(proofs[k]));
        let i = choose|i: int| 0 <= i < kept.len() && kept[i] == proofs[k];
        assert(kept[i].peer == peer);
    }
}

/// A proof counts for forty minutes, for the peer that gave it and under the commitment that it was
/// given for, and for nothing else.
pub proof fn proof_counts_for_forty_minutes(
    proofs: Seq<HolderProof>,
    peer: PeerId,
    hash: [u8; 32],
    now: Instant,
)
    ensures
        credits(proofs, peer, hash, now) <==> exists|i: int|
            0 <= i < proofs.len() && (#[trigger] proofs[i]).peer == peer
                && proofs[i].commitment_hash == hash && now.nanos <= proofs[i].proved_at.nanos
                + 2_400_000_000_000,
{
}

/// A new proof takes the place of every earlier one by the same peer. Those of other peers stay,
/// unless sixteen of them are there: then one goes, and no other is older. Whatever was there, no
/// more are there afterwards than sixteen, if there were not before.
pub proof fn new_proof_replaces_own_and_keeps_others(
    proofs: Seq<HolderProof>,
    proved: HolderProof,
)
    ensures
        ({
            let after = with_proof(proofs, proved);
            let others = proofs.filter(by_others(proved.peer));
            &&& after.last() == proved
            &&& forall|i: int| 0 <= i < after.len() - 1 ==> (#[trigger] after[i]).peer != proved.peer
            &&& forall|i: int| 0 <= i < after.len() - 1 ==> proofs.contains(#[trigger] after[i])
            &&& others.len() < 16 ==> after.len() == others.len() + 1 && forall|k: int|
                0 <= k < proofs.len() && (#[trigger] proofs[k]).peer != proved.peer
                    ==> after.contains(proofs[k])
            &&& others.len() >= 16 ==> after.len() == others.len() && exists|gone: int|
                {
                    &&& 0 <= gone < others.len()
                    &&& forall|k: int|
                        0 <= k < others.len() ==> others[gone].proved_at.nanos <= (
                        #[trigger] others[k]).proved_at.nanos
                    &&& after == #[trigger] others.remove(gone).push(proved)
                }
            &&& proofs.len() <= 16 ==> after.len() <= 16
        }),
{
    broadcast use vstd::seq_lib::group_filter_ensures;

    let keep = by_others(proved.peer);
    let others = proofs.filter(keep);
    let after = with_proof(proofs, proved);
    assert forall|k: int| 0 <= k < others.len() implies (#[trigger] others[k]).peer != proved.peer
        && proofs.contains(others[k]) by {
        proofs.lemma_filter_pred(keep, k);
        assert(others.contains(others[k]));
        proofs.lemma_filter_contains_rev(keep, others[k]);
    }
    if others.len() < MAX_PROVERS_PER_KEY {
        assert forall|k: int| 0 <= k < proofs.len() && (#[trigger] proofs[k]).peer
            != proved.peer implies after.contains(proofs[k]) by {
            proofs.lemma_filter_contains(keep, k);
            let i = choose|i: int| 0 <= i < others.len() && others[i] == proofs[k];
            assert(after[i] == proofs[k]);
        }
    } else {
        oldest_exists(others);
        let gone = choose|i: int| is_oldest(others, i);
        assert(after == others.remove(gone).push(proved));
    }
}

/// Among proofs there is a first one of the oldest.
proof fn oldest_exists(proofs: Seq<HolderProof>)
    requires
        proofs.len() > 0,
    ensures
        exists|i: int| is_oldest(proofs, i),
    decreases proofs.len(),
{
    if proofs.len() == 1 {
        assert(is_oldest(proofs, 0));
    } else {
        let rest = proofs.drop_last();
        oldest_exists(rest);
        let i = choose|i: int| is_oldest(rest, i);
        let last = proofs.len() - 1;
        assert(forall|k: int| 0 <= k < last ==> rest[k] == #[trigger] proofs[k]);
        assert(rest[i] == proofs[i]);
        if proofs[last].proved_at.nanos < proofs[i].proved_at.nanos {
            assert(is_oldest(proofs, last));
        } else {
            assert(is_oldest(proofs, i));
        }
    }
}

/// Sweeping takes away nobody's credit, now or later: only proofs go that count no longer.
pub proof fn sweeping_takes_no_credit(
    proofs: Seq<HolderProof>,
    peer: PeerId,
    hash: [u8; 32],
    now: Instant,
    later: Instant,
)
    requires
        now.nanos <= later.nanos,
    ensures
        credits(proofs.filter(still_fresh(now)), peer, hash, later) <==> credits(
            proofs,
            peer,
            hash,
            later,
        ),
        forall|i: int|
            0 <= i < proofs.filter(still_fresh(now)).len() ==> now.nanos <= (
            #[trigger] proofs.filter(still_fresh(now))[i]).proved_at.nanos + 2_400_000_000_000,
{
    broadcast use vstd::seq_lib::group_filter_ensures;

    let keep = still_fresh(now);
    let kept = proofs.filter(keep);
    if credits(kept, peer, hash, later) {
        let i = choose|i: int|
            0 <= i < kept.len() && (#[trigger] kept[i]).peer == peer && kept[i].commitment_hash
                == hash && is_fresh(kept[i], later);
        assert(kept.contains(kept[i]));
        proofs.lemma_filter_contains_rev(keep, kept[i]);
        let k = choose|k: int| 0 <= k < proofs.len() && proofs[k] == kept[i];
        assert(proofs[k].peer == peer);
    }
    if credits(proofs, peer, hash, later) {
        let k = choose|k: int|
            0 <= k < proofs.len() && (#[trigger] proofs[k]).peer == peer
                && proofs[k].commitment_hash == hash && is_fresh(proofs[k], later);
        assert(keep(proofs[k]));
        proofs.lemma_filter_contains(keep, k);
        let i = choose|i: int| 0 <= i < kept.len() && kept[i] == proofs[k];
        assert(kept[i].peer == peer);
    }
    assert forall|i: int| 0 <= i < kept.len() implies now.nanos <= (
    #[trigger] kept[i]).proved_at.nanos + 2_400_000_000_000 by {
        proofs.lemma_filter_pred(keep, i);
    }
}

/// The proofs of a list that no longer count are counted one by one: those of one more key add as
/// many as are older than forty minutes.
pub proof fn expired_proofs_are_counted(
    listed: Seq<(XorName, Vec<HolderProof>)>,
    more: (XorName, Vec<HolderProof>),
    now: Instant,
)
    ensures
        count_expired(Seq::empty(), now) == 0,
        count_expired(listed.push(more), now) == count_expired(listed, now) + more.1@.filter(
            |proved: HolderProof| now.nanos > proved.proved_at.nanos + 2_400_000_000_000,
        ).len(),
{
    assert(listed.push(more).drop_last() =~= listed);
    expired_are_the_rest(
        more.1@,
        now,
        |proved: HolderProof| now.nanos > proved.proved_at.nanos + 2_400_000_000_000,
    );
}

/// What is not fresh has expired.
proof fn expired_are_the_rest(
    proofs: Seq<HolderProof>,
    now: Instant,
    expired: spec_fn(HolderProof) -> bool,
)
    requires
        forall|proved: HolderProof| #[trigger]
            expired(proved) == (now.nanos > proved.proved_at.nanos + 2_400_000_000_000),
    ensures
        proofs.filter(still_fresh(now)).len() + proofs.filter(expired).len() == proofs.len(),
    decreases proofs.len(),
{
    reveal(Seq::filter);
    if proofs.len() > 0 {
        expired_are_the_rest(proofs.drop_last(), now, expired);
        assert(expired(proofs.last()) == !still_fresh(now)(proofs.last()));
    }
}

/// Filtering up to and with one more item.
proof fn filter_step(
    items: Seq<HolderProof>,
    keep: spec_fn(HolderProof) -> bool,
    i: int,
)
    requires
        0 <= i < items.len(),
    ensures
        items.take(i + 1).filter(keep) == if keep(items[i]) {
            items.take(i).filter(keep).push(items[i])
        } else {
            items.take(i).filter(keep)
        },
{
    reveal(Seq::filter);
    assert(items.take(i + 1).drop_last() =~= items.take(i));
}

/// The proofs of other peers.
fn drop_peer(proofs: &Vec<HolderProof>, peer: &PeerId) -> (kept: Vec<HolderProof>)
    ensures
        kept@ == proofs@.filter(by_others(*peer)),
{
    let ghost keep = by_others(*peer);
    let mut kept: Vec<HolderProof> = Vec::new();
    let mut i: usize = 0;
    proof {
        reveal(Seq::filter);
        assert(proofs@.take(0).filter(keep) =~= Seq::empty());
    }
    while i < proofs.len()
        invariant
            i <= proofs.len(),
            keep == by_others(*peer),
            kept@ == proofs@.take(i as int).filter(keep),
        decreases proofs.len() - i,
    {
        proof {
            filter_step(proofs@, keep, i as int);
        }
        if !same_bytes32(&proofs[i].peer, peer) {
            kept.push(proofs[i]);
        }
        i += 1;
    }
    assert(proofs@.take(i as int) =~= proofs@);
    kept
}

/// Whether a proof still counts.
fn check_fresh(proved: &HolderProof, now: Instant) -> (fresh: bool)
    ensures
        fresh == is_fresh(*proved, now),
{
    now.saturating_duration_since(proved.proved_at).nanos <= PROOF_TTL_SECS as u128 * NANOS_PER_SEC
}

/// The proofs that still count.
fn drop_expired(proofs: &Vec<HolderProof>, now: Instant) -> (kept: Vec<HolderProof>)
    ensures
        kept@ == proofs@.filter(still_fresh(now)),
{
    let ghost keep = still_fresh(now);
    let mut kept: Vec<HolderProof> = Vec::new();
    let mut i: usize = 0;
    proof {
        reveal(Seq::filter);
        assert(proofs@.take(0).filter(keep) =~= Seq::empty());
    }
    while i < proofs.len()
        invariant
            i <= proofs.len(),
            keep == still_fresh(now),
            kept@ == proofs@.take(i as int).filter(keep),
        decreases proofs.len() - i,
    {
        proof {
            filter_step(proofs@, keep, i as int);
        }
        if check_fresh(&proofs[i], now) {
            kept.push(proofs[i]);
        }
        i += 1;
    }
    assert(proofs@.take(i as int) =~= proofs@);
    kept
}

/// The first of the oldest proofs.
fn find_oldest(proofs: &Vec<HolderProof>) -> (place: usize)
    requires
        proofs.len() > 0,
    ensures
        is_oldest(proofs@, place as int),
        place == choose|i: int| is_oldest(proofs@, i),
{
    let mut place: usize = 0;
    let mut i: usize = 1;
    while i < proofs.len()
        invariant
            place < i <= proofs.len(),
            forall|k: int|
                0 <= k < i ==> proofs@[place as int].proved_at.nanos <= (
                #[trigger] proofs@[k]).proved_at.nanos,
            forall|k: int|
                0 <= k < place ==> proofs@[place as int].proved_at.nanos < (
                #[trigger] proofs@[k]).proved_at.nanos,
        decreases proofs.len() - i,
    {
        if proofs[i].proved_at.nanos < proofs[place].proved_at.nanos {
            place = i;
        }
        i += 1;
    }
    proof {
        assert(is_oldest(proofs@, place as int));
        let other = choose|i: int| is_oldest(proofs@, i);
        assert(is_oldest(proofs@, other));
        if other < place {
            assert(proofs@[place as int].proved_at.nanos < proofs@[other].proved_at.nanos);
        } else if place < other {
            assert(proofs@[other].proved_at.nanos < proofs@[place as int].proved_at.nanos);
        }
    }
    place
}

impl RecentProvers {
    /// The proofs of a key.
    pub closed spec fn proofs_of(&self, key: XorName) -> Seq<HolderProof> {
        if self.proofs@.contains_key(key) {
            self.proofs@[key]@
        } else {
            Seq::empty()
        }
    }

    /// The proofs, listed by key.
    pub closed spec fn listed(&self) -> Seq<(XorName, Vec<HolderProof>)> {
        self.proofs.listed()
    }

    /// No proofs.
    pub fn new() -> (provers: Self)
        ensures
            forall|key: XorName| #[trigger]
                provers.proofs_of(key) == Seq::<HolderProof>::empty(),
    {
        RecentProvers { proofs: NameMap::new() }
    }

    /// Record that `peer` proved at `now` to hold `key`, under the commitment with this digest.
    pub fn record_proof(
        &mut self,
        key: XorName,
        peer: PeerId,
        commitment_hash: [u8; 32],
        now: Instant,
    )
        ensures
            forall|other: XorName| #[trigger]
                final(self).proofs_of(other) == if other == key {
                    with_proof(
                        old(self).proofs_of(key),
                        HolderProof { peer, commitment_hash, proved_at: now },
                    )
                } else {
                    old(self).proofs_of(other)
                },
    {
        let mut kept: Vec<HolderProof> = match self.proofs.get(&key) {
            Some(proofs) => drop_peer(proofs, &peer),
            None => {
                proof {
                    reveal(Seq::filter);
                    assert(Seq::<HolderProof>::empty().filter(by_others(peer)) =~= Seq::empty());
                }
                Vec::new()
            },
        };
        if kept.len() >= MAX_PROVERS_PER_KEY {
            let place: usize = find_oldest(&kept);
            kept.remove(place);
        }
        kept.push(HolderProof { peer, commitment_hash, proved_at: now });
        self.proofs.insert(key, kept);
    }

    /// Whether `peer` is credited at `now` as a holder of `key` under the commitment with this
    /// digest.
    pub fn is_credited_holder(
        &self,
        key: &XorName,
        peer: &PeerId,
        commitment_hash: &[u8; 32],
        now: Instant,
    ) -> (credited: bool)
        ensures
            credited == credits(self.proofs_of(*key), *peer, *commitment_hash, now),
    {
        let proofs = match self.proofs.get(key) {
            Some(proofs) => proofs,
            None => return false,
        };
        let mut i: usize = 0;
        while i < proofs.len()
            invariant
                i <= proofs.len(),
                proofs@ == self.proofs_of(*key),
                forall|k: int|
                    0 <= k < i ==> !((#[trigger] proofs@[k]).peer == *peer
                        && proofs@[k].commitment_hash == *commitment_hash && is_fresh(
                        proofs@[k],
                        now,
                    )),
            decreases proofs.len() - i,
        {
            if same_bytes32(&proofs[i].peer, peer) && same_bytes32(
                &proofs[i].commitment_hash,
                commitment_hash,
            ) && check_fresh(&proofs[i], now) {
                assert(self.proofs_of(*key)[i as int].peer == *peer);
                return true;
            }
            i += 1;
        }
        false
    }

    /// Take away every credit of `peer`.
    pub fn forget_peer(&mut self, peer: &PeerId)
        ensures
            forall|key: XorName| #[trigger]
                final(self).proofs_of(key) == old(self).proofs_of(key).filter(by_others(*peer)),
    {
        let mut rebuilt: NameMap<Vec<HolderProof>> = NameMap::new();
        let len: usize = self.proofs.len();
        let mut i: usize = 0;
        while i < len
            invariant
                i <= len,
                *self == *old(self),
                len == self.proofs.listed().len(),
                crate::names::strictly_ascending(self.proofs.listed()),
                self.proofs@ == crate::name_map::entries_map(self.proofs.listed()),
                forall|key: XorName| #[trigger]
                    rebuilt@.contains_key(key) ==> listed_before(self.proofs.listed(), key, i as int)
                        && rebuilt@[key]@ == self.proofs_of(key).filter(by_others(*peer)),
                forall|key: XorName| #[trigger]
                    listed_before(self.proofs.listed(), key, i as int) && !rebuilt@.contains_key(
                        key,
                    ) ==> self.proofs_of(key).filter(by_others(*peer)) == Seq::<
                        HolderProof,
                    >::empty(),
            decreases len - i,
        {
            let entry = self.proofs.at(i);
            let kept = drop_peer(&entry.1, peer);
            proof {
                listed_once(self.proofs.listed(), i as int);
            }
            if kept.len() > 0 {
                rebuilt.insert(entry.0, kept);
            }
            i += 1;
        }
        proof {
            reveal(Seq::filter);
            assert(Seq::<HolderProof>::empty().filter(by_others(*peer)) =~= Seq::empty());
            assert forall|key: XorName| self.proofs@.contains_key(key) implies listed_before(
                self.proofs.listed(),
                key,
                len as int,
            ) by {
                let k = crate::name_map::place_of(self.proofs.listed(), key);
                assert(self.proofs.listed()[k].0 == key);
            }
        }
        self.proofs = rebuilt;
    }

    /// Drop every proof that no longer counts at `now`, and say how many those were.
    pub fn sweep_expired(&mut self, now: Instant) -> (dropped: usize)
        ensures
            forall|key: XorName| #[trigger]
                final(self).proofs_of(key) == old(self).proofs_of(key).filter(still_fresh(now)),
            dropped == if count_expired(old(self).listed(), now) <= usize::MAX {
                count_expired(old(self).listed(), now)
            } else {
                usize::MAX as int
            },
    {
        let mut rebuilt: NameMap<Vec<HolderProof>> = NameMap::new();
        let mut dropped: usize = 0;
        let len: usize = self.proofs.len();
        let mut i: usize = 0;
        while i < len
            invariant
                i <= len,
                *self == *old(self),
                dropped == if count_expired(self.listed().take(i as int), now) <= usize::MAX {
                    count_expired(self.listed().take(i as int), now)
                } else {
                    usize::MAX as int
                },
                len == self.proofs.listed().len(),
                crate::names::strictly_ascending(self.proofs.listed()),
                self.proofs@ == crate::name_map::entries_map(self.proofs.listed()),
                forall|key: XorName| #[trigger]
                    rebuilt@.contains_key(key) ==> listed_before(self.proofs.listed(), key, i as int)
                        && rebuilt@[key]@ == self.proofs_of(key).filter(still_fresh(now)),
                forall|key: XorName| #[trigger]
                    listed_before(self.proofs.listed(), key, i as int) && !rebuilt@.contains_key(
                        key,
                    ) ==> self.proofs_of(key).filter(still_fresh(now)) == Seq::<
                        HolderProof,
                    >::empty(),
            decreases len - i,
        {
            let entry = self.proofs.at(i);
            let kept = drop_expired(&entry.1, now);
            proof {
                broadcast use vstd::seq_lib::group_filter_ensures;

                listed_once(self.proofs.listed(), i as int);
                let upto = self.listed().take(i + 1);
                assert(upto.drop_last() =~= self.listed().take(i as int));
                assert(kept.len() <= entry.1.len());
            }
            dropped = dropped.saturating_add(entry.1.len() - kept.len());
            if kept.len() > 0 {
                rebuilt.insert(entry.0, kept);
            }
            i += 1;
        }
        assert(self.listed().take(i as int) =~= self.listed());
        proof {
            reveal(Seq::filter);
            assert(Seq::<HolderProof>::empty().filter(still_fresh(now)) =~= Seq::empty());
            assert forall|key: XorName| self.proofs@.contains_key(key) implies listed_before(
                self.proofs.listed(),
                key,
                len as int,
            ) by {
                let k = crate::name_map::place_of(self.proofs.listed(), key);
                assert(self.proofs.listed()[k].0 == key);
            }
        }
        self.proofs = rebuilt;
        dropped
    }
}

/// Whether `key` is the name of one of the first `n` entries.
spec fn listed_before(listed: Seq<(XorName, Vec<HolderProof>)>, key: XorName, n: int) -> bool {
    exists|k: int| 0 <= k < n && (#[trigger] listed[k]).0 == key
}

/// The entry at `i` is listed at that place only.
proof fn listed_once(listed: Seq<(XorName, Vec<HolderProof>)>, i: int)
    requires
        crate::names::strictly_ascending(listed),
        0 <= i < listed.len(),
    ensures
        !listed_before(listed, listed[i].0, i),
        listed_before(listed, listed[i].0, i + 1),
        forall|key: XorName| #[trigger]
            listed_before(listed, key, i + 1) <==> listed_before(listed, key, i) || key
                == listed[i].0,
{
    if listed_before(listed, listed[i].0, i) {
        let k = choose|k: int| 0 <= k < i && (#[trigger] listed[k]).0 == listed[i].0;
        assert(crate::names::name_before(listed[k].0, listed[i].0));
        crate::names::name_order_is_strict(listed[i].0, listed[i].0);
    }
    assert(listed[i].0 == listed[i].0);
    assert forall|key: XorName| #[trigger] listed_before(listed, key, i + 1) <==> listed_before(
        listed,
        key,
        i,
    ) || key == listed[i].0 by {
        if listed_before(listed, key, i + 1) {
            let k = choose|k: int| 0 <= k < i + 1 && (#[trigger] listed[k]).0 == key;
            if k < i {
                assert(listed[k].0 == key);
            }
        }
        if listed_before(listed, key, i) {
            let k = choose|k: int| 0 <= k < i && (#[trigger] listed[k]).0 == key;
            assert(listed[k].0 == key);
        }
    }
}

} // verus!
