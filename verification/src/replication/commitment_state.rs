//! What a node is answerable for: its current commitment and those it published lately.
//!
//! An auditor pins a commitment that it received. A node therefore stays answerable for the last
//! two commitments that it put on the wire, and for its current one. Rebuilding the tree without
//! publishing it does not take anything published out of reach.

use crate::ant_protocol::XorName;
use crate::hashing::same_bytes32;
use crate::ml_dsa;
use crate::replication::commitment;
use crate::replication::commitment::{
    commitment_hash, sign_commitment, CommitmentError, CommitmentView, MerkleTree,
    StorageCommitment,
};
use crate::time::Instant;
use std::sync::Arc;
use vstd::prelude::*;

verus! {

/// What an auditor remembers of a peer's commitments.
#[derive(Debug)]
pub struct PeerCommitmentRecord {
    /// The last verified commitment; nothing where it was evicted.
    pub last_commitment: Option<StorageCommitment>,
    /// Whether the peer has ever published a valid commitment.
    pub commitment_capable: bool,
    /// When the last commitment was received.
    pub received_at: Instant,
    /// When a signature of the peer was last checked.
    pub last_sig_verify_at: Instant,
}

impl PeerCommitmentRecord {
    /// The record of a peer whose commitment was verified just now.
    pub fn from_verified(commitment: StorageCommitment, now: Instant) -> (record: Self)
        ensures
            record.last_commitment == Some(commitment),
            record.commitment_capable,
            record.received_at == now,
            record.last_sig_verify_at == now,
    {
        PeerCommitmentRecord {
            last_commitment: Some(commitment),
            commitment_capable: true,
            received_at: now,
            last_sig_verify_at: now,
        }
    }

    /// The record of a peer that has published a commitment before, of which none is kept.
    pub fn capable_but_no_commitment(now: Instant) -> (record: Self)
        ensures
            record.last_commitment is None,
            record.commitment_capable,
            record.received_at == now,
            record.last_sig_verify_at == now,
    {
        PeerCommitmentRecord {
            last_commitment: None,
            commitment_capable: true,
            received_at: now,
            last_sig_verify_at: now,
        }
    }
}

/// A signed commitment with the tree behind it.
pub struct BuiltCommitment {
    commitment: StorageCommitment,
    cached_hash: [u8; 32],
    tree: MerkleTree,
}

impl BuiltCommitment {
    /// The entries that the commitment covers, in the order of the tree.
    pub closed spec fn entries(self) -> Seq<(XorName, [u8; 32])> {
        self.tree@
    }

    /// The digest by which the commitment is pinned.
    pub closed spec fn digest(self) -> [u8; 32] {
        self.cached_hash
    }

    /// What the commitment says.
    pub closed spec fn says(self) -> CommitmentView {
        self.commitment@
    }

    /// The commitment is that of the tree, and the cached digest is its own.
    #[verifier::type_invariant]
    spec fn well_formed(self) -> bool {
        self.consistent()
    }

    /// Whether the commitment is that of its entries, pinned by its own digest.
    pub open spec fn consistent(self) -> bool {
        &&& commitment::committable(self.entries())
        &&& self.says().root == commitment::tree_root(self.entries())
        &&& self.says().key_count == self.entries().len()
        &&& self.digest() == commitment::commitment_digest(self.says())
    }

    /// Commit to `entries`, each a key and the digest of its bytes, in any order, and sign. The
    /// signature is valid where the two keys belong together.
    pub fn build(
        entries: Vec<(XorName, [u8; 32])>,
        sender_peer_id: &[u8; 32],
        secret_key: &[u8],
        sender_public_key: &[u8],
    ) -> (built: Result<Self, CommitmentError>)
        ensures
            built is Ok ==> 0 < entries.len() <= commitment::MAX_COMMITMENT_KEY_COUNT
                && crate::names::names_distinct(entries@) && secret_key.len() == 4032,
            built matches Ok(b) ==> {
                &&& b.consistent()
                &&& b.entries().to_multiset() == entries@.to_multiset()
                &&& b.says().sender_peer_id == *sender_peer_id
                &&& b.says().sender_public_key == sender_public_key@
                &&& commitment::signed_with(b.says(), secret_key@)
                &&& ml_dsa::is_key_pair(sender_public_key@, secret_key@)
                    ==> commitment::signed_by_own_key(b.says())
            },
            built matches Err(e) ==> match e {
                CommitmentError::EmptyKeySet => entries.len() == 0,
                CommitmentError::TooManyKeys { count } => count == entries.len() && count
                    > commitment::MAX_COMMITMENT_KEY_COUNT,
                CommitmentError::DuplicateKey { key } => 0 < entries.len()
                    <= commitment::MAX_COMMITMENT_KEY_COUNT && exists|i: int, j: int|
                    0 <= i < j < entries.len() && #[trigger] entries@[i].0 == key
                        && #[trigger] entries@[j].0 == key,
                CommitmentError::SignatureFailed(_) => 0 < entries.len()
                    <= commitment::MAX_COMMITMENT_KEY_COUNT && crate::names::names_distinct(
                    entries@,
                ),
            },
    {
        let tree = match MerkleTree::build(entries) {
            Ok(tree) => tree,
            Err(e) => return Err(e),
        };
        let root = tree.root();
        let key_count: u32 = tree.key_count();
        let signature = match sign_commitment(
            secret_key,
            &root,
            key_count,
            sender_peer_id,
            sender_public_key,
        ) {
            Ok(signature) => signature,
            Err(e) => return Err(e),
        };
        Self::from_signature(tree, sender_peer_id, sender_public_key, signature)
    }

    /// Put a commitment together from its tree and a signature that was made for it.
    pub fn from_signature(
        tree: MerkleTree,
        sender_peer_id: &[u8; 32],
        sender_public_key: &[u8],
        signature: Vec<u8>,
    ) -> (built: Result<Self, CommitmentError>)
        ensures
            built is Ok,
            built->Ok_0.consistent(),
            built->Ok_0.entries() == tree@,
            built->Ok_0.says() == (CommitmentView {
                root: commitment::tree_root(tree@),
                key_count: tree@.len() as u32,
                sender_peer_id: *sender_peer_id,
                sender_public_key: sender_public_key@,
                signature: signature@,
            }),
    {
        let commitment = StorageCommitment {
            root: tree.root(),
            key_count: tree.key_count(),
            sender_peer_id: *sender_peer_id,
            sender_public_key: vstd::slice::slice_to_vec(sender_public_key),
            signature,
        };
        match commitment_hash(&commitment) {
            Some(cached_hash) => Ok(BuiltCommitment { commitment, cached_hash, tree }),
            None => Err(
                CommitmentError::SignatureFailed("commitment serialization failed".to_owned()),
            ),
        }
    }

    /// The commitment itself.
    pub fn commitment(&self) -> (commitment: &StorageCommitment)
        ensures
            commitment@ == self.says(),
            self.consistent(),
    {
        proof {
            use_type_invariant(self);
        }
        &self.commitment
    }

    /// The digest by which the commitment is pinned.
    pub fn hash(&self) -> (hash: [u8; 32])
        ensures
            hash == self.digest(),
            self.consistent(),
    {
        proof {
            use_type_invariant(self);
        }
        self.cached_hash
    }

    /// The tree behind the commitment.
    pub fn tree(&self) -> (tree: &MerkleTree)
        ensures
            tree@ == self.entries(),
            self.consistent(),
    {
        proof {
            use_type_invariant(self);
        }
        &self.tree
    }

    /// The inclusion path and the leaf index of `key`; nothing where it is not committed to.
    pub fn proof_for(&self, key: &XorName) -> (found: Option<(Vec<[u8; 32]>, u32)>)
        ensures
            match found {
                Some((path, leaf_index)) => {
                    &&& leaf_index < self.entries().len()
                    &&& self.entries()[leaf_index as int].0 == *key
                    &&& path@ == commitment::tree_path(self.entries(), leaf_index as int)
                },
                None => forall|i: int|
                    0 <= i < self.entries().len() ==> (#[trigger] self.entries()[i].0) != *key,
            },
    {
        proof {
            use_type_invariant(self);
        }
        match self.tree.index_of(key) {
            Some(index) => Some((self.tree.path_at(index), index as u32)),
            None => None,
        }
    }
}

/// How many published commitments a node stays answerable for.
pub const RETAINED_GOSSIPED_COMMITMENTS: usize = 2;

/// The commitments that a node can answer for, newest first, and the digests of those that it
/// published last, newest first.
pub struct ResponderCommitmentState {
    slots: Vec<Arc<BuiltCommitment>>,
    recently_gossiped: Vec<[u8; 32]>,
}

/// What a node can answer for.
pub struct RetentionView {
    /// The commitments, newest first. The first one is the current one.
    pub slots: Seq<BuiltCommitment>,
    /// The digests of the commitments published last, newest first.
    pub gossiped: Seq<[u8; 32]>,
}

impl View for ResponderCommitmentState {
    type V = RetentionView;

    closed spec fn view(&self) -> RetentionView {
        RetentionView {
            slots: slot_values(self.slots@),
            gossiped: self.recently_gossiped@,
        }
    }
}

impl RetentionView {
    /// Whether a commitment pinned by `hash` can be answered for.
    pub open spec fn answerable(self, hash: [u8; 32]) -> bool {
        exists|i: int| 0 <= i < self.slots.len() && (#[trigger] self.slots[i]).digest() == hash
    }

    /// Nothing is kept but the current commitment and those published last, of which there are no
    /// more than the retained number.
    pub open spec fn pruned(self) -> bool {
        &&& self.gossiped.len() <= RETAINED_GOSSIPED_COMMITMENTS
        &&& self.gossiped.no_duplicates()
        &&& forall|i: int|
            0 < i < self.slots.len() ==> self.gossiped.contains(
                (#[trigger] self.slots[i]).digest(),
            )
    }
}

/// What is kept of `slots`: the first one, and in their order those whose digest was published
/// lately.
pub open spec fn retained(slots: Seq<BuiltCommitment>, gossiped: Seq<[u8; 32]>) -> Seq<
    BuiltCommitment,
> {
    if slots.len() == 0 {
        slots
    } else {
        seq![slots[0]] + slots.skip(1).filter(
            |slot: BuiltCommitment| gossiped.contains(slot.digest()),
        )
    }
}

/// Every digest but `hash`.
pub open spec fn other_than(hash: [u8; 32]) -> spec_fn([u8; 32]) -> bool {
    |other: [u8; 32]| other != hash
}

/// The digests published last, after `hash` was published once more.
pub open spec fn gossiped_after(gossiped: Seq<[u8; 32]>, hash: [u8; 32]) -> Seq<[u8; 32]> {
    let moved = seq![hash] + gossiped.filter(other_than(hash));
    if moved.len() <= RETAINED_GOSSIPED_COMMITMENTS {
        moved
    } else {
        moved.take(RETAINED_GOSSIPED_COMMITMENTS as int)
    }
}

/// What a node can answer for after a rebuild.
pub open spec fn after_rotation(before: RetentionView, current: BuiltCommitment) -> RetentionView {
    RetentionView {
        slots: retained(seq![current] + before.slots, before.gossiped),
        gossiped: before.gossiped,
    }
}

/// What a node can answer for after it published the commitment with digest `hash`.
pub open spec fn after_gossip(before: RetentionView, hash: [u8; 32]) -> RetentionView {
    let gossiped = gossiped_after(before.gossiped, hash);
    RetentionView { slots: retained(before.slots, gossiped), gossiped }
}

/// What is kept of the slots is the current one and every one that was published lately, and
/// nothing else.
pub proof fn retention_is_exact(slots: Seq<BuiltCommitment>, gossiped: Seq<[u8; 32]>, i: int)
    requires
        0 <= i < slots.len(),
    ensures
        retained(slots, gossiped).len() > 0,
        retained(slots, gossiped)[0] == slots[0],
        gossiped.contains(slots[i].digest()) ==> retained(slots, gossiped).contains(slots[i]),
        forall|k: int|
            0 < k < retained(slots, gossiped).len() ==> gossiped.contains(
                (#[trigger] retained(slots, gossiped)[k]).digest(),
            ) && slots.contains(retained(slots, gossiped)[k]),
{
    let keep = |slot: BuiltCommitment| gossiped.contains(slot.digest());
    let rest = slots.skip(1);
    broadcast use vstd::seq_lib::group_filter_ensures;

    let kept = retained(slots, gossiped);
    if i > 0 && keep(slots[i]) {
        assert(rest[i - 1] == slots[i]);
        assert(rest.filter(keep).contains(slots[i]));
        let k = choose|k: int| 0 <= k < rest.filter(keep).len() && rest.filter(keep)[k] == slots[i];
        assert(kept[k + 1] == slots[i]);
    } else if i == 0 {
        assert(kept[0] == slots[0]);
    }
    assert forall|k: int| 0 < k < kept.len() implies gossiped.contains(
        (#[trigger] kept[k]).digest(),
    ) && slots.contains(kept[k]) by {
        assert(kept[k] == rest.filter(keep)[k - 1]);
        assert(rest.filter(keep).contains(kept[k]));
        rest.lemma_filter_contains_rev(keep, kept[k]);
        let j = choose|j: int| 0 <= j < rest.len() && rest[j] == kept[k];
        assert(slots[j + 1] == kept[k]);
    }
}

/// Where every item is to be kept, all of them are.
proof fn filter_keeps_all<T>(items: Seq<T>, keep: spec_fn(T) -> bool)
    requires
        forall|i: int| 0 <= i < items.len() ==> keep(#[trigger] items[i]),
    ensures
        items.filter(keep) == items,
    decreases items.len(),
{
    reveal(Seq::filter);
    if items.len() > 0 {
        let rest = items.drop_last();
        assert forall|i: int| 0 <= i < rest.len() implies keep(#[trigger] rest[i]) by {
            assert(rest[i] == items[i]);
        }
        filter_keeps_all(rest, keep);
        assert(keep(items[items.len() - 1]));
        assert(items =~= rest.push(items.last()));
    } else {
        assert(items.filter(keep) =~= items);
    }
}

/// What was pruned once is not changed by being pruned again.
pub proof fn pruning_again_changes_nothing(slots: Seq<BuiltCommitment>, gossiped: Seq<[u8; 32]>)
    ensures
        retained(retained(slots, gossiped), gossiped) == retained(slots, gossiped),
{
    let once = retained(slots, gossiped);
    if slots.len() > 0 {
        let keep = |slot: BuiltCommitment| gossiped.contains(slot.digest());
        retention_is_exact(slots, gossiped, 0);
        let rest = once.skip(1);
        assert forall|i: int| 0 <= i < rest.len() implies keep(#[trigger] rest[i]) by {
            assert(rest[i] == once[i + 1]);
        }
        filter_keeps_all(rest, keep);
        assert(seq![once[0]] + rest =~= once);
    }
}

/// A rebuild makes the new commitment the current one, keeps every published commitment in reach,
/// and lets go of what was never published.
pub proof fn rotation_keeps_published(before: RetentionView, current: BuiltCommitment)
    requires
        before.pruned(),
    ensures
        after_rotation(before, current).pruned(),
        after_rotation(before, current).slots[0] == current,
        after_rotation(before, current).answerable(current.digest()),
        forall|hash: [u8; 32]|
            #![trigger before.answerable(hash)]
            before.gossiped.contains(hash) && before.answerable(hash) ==> after_rotation(
                before,
                current,
            ).answerable(hash),
        forall|hash: [u8; 32]|
            #![trigger after_rotation(before, current).answerable(hash)]
            after_rotation(before, current).answerable(hash) ==> hash == current.digest()
                || before.gossiped.contains(hash) && before.answerable(hash),
{
    let all = seq![current] + before.slots;
    let after = after_rotation(before, current);
    retention_is_exact(all, before.gossiped, 0);
    assert(after.slots[0].digest() == current.digest());
    assert forall|hash: [u8; 32]| #![trigger before.answerable(hash)]
        before.gossiped.contains(hash) && before.answerable(hash) implies after.answerable(
        hash,
    ) by {
        let i = choose|i: int|
            0 <= i < before.slots.len() && (#[trigger] before.slots[i]).digest() == hash;
        assert(all[i + 1] == before.slots[i]);
        retention_is_exact(all, before.gossiped, i + 1);
        assert(after.slots.contains(all[i + 1]));
        let k = choose|k: int| 0 <= k < after.slots.len() && after.slots[k] == all[i + 1];
        assert(after.slots[k].digest() == hash);
    }
    assert forall|hash: [u8; 32]| #![trigger after.answerable(hash)] after.answerable(
        hash,
    ) implies hash == current.digest() || before.gossiped.contains(hash) && before.answerable(
        hash,
    ) by {
        let k = choose|k: int|
            0 <= k < after.slots.len() && (#[trigger] after.slots[k]).digest() == hash;
        if k > 0 {
            assert(all.contains(after.slots[k]));
            let j = choose|j: int| 0 <= j < all.len() && all[j] == after.slots[k];
            if j > 0 {
                assert(before.slots[j - 1].digest() == hash);
            }
        }
    }
}

/// A rebuild publishes nothing: which commitments were published last stays as it is. What was kept
/// keeps its order, behind the new one.
pub proof fn rotation_publishes_nothing(before: RetentionView, current: BuiltCommitment)
    ensures
        after_rotation(before, current).gossiped == before.gossiped,
        after_rotation(before, current).slots.len() >= 1,
        after_rotation(before, current).slots[0] == current,
        after_rotation(before, current).slots.skip(1) == before.slots.filter(
            |slot: BuiltCommitment| before.gossiped.contains(slot.digest()),
        ),
{
    let all = seq![current] + before.slots;
    assert(all.skip(1) =~= before.slots);
    assert(after_rotation(before, current).slots.skip(1) =~= before.slots.filter(
        |slot: BuiltCommitment| before.gossiped.contains(slot.digest()),
    ));
}

/// A node can answer for a commitment just where it keeps one with that digest.
pub proof fn answerable_is_kept(state: RetentionView, hash: [u8; 32], i: int)
    ensures
        0 <= i < state.slots.len() ==> state.answerable(state.slots[i].digest()),
        state.answerable(hash) ==> exists|k: int|
            0 <= k < state.slots.len() && (#[trigger] state.slots[k]).digest() == hash,
{
}

/// A commitment is that of its entries: they ascend by key, it counts them, its root is that of the
/// tree over them, and it is pinned by the digest of its encoding.
pub proof fn built_commitment_is_of_its_entries(built: BuiltCommitment, i: int, j: int)
    requires
        built.consistent(),
        0 <= i < j < built.entries().len(),
    ensures
        crate::names::name_before(built.entries()[i].0, built.entries()[j].0),
        built.says().key_count == built.entries().len(),
        built.entries().len() <= 1_000_000,
        built.says().root == commitment::tree_root(built.entries()),
        built.digest() == crate::hashing::blake3_digest(commitment::wire_bytes(built.says())),
{
    assert(crate::names::name_before(built.entries()[i].0, built.entries()[j].0));
}

/// Publishing a commitment puts it first among those published, moves the one published before it
/// to the second place, and forgets older ones.
pub proof fn gossip_window(gossiped: Seq<[u8; 32]>, hash: [u8; 32])
    requires
        gossiped.len() <= RETAINED_GOSSIPED_COMMITMENTS,
        gossiped.no_duplicates(),
    ensures
        gossiped_after(gossiped, hash).len() <= RETAINED_GOSSIPED_COMMITMENTS,
        gossiped_after(gossiped, hash).no_duplicates(),
        gossiped_after(gossiped, hash)[0] == hash,
        gossiped.len() > 0 && gossiped[0] != hash ==> gossiped_after(gossiped, hash) == seq![
            hash,
            gossiped[0],
        ],
        gossiped.len() == 2 && gossiped[0] == hash ==> gossiped_after(gossiped, hash) == gossiped,
        gossiped.len() == 0 || gossiped == seq![hash] ==> gossiped_after(gossiped, hash) == seq![
            hash,
        ],
{
    let other = other_than(hash);
    reveal_with_fuel(Seq::filter, 3);
    let rest = gossiped.filter(other);
    if gossiped.len() == 0 {
        assert(rest =~= Seq::empty());
    } else if gossiped.len() == 1 {
        assert(gossiped.drop_last() =~= Seq::empty());
    } else {
        assert(gossiped.drop_last() =~= seq![gossiped[0]]);
        assert(gossiped.drop_last().drop_last() =~= Seq::empty());
        assert(gossiped[0] != gossiped[1]);
    }
    assert(gossiped_after(gossiped, hash) =~= (if gossiped.len() == 0 || gossiped == seq![hash] {
        seq![hash]
    } else if gossiped[0] != hash {
        seq![hash, gossiped[0]]
    } else {
        gossiped
    }));
}

/// Publishing a commitment keeps the current one and every one that is still among those published
/// last in reach, and lets go of the rest.
pub proof fn gossip_keeps_last_two(before: RetentionView, hash: [u8; 32])
    requires
        before.pruned(),
    ensures
        after_gossip(before, hash).pruned(),
        before.slots.len() > 0 ==> after_gossip(before, hash).slots[0] == before.slots[0]
            && after_gossip(before, hash).answerable(before.slots[0].digest()),
        forall|other: [u8; 32]|
            #![trigger before.answerable(other)]
            after_gossip(before, hash).gossiped.contains(other) && before.answerable(other)
                ==> after_gossip(before, hash).answerable(other),
        forall|other: [u8; 32]|
            #![trigger after_gossip(before, hash).answerable(other)]
            after_gossip(before, hash).answerable(other) ==> before.answerable(other) && (
            other == before.slots[0].digest() || after_gossip(before, hash).gossiped.contains(
                other,
            )),
{
    let after = after_gossip(before, hash);
    gossip_window(before.gossiped, hash);
    if before.slots.len() > 0 {
        retention_is_exact(before.slots, after.gossiped, 0);
        assert(after.slots[0].digest() == before.slots[0].digest());
    }
    assert forall|other: [u8; 32]| #![trigger before.answerable(other)]
        after.gossiped.contains(other) && before.answerable(other) implies after.answerable(
        other,
    ) by {
        let i = choose|i: int|
            0 <= i < before.slots.len() && (#[trigger] before.slots[i]).digest() == other;
        retention_is_exact(before.slots, after.gossiped, i);
        let k = choose|k: int| 0 <= k < after.slots.len() && after.slots[k] == before.slots[i];
        assert(after.slots[k].digest() == other);
    }
    assert forall|other: [u8; 32]| #![trigger after.answerable(other)] after.answerable(
        other,
    ) implies before.answerable(other) && (other == before.slots[0].digest()
        || after.gossiped.contains(other)) by {
        let k = choose|k: int|
            0 <= k < after.slots.len() && (#[trigger] after.slots[k]).digest() == other;
        if k > 0 {
            assert(before.slots.contains(after.slots[k]));
            let j = choose|j: int| 0 <= j < before.slots.len() && before.slots[j] == after.slots[k];
            assert(before.slots[j].digest() == other);
        } else {
            assert(before.slots[0].digest() == other);
        }
    }
}

/// One thing that happens to what a node can answer for.
pub enum RetentionStep {
    /// The node rebuilt its commitment.
    Rebuild(BuiltCommitment),
    /// The node published the commitment with this digest.
    Publish([u8; 32]),
}

/// What a node can answer for after all of this happened.
pub open spec fn after_steps(before: RetentionView, steps: Seq<RetentionStep>) -> RetentionView
    decreases steps.len(),
{
    if steps.len() == 0 {
        before
    } else {
        let reached = after_steps(before, steps.drop_last());
        match steps.last() {
            RetentionStep::Rebuild(current) => after_rotation(reached, current),
            RetentionStep::Publish(hash) => after_gossip(reached, hash),
        }
    }
}

/// A node stays answerable for what it published: however often it rebuilds, and until it has
/// published two others, the commitment that it published last can be answered for.
pub proof fn published_stays_answerable(
    before: RetentionView,
    hash: [u8; 32],
    next: [u8; 32],
    steps: Seq<RetentionStep>,
)
    requires
        before.pruned(),
        before.answerable(hash),
        before.gossiped.len() > 0,
        before.gossiped[0] == hash,
        forall|i: int|
            0 <= i < steps.len() ==> match (#[trigger] steps[i]) {
                RetentionStep::Rebuild(_) => true,
                RetentionStep::Publish(other) => other == hash || other == next,
            },
    ensures
        after_steps(before, steps).answerable(hash),
{
    answerable_after_steps(before, hash, next, steps);
}

/// The same, with what has to hold on the way.
proof fn answerable_after_steps(
    before: RetentionView,
    hash: [u8; 32],
    next: [u8; 32],
    steps: Seq<RetentionStep>,
)
    requires
        before.pruned(),
        before.answerable(hash),
        before.gossiped.len() > 0,
        before.gossiped[0] == hash,
        forall|i: int|
            0 <= i < steps.len() ==> match (#[trigger] steps[i]) {
                RetentionStep::Rebuild(_) => true,
                RetentionStep::Publish(other) => other == hash || other == next,
            },
    ensures
        after_steps(before, steps).pruned(),
        after_steps(before, steps).answerable(hash),
        in_window(after_steps(before, steps).gossiped, hash, next),
    decreases steps.len(),
{
    if steps.len() > 0 {
        let rest = steps.drop_last();
        assert forall|i: int| 0 <= i < rest.len() implies match (#[trigger] rest[i]) {
            RetentionStep::Rebuild(_) => true,
            RetentionStep::Publish(other) => other == hash || other == next,
        } by {
            assert(rest[i] == steps[i]);
        }
        answerable_after_steps(before, hash, next, rest);
        let reached = after_steps(before, rest);
        assert(reached.gossiped.contains(hash)) by {
            if reached.gossiped[0] != hash {
                assert(reached.gossiped[1] == hash);
            }
        }
        match steps[steps.len() - 1] {
            RetentionStep::Rebuild(current) => {
                rotation_keeps_published(reached, current);
            },
            RetentionStep::Publish(other) => {
                gossip_window(reached.gossiped, other);
                gossip_keeps_last_two(reached, other);
                let after = after_gossip(reached, other);
                if reached.gossiped[0] == other {
                    if reached.gossiped.len() == 1 {
                        assert(reached.gossiped =~= seq![other]);
                    }
                }
                assert(after.gossiped.contains(hash)) by {
                    if after.gossiped[0] != hash {
                        assert(after.gossiped[1] == hash);
                    }
                }
            },
        }
    }
}

/// Whether `hash` was published last, or next to last and just before `next`.
spec fn in_window(gossiped: Seq<[u8; 32]>, hash: [u8; 32], next: [u8; 32]) -> bool {
    &&& gossiped.len() > 0
    &&& gossiped[0] == hash || gossiped.len() == 2 && gossiped[0] == next && gossiped[1] == hash
}

/// Filtering up to and with one more item.
proof fn filter_step<T>(items: Seq<T>, keep: spec_fn(T) -> bool, i: int)
    requires
        0 <= i < items.len(),
    ensures
        items.take(i + 1).filter(keep) == if keep(items[i]) {
            items.take(i).filter(keep).push(items[i])
        } else {
            items.take(i).filter(keep)
        },
{
    reveal(Seq::filter);
    assert(items.take(i + 1).drop_last() =~= items.take(i));
}

/// Whether `hashes` holds `hash`.
fn holds_hash(hashes: &Vec<[u8; 32]>, hash: &[u8; 32]) -> (held: bool)
    ensures
        held == hashes@.contains(*hash),
{
    let mut i: usize = 0;
    while i < hashes.len()
        invariant
            i <= hashes.len(),
            forall|j: int| 0 <= j < i ==> hashes@[j] != *hash,
        decreases hashes.len() - i,
    {
        if same_bytes32(&hashes[i], hash) {
            assert(hashes@[i as int] == *hash);
            return true;
        }
        i += 1;
    }
    false
}

/// Keep the current slot and those published lately, in their order. Pruning what was kept again
/// keeps all of it.
pub fn prune_slots(slots: &Vec<Arc<BuiltCommitment>>, gossiped: &Vec<[u8; 32]>) -> (kept: Vec<
    Arc<BuiltCommitment>,
>)
    ensures
        slot_values(kept@) == retained(slot_values(slots@), gossiped@),
        retained(slot_values(kept@), gossiped@) == slot_values(kept@),
{
    proof {
        pruning_again_changes_nothing(slot_values(slots@), gossiped@);
    }
    let mut kept: Vec<Arc<BuiltCommitment>> = Vec::new();
    if slots.len() == 0 {
        assert(slot_values(kept@) =~= slot_values(slots@));
        return kept;
    }
    kept.push(slots[0].clone());
    let ghost all = slot_values(slots@);
    let ghost rest = all.skip(1);
    let ghost keep = |slot: BuiltCommitment| gossiped@.contains(slot.digest());
    let mut i: usize = 1;
    proof {
        reveal(Seq::filter);
        assert(rest.take(0).filter(keep) =~= Seq::empty());
        assert(slot_values(kept@) =~= seq![all[0]] + rest.take(0).filter(keep));
    }
    while i < slots.len()
        invariant
            1 <= i <= slots.len(),
            all == slot_values(slots@),
            rest == all.skip(1),
            keep == (|slot: BuiltCommitment| gossiped@.contains(slot.digest())),
            slot_values(kept@) == seq![all[0]] + rest.take(i - 1).filter(keep),
        decreases slots.len() - i,
    {
        let hash = slots[i].hash();
        proof {
            filter_step(rest, keep, i - 1);
            assert(rest[i - 1] == *slots@[i as int]);
        }
        if holds_hash(gossiped, &hash) {
            let ghost before = kept@;
            kept.push(slots[i].clone());
            assert(slot_values(kept@) =~= slot_values(before).push(*slots@[i as int]));
            assert(slot_values(kept@) =~= seq![all[0]] + rest.take(i as int).filter(keep));
        }
        i += 1;
    }
    assert(rest.take(i - 1) =~= rest);
    kept
}

/// The commitments in a list of shared slots.
pub open spec fn slot_values(slots: Seq<Arc<BuiltCommitment>>) -> Seq<BuiltCommitment> {
    slots.map_values(|slot: Arc<BuiltCommitment>| *slot)
}

/// The commitments in shared slots are the ones that are shared, in their order.
pub proof fn shared_slots_are_the_same(slots: Seq<Arc<BuiltCommitment>>)
    ensures
        slot_values(slots).len() == slots.len(),
        forall|i: int| 0 <= i < slots.len() ==> #[trigger] slot_values(slots)[i] == *slots[i],
{
}

impl ResponderCommitmentState {
    /// The slots are pruned.
    #[verifier::type_invariant]
    spec fn well_formed(self) -> bool {
        self@.pruned()
    }

    /// A node that has committed to nothing.
    pub fn new() -> (state: Self)
        ensures
            state@.slots == Seq::<BuiltCommitment>::empty(),
            state@.gossiped == Seq::<[u8; 32]>::empty(),
    {
        let slots: Vec<Arc<BuiltCommitment>> = Vec::new();
        let recently_gossiped: Vec<[u8; 32]> = Vec::new();
        assert(slot_values(slots@) =~= Seq::<BuiltCommitment>::empty());
        ResponderCommitmentState { slots, recently_gossiped }
    }

    /// Make `new_current` the current commitment. What is neither current nor published lately is
    /// dropped.
    pub fn rotate(&mut self, new_current: BuiltCommitment)
        ensures
            final(self)@ == after_rotation(old(self)@, new_current),
            final(self)@.slots.len() > 0 && final(self)@.slots[0] == new_current,
    {
        proof {
            use_type_invariant(&*self);
            rotation_keeps_published(self@, new_current);
        }
        let mut all: Vec<Arc<BuiltCommitment>> = Vec::new();
        all.push(Arc::new(new_current));
        let mut i: usize = 0;
        while i < self.slots.len()
            invariant
                i <= self.slots.len(),
                *self == *old(self),
                slot_values(all@) == seq![new_current] + slot_values(self.slots@).take(i as int),
            decreases self.slots.len() - i,
        {
            let ghost before = all@;
            all.push(self.slots[i].clone());
            assert(slot_values(all@) =~= slot_values(before).push(*self.slots@[i as int]));
            assert(slot_values(self.slots@).take(i + 1) =~= slot_values(self.slots@).take(
                i as int,
            ).push(*self.slots@[i as int]));
            assert(slot_values(all@) =~= seq![new_current] + slot_values(self.slots@).take(i + 1));
            i += 1;
        }
        assert(slot_values(self.slots@).take(i as int) =~= slot_values(self.slots@));
        let kept = prune_slots(&all, &self.recently_gossiped);
        self.slots = kept;
    }

    /// Record that the commitment with digest `hash` was put on the wire.
    pub fn mark_gossiped(&mut self, hash: [u8; 32])
        ensures
            final(self)@ == after_gossip(old(self)@, hash),
    {
        proof {
            use_type_invariant(&*self);
            gossip_keeps_last_two(self@, hash);
        }
        let ghost keep = other_than(hash);
        let ghost earlier = self.recently_gossiped@;
        let mut gossiped: Vec<[u8; 32]> = Vec::new();
        gossiped.push(hash);
        let mut i: usize = 0;
        proof {
            reveal(Seq::filter);
            assert(earlier.take(0).filter(keep) =~= Seq::empty());
            assert(gossiped@ =~= seq![hash] + earlier.take(0).filter(keep));
        }
        while i < self.recently_gossiped.len()
            invariant
                i <= self.recently_gossiped.len(),
                *self == *old(self),
                earlier == self.recently_gossiped@,
                keep == other_than(hash),
                gossiped@ == seq![hash] + earlier.take(i as int).filter(keep),
            decreases self.recently_gossiped.len() - i,
        {
            proof {
                filter_step(earlier, keep, i as int);
            }
            if !same_bytes32(&self.recently_gossiped[i], &hash) {
                gossiped.push(self.recently_gossiped[i]);
                assert(gossiped@ =~= seq![hash] + earlier.take(i + 1).filter(keep));
            }
            i += 1;
        }
        assert(earlier.take(i as int) =~= earlier);
        let ghost moved = gossiped@;
        if gossiped.len() > RETAINED_GOSSIPED_COMMITMENTS {
            gossiped.truncate(RETAINED_GOSSIPED_COMMITMENTS);
            assert(gossiped@ =~= moved.take(RETAINED_GOSSIPED_COMMITMENTS as int));
        }
        assert(gossiped@ =~= gossiped_after(earlier, hash));
        let kept = prune_slots(&self.slots, &gossiped);
        *self = ResponderCommitmentState { slots: kept, recently_gossiped: gossiped };
    }

    /// The commitment pinned by `hash`, where the node can answer for it.
    pub fn lookup_by_hash(&self, hash: &[u8; 32]) -> (found: Option<Arc<BuiltCommitment>>)
        ensures
            found is Some <==> self@.answerable(*hash),
            found matches Some(slot) ==> slot.digest() == *hash && self@.slots.contains(*slot),
    {
        let mut i: usize = 0;
        while i < self.slots.len()
            invariant
                i <= self.slots.len(),
                forall|j: int| 0 <= j < i ==> (#[trigger] self@.slots[j]).digest() != *hash,
            decreases self.slots.len() - i,
        {
            let own = self.slots[i].hash();
            assert(self@.slots[i as int] == *self.slots@[i as int]);
            if same_bytes32(&own, hash) {
                return Some(self.slots[i].clone());
            }
            i += 1;
        }
        None
    }

    /// The current commitment, if there is one.
    pub fn current(&self) -> (slot: Option<Arc<BuiltCommitment>>)
        ensures
            slot is Some <==> self@.slots.len() > 0,
            slot matches Some(c) ==> *c == self@.slots[0],
    {
        if self.slots.len() == 0 {
            None
        } else {
            Some(self.slots[0].clone())
        }
    }

    /// How many commitments the node can answer for.
    pub fn retained_slot_count(&self) -> (count: usize)
        ensures
            count == self@.slots.len(),
    {
        self.slots.len()
    }

    /// Forget every commitment. A node whose store is empty can answer for none.
    pub fn clear_all(&mut self)
        ensures
            final(self)@.slots == Seq::<BuiltCommitment>::empty(),
            final(self)@.gossiped == Seq::<[u8; 32]>::empty(),
    {
        *self = Self::new();
    }
}

impl Default for ResponderCommitmentState {
    fn default() -> (state: Self)
        ensures
            state@.slots == Seq::<BuiltCommitment>::empty(),
            state@.gossiped == Seq::<[u8; 32]>::empty(),
    {
        Self::new()
    }
}

} // verus!
