//! How a node renews its own commitment.
//!
//! The stored chunks are content-addressed, so the digest of a chunk's bytes is its key, and no
//! chunk has to be read to commit to it.

use crate::adversary::AdversaryMode;
use crate::ant_protocol::XorName;
use crate::hashing::same_bytes32;
use crate::ml_dsa;
use crate::replication::audit::{byte_sample_size, bytes_verdict, leaf_keys, sampled_leaves};
use crate::replication::audit::{structure_gate, ByteRound};
use crate::replication::commitment::{
    CommitmentError, CommitmentView, MerkleTree, MAX_COMMITMENT_KEY_COUNT,
};
use crate::replication::commitment;
use crate::replication::commitment_state::{after_rotation, BuiltCommitment};
use crate::replication::commitment_state::{ResponderCommitmentState, RetentionView};
use crate::replication::protocol::{SubtreeAuditChallenge, SubtreeAuditResponse};
use crate::replication::protocol::{SubtreeByteChallenge, SubtreeByteItem};
use crate::replication::responder::{honest_node_passes, items_answered, proves_branch};
use crate::replication::slice;
use crate::replication::types::PeerId;
use vstd::prelude::*;

verus! {

/// What a renewal came to.
#[derive(Clone, Debug, PartialEq, Eq)]
pub enum RotationOutcome {
    /// The node publishes no commitments.
    Silent,
    /// Nothing is stored, so nothing is committed to.
    Empty,
    /// The stored keys are those of the current commitment.
    Unchanged,
    /// There is a new commitment.
    Rotated {
        /// Its digest.
        hash: [u8; 32],
        /// How many keys it covers.
        key_count: u32,
        /// How many commitments the node can answer for.
        retained_slots: usize,
    },
}

/// The entries that a node commits to: its keys, up to the most that a commitment may cover, each
/// with itself as the digest of its bytes.
pub open spec fn committed_entries(keys: Seq<XorName>) -> Seq<(XorName, [u8; 32])> {
    let kept = if keys.len() <= MAX_COMMITMENT_KEY_COUNT {
        keys
    } else {
        keys.take(MAX_COMMITMENT_KEY_COUNT as int)
    };
    kept.map_values(|key: XorName| (key, key))
}

/// Whether `built` is a commitment of this node to its keys.
pub open spec fn is_own_commitment(
    built: BuiltCommitment,
    keys: Seq<XorName>,
    peer: PeerId,
) -> bool {
    &&& built.consistent()
    &&& built.entries().to_multiset() == committed_entries(keys).to_multiset()
    &&& built.says().sender_peer_id == peer
}

/// The root of the tree over the entries in the order of their names.
pub open spec fn is_root_of(root: [u8; 32], entries: Seq<(XorName, [u8; 32])>) -> bool {
    exists|sorted: Seq<(XorName, [u8; 32])>| #[trigger]
        commitment::committable(sorted) && sorted.to_multiset() == entries.to_multiset() && root
            == commitment::tree_root(sorted)
}

/// A node commits to what it stores: its commitment holds, for each of its keys up to the most that
/// one may cover, the key with the key itself as the digest of its bytes, and nothing else.
pub proof fn own_commitment_holds_stored_keys(
    built: BuiltCommitment,
    keys: Seq<XorName>,
    peer: PeerId,
)
    requires
        is_own_commitment(built, keys, peer),
    ensures
        built.says().sender_peer_id == peer,
        built.says().key_count == if keys.len() <= 1_000_000 {
            keys.len() as int
        } else {
            1_000_000
        },
        forall|i: int|
            0 <= i < keys.len() && i < 1_000_000 ==> built.entries().contains(
                (#[trigger] keys[i], keys[i]),
            ),
        forall|k: int|
            0 <= k < built.entries().len() ==> (#[trigger] built.entries()[k]).1
                == built.entries()[k].0 && keys.contains(built.entries()[k].0),
{
    broadcast use vstd::seq_lib::group_to_multiset_ensures;

    let wanted = committed_entries(keys);
    assert(built.entries().to_multiset().len() == built.entries().len());
    assert(wanted.to_multiset().len() == wanted.len());
    assert forall|i: int| 0 <= i < keys.len() && i < 1_000_000 implies built.entries().contains(
        (#[trigger] keys[i], keys[i]),
    ) by {
        assert(wanted[i] == (keys[i], keys[i]));
        assert(wanted.contains(wanted[i]));
        assert(wanted.to_multiset().count(wanted[i]) > 0);
    }
    assert forall|k: int| 0 <= k < built.entries().len() implies (#[trigger] built.entries()[k]).1
        == built.entries()[k].0 && keys.contains(built.entries()[k].0) by {
        let entry = built.entries()[k];
        assert(built.entries().contains(entry));
        assert(built.entries().to_multiset().count(entry) > 0);
        assert(wanted.contains(entry));
        let i = choose|i: int| 0 <= i < wanted.len() && wanted[i] == entry;
        assert(wanted[i] == (keys[i], keys[i]));
    }
}

/// Keys have one root: whatever order they are given in, no other root is theirs.
pub proof fn keys_have_one_root(root: [u8; 32], other: [u8; 32], entries: Seq<(XorName, [u8; 32])>)
    requires
        is_root_of(root, entries),
        is_root_of(other, entries),
    ensures
        root == other,
{
    let a = choose|sorted: Seq<(XorName, [u8; 32])>| #[trigger]
        commitment::committable(sorted) && sorted.to_multiset() == entries.to_multiset() && root
            == commitment::tree_root(sorted);
    let b = choose|sorted: Seq<(XorName, [u8; 32])>| #[trigger]
        commitment::committable(sorted) && sorted.to_multiset() == entries.to_multiset() && other
            == commitment::tree_root(sorted);
    crate::names::order_is_unique(a, b);
}

/// Renewing a commitment again, with the same keys in any order, changes nothing: the current one
/// has their root already.
pub proof fn renewing_again_changes_nothing(
    built: BuiltCommitment,
    keys: Seq<XorName>,
    again: Seq<XorName>,
    peer: PeerId,
)
    requires
        is_own_commitment(built, keys, peer),
        keys.to_multiset() == again.to_multiset(),
        keys.len() <= 1_000_000,
    ensures
        is_root_of(built.says().root, committed_entries(again)),
{
    broadcast use vstd::seq_lib::group_to_multiset_ensures;

    assert(keys.to_multiset().len() == keys.len());
    assert(again.to_multiset().len() == again.len());
    pairs_permute(keys, again);
    assert(commitment::committable(built.entries()));
    assert(built.entries().to_multiset() == committed_entries(again).to_multiset());
}

/// Keys in another order, each paired with itself, are the pairs in another order.
proof fn pairs_permute(a: Seq<XorName>, b: Seq<XorName>)
    requires
        a.to_multiset() == b.to_multiset(),
        a.len() <= 1_000_000,
        b.len() <= 1_000_000,
    ensures
        committed_entries(a).to_multiset() == committed_entries(b).to_multiset(),
{
    let x = committed_entries(a);
    let y = committed_entries(b);
    assert forall|pair: (XorName, [u8; 32])| #[trigger] x.to_multiset().count(pair)
        == y.to_multiset().count(pair) by {
        pair_count(a, pair);
        pair_count(b, pair);
    }
    assert(x.to_multiset() =~= y.to_multiset());
}

/// A pair occurs as often as its key, where it is a key paired with itself, and else not at all.
proof fn pair_count(keys: Seq<XorName>, pair: (XorName, [u8; 32]))
    requires
        keys.len() <= 1_000_000,
    ensures
        committed_entries(keys).to_multiset().count(pair) == if pair.0 == pair.1 {
            keys.to_multiset().count(pair.0)
        } else {
            0
        },
    decreases keys.len(),
{
    broadcast use vstd::seq_lib::group_to_multiset_ensures;

    if keys.len() == 0 {
        assert(committed_entries(keys) =~= Seq::empty());
        assert(keys =~= Seq::empty());
    } else {
        let rest = keys.drop_last();
        let last = keys.last();
        pair_count(rest, pair);
        assert(committed_entries(keys) =~= committed_entries(rest).push((last, last)));
        assert(keys =~= rest.push(last));
    }
}

/// A node that stores chunks under the digests of their bytes, and commits to nothing but its keys,
/// passes every audit: where it signs with the key that its identity comes from and finds the same
/// bytes for a key each time, its answers to both rounds pass every check, whatever nonce was
/// drawn. `stored` holds the keys that it had when it made each of the commitments.
pub proof fn node_that_stores_what_it_committed_passes<F: Fn(&XorName) -> Option<Vec<u8>>>(
    response: SubtreeAuditResponse,
    challenge: SubtreeAuditChallenge,
    demand: SubtreeByteChallenge,
    items: Vec<SubtreeByteItem>,
    held: RetentionView,
    stored: Seq<Seq<XorName>>,
    bytes_for: F,
)
    requires
        proves_branch(response, challenge, held, bytes_for, None),
        demand.nonce == challenge.nonce,
        demand.challenged_peer_id == challenge.challenged_peer_id,
        demand.expected_commitment_hash == challenge.expected_commitment_hash,
        response matches SubtreeAuditResponse::Proof { commitment, proof_of_branch, .. }
            && demand.keys@ == leaf_keys(
            sampled_leaves(
                proof_of_branch.leaves@,
                challenge.nonce,
                commitment.key_count,
                byte_sample_size(),
            ),
        ),
        items_answered(items@, demand, held, bytes_for, None),
        stored.len() == held.slots.len(),
        forall|slot: int|
            0 <= slot < held.slots.len() ==> {
                let c = (#[trigger] held.slots[slot]).says();
                &&& is_own_commitment(
                    held.slots[slot],
                    stored[slot],
                    challenge.challenged_peer_id,
                )
                &&& commitment::signed_by_own_key(c)
                &&& crate::hashing::blake3_digest(c.sender_public_key) == c.sender_peer_id
            },
        forall|key: XorName, bytes: Vec<u8>| #[trigger]
            call_ensures(bytes_for, (&key,), Some(bytes)) ==> crate::hashing::blake3_digest(
                bytes@,
            ) == key,
        forall|a: int, b: int|
            0 <= a < held.slots.len() && 0 <= b < held.slots.len() && (
            #[trigger] held.slots[a]).digest() == (#[trigger] held.slots[b]).digest()
                ==> held.slots[a].entries() == held.slots[b].entries(),
        forall|key: XorName, a: Option<Vec<u8>>, b: Option<Vec<u8>>| #[trigger]
            call_ensures(bytes_for, (&key,), a) && #[trigger] call_ensures(bytes_for, (&key,), b)
                ==> slice::option_view(a) == slice::option_view(b),
    ensures
        response matches SubtreeAuditResponse::Proof { commitment, proof_of_branch, .. }
            && structure_gate(
            commitment@,
            proof_of_branch.leaves@,
            proof_of_branch.sibling_cut_hashes@,
            challenge.nonce,
            challenge.expected_commitment_hash,
            challenge.challenged_peer_id,
        ) is None && bytes_verdict(
            sampled_leaves(
                proof_of_branch.leaves@,
                challenge.nonce,
                commitment.key_count,
                byte_sample_size(),
            ),
            challenge.nonce,
            challenge.challenged_peer_id,
            ByteRound::Served(items),
        ) is Pass,
{
    assert forall|slot: int| 0 <= slot < held.slots.len() implies {
        let c = (#[trigger] held.slots[slot]).says();
        &&& commitment::signed_by_own_key(c)
        &&& c.sender_peer_id == challenge.challenged_peer_id
        &&& crate::hashing::blake3_digest(c.sender_public_key) == c.sender_peer_id
        &&& forall|i: int, bytes: Vec<u8>|
            0 <= i < held.slots[slot].entries().len() && #[trigger] call_ensures(
                bytes_for,
                (&held.slots[slot].entries()[i].0,),
                Some(bytes),
            ) ==> crate::hashing::blake3_digest(bytes@) == held.slots[slot].entries()[i].1
    } by {
        own_commitment_holds_stored_keys(
            held.slots[slot],
            stored[slot],
            challenge.challenged_peer_id,
        );
    }
    honest_node_passes(response, challenge, demand, items@, held, bytes_for);
}

/// Pair each key with itself.
fn entries_for(keys: &Vec<XorName>) -> (entries: Vec<(XorName, [u8; 32])>)
    ensures
        entries@ == committed_entries(keys@),
{
    let cap: usize = MAX_COMMITMENT_KEY_COUNT as usize;
    let count: usize = if keys.len() <= cap {
        keys.len()
    } else {
        cap
    };
    let mut entries: Vec<(XorName, [u8; 32])> = Vec::new();
    let mut i: usize = 0;
    while i < count
        invariant
            i <= count <= keys.len(),
            entries.len() == i,
            forall|k: int| 0 <= k < i ==> entries@[k] == (keys@[k], keys@[k]),
        decreases count - i,
    {
        entries.push((keys[i], keys[i]));
        i += 1;
    }
    assert(entries@ =~= committed_entries(keys@));
    entries
}

/// The public and the secret key that a commitment is made with: the side pair where there is one,
/// else the node's own.
pub open spec fn signing_keys(
    side_keys: Option<(Vec<u8>, Vec<u8>)>,
    public_key: Seq<u8>,
    secret_key: Seq<u8>,
) -> (Seq<u8>, Seq<u8>) {
    match side_keys {
        Some((public, secret)) => (public@, secret@),
        None => (public_key, secret_key),
    }
}

/// A commitment is made with the side pair where there is one, and else with the node's own keys.
pub proof fn side_pair_goes_before_own_keys(
    public: Vec<u8>,
    secret: Vec<u8>,
    public_key: Seq<u8>,
    secret_key: Seq<u8>,
)
    ensures
        signing_keys(Some((public, secret)), public_key, secret_key) == (public@, secret@),
        signing_keys(None, public_key, secret_key) == (public_key, secret_key),
{
}

/// Commit to the keys, sign, and make the commitment the current one. With a side pair of keys the
/// commitment carries and is signed with those, and still names the node's own identity.
pub fn sign_and_rotate(
    keys: &Vec<XorName>,
    state: &mut ResponderCommitmentState,
    peer_id: &PeerId,
    secret_key: &[u8],
    public_key: &[u8],
    side_keys: Option<(Vec<u8>, Vec<u8>)>,
) -> (outcome: Result<RotationOutcome, CommitmentError>)
    ensures
        match outcome {
            Ok(RotationOutcome::Rotated { hash, key_count, retained_slots }) => {
                let (public, secret) = signing_keys(side_keys, public_key@, secret_key@);
                &&& keys.len() > 0
                &&& crate::names::names_distinct(committed_entries(keys@))
                &&& final(state)@.slots.len() > 0
                &&& is_own_commitment(final(state)@.slots[0], keys@, *peer_id)
                &&& forall|i: int|
                    0 <= i < keys.len() && i < 1_000_000 ==> final(state)@.slots[0].entries()
                        .contains((#[trigger] keys@[i], keys@[i]))
                &&& final(state)@ == after_rotation(old(state)@, final(state)@.slots[0])
                &&& hash == final(state)@.slots[0].digest()
                &&& key_count == final(state)@.slots[0].says().key_count
                &&& retained_slots == final(state)@.slots.len()
                &&& final(state)@.slots[0].says().sender_public_key == public
                &&& commitment::signed_with(final(state)@.slots[0].says(), secret)
            },
            Ok(_) => false,
            Err(e) => final(state)@ == old(state)@ && match e {
                CommitmentError::EmptyKeySet => keys.len() == 0,
                CommitmentError::DuplicateKey { .. } => !crate::names::names_distinct(
                    committed_entries(keys@),
                ),
                CommitmentError::SignatureFailed(_) => keys.len() > 0
                    && crate::names::names_distinct(committed_entries(keys@)),
                CommitmentError::TooManyKeys { .. } => false,
            },
        },
{
    let entries = entries_for(keys);
    let built = match &side_keys {
        Some((side_public, side_secret)) => BuiltCommitment::build(
            entries,
            peer_id,
            side_secret.as_slice(),
            side_public.as_slice(),
        ),
        None => BuiltCommitment::build(entries, peer_id, secret_key, public_key),
    };
    let built = match built {
        Ok(built) => built,
        Err(e) => {
            return Err(e);
        },
    };
    let hash = built.hash();
    let key_count: u32 = built.commitment().key_count;
    proof {
        own_commitment_holds_stored_keys(built, keys@, *peer_id);
    }
    state.rotate(built);
    Ok(
        RotationOutcome::Rotated {
            hash,
            key_count,
            retained_slots: state.retained_slot_count(),
        },
    )
}

/// Whether a commitment carries the public key of a pair and was signed with its secret key.
pub open spec fn signed_under(c: CommitmentView, pair: (Seq<u8>, Seq<u8>)) -> bool {
    c.sender_public_key == pair.0 && commitment::signed_with(c, pair.1)
}

/// Renew the node's commitment to the keys that it stores. A node that stores nothing forgets its
/// commitments. Where the keys are those of the current commitment nothing changes, since a new
/// signature alone would only take away the credit that others give under the old one. A node that
/// was told to sign with a key that is not its own still claims its own identity; where no such
/// key can be drawn, it signs with its own.
pub fn rebuild_and_rotate_commitment(
    keys: &Vec<XorName>,
    state: &mut ResponderCommitmentState,
    peer_id: &PeerId,
    secret_key: &[u8],
    public_key: &[u8],
    mode: Option<AdversaryMode>,
) -> (outcome: Result<RotationOutcome, CommitmentError>)
    ensures
        match outcome {
            Ok(RotationOutcome::Silent) => mode == Some(AdversaryMode::Silent) && final(state)@
                == old(state)@,
            Ok(RotationOutcome::Empty) => mode != Some(AdversaryMode::Silent) && keys.len() == 0 && (
            if old(state)@.slots.len() > 0 {
                final(state)@.slots.len() == 0 && final(state)@.gossiped.len() == 0
            } else {
                final(state)@ == old(state)@
            }),
            Ok(RotationOutcome::Unchanged) => mode != Some(AdversaryMode::Silent) && keys.len() > 0
                && final(state)@ == old(state)@ && old(state)@.slots.len() > 0 && is_root_of(
                old(state)@.slots[0].says().root,
                committed_entries(keys@),
            ),
            Ok(RotationOutcome::Rotated { hash, key_count, retained_slots }) => {
                &&& mode != Some(AdversaryMode::Silent)
                &&& keys.len() > 0
                &&& old(state)@.slots.len() > 0 ==> !is_root_of(
                    old(state)@.slots[0].says().root,
                    committed_entries(keys@),
                )
                &&& final(state)@.slots.len() > 0
                &&& is_own_commitment(final(state)@.slots[0], keys@, *peer_id)
                &&& forall|i: int|
                    0 <= i < keys.len() && i < 1_000_000 ==> final(state)@.slots[0].entries()
                        .contains((#[trigger] keys@[i], keys@[i]))
                &&& final(state)@ == after_rotation(old(state)@, final(state)@.slots[0])
                &&& hash == final(state)@.slots[0].digest()
                &&& key_count == final(state)@.slots[0].says().key_count
                &&& retained_slots == final(state)@.slots.len()
                &&& mode == Some(AdversaryMode::ThrowawayKey) ==> exists|
                    pair: (Seq<u8>, Seq<u8>),
                | #[trigger]
                    signed_under(final(state)@.slots[0].says(), pair) && (pair == (
                        public_key@,
                        secret_key@,
                    ) || ml_dsa::is_key_pair(pair.0, pair.1))
                &&& mode != Some(AdversaryMode::ThrowawayKey) ==> {
                    &&& final(state)@.slots[0].says().sender_public_key == public_key@
                    &&& commitment::signed_with(final(state)@.slots[0].says(), secret_key@)
                    &&& ml_dsa::is_key_pair(public_key@, secret_key@)
                        ==> commitment::signed_by_own_key(final(state)@.slots[0].says())
                }
            },
            Err(e) => mode != Some(AdversaryMode::Silent) && keys.len() > 0 && final(state)@
                == old(state)@ && match e {
                CommitmentError::DuplicateKey { .. } => !crate::names::names_distinct(
                    committed_entries(keys@),
                ),
                CommitmentError::SignatureFailed(_) => crate::names::names_distinct(
                    committed_entries(keys@),
                ) && (old(state)@.slots.len() > 0 ==> !is_root_of(
                    old(state)@.slots[0].says().root,
                    committed_entries(keys@),
                )),
                _ => false,
            },
        },
        mode == Some(AdversaryMode::Silent) ==> outcome == Ok::<RotationOutcome, CommitmentError>(
            RotationOutcome::Silent,
        ),
        mode != Some(AdversaryMode::Silent) && keys.len() == 0 ==> outcome == Ok::<
            RotationOutcome,
            CommitmentError,
        >(RotationOutcome::Empty),
        mode != Some(AdversaryMode::Silent) && !crate::names::names_distinct(
            committed_entries(keys@),
        ) ==> outcome is Err,
{
    if matches!(mode, Some(AdversaryMode::Silent)) {
        return Ok(RotationOutcome::Silent);
    }
    if keys.len() == 0 {
        if state.current().is_some() {
            state.clear_all();
        }
        return Ok(RotationOutcome::Empty);
    }
    let ghost wanted = committed_entries(keys@);
    let candidate = match MerkleTree::build(entries_for(keys)) {
        Ok(tree) => tree,
        Err(e) => {
            return Err(e);
        },
    };
    let candidate_root = candidate.root();
    proof {
        assert(is_root_of(candidate_root, wanted));
        assert forall|root: [u8; 32]| is_root_of(root, wanted) implies root == candidate_root by {
            let sorted = choose|sorted: Seq<(XorName, [u8; 32])>| #[trigger]
                commitment::committable(sorted) && sorted.to_multiset() == wanted.to_multiset()
                    && root == commitment::tree_root(sorted);
            crate::names::order_is_unique(sorted, candidate@);
        }
    }
    if let Some(current) = state.current() {
        if same_bytes32(&current.commitment().root, &candidate_root) {
            return Ok(RotationOutcome::Unchanged);
        }
    }
    let throwaway = if matches!(mode, Some(AdversaryMode::ThrowawayKey)) {
        match ml_dsa::generate_keypair() {
            Ok((side_public, side_secret)) => Some((side_public, side_secret)),
            Err(_) => None,
        }
    } else {
        None
    };
    let ghost pair = signing_keys(throwaway, public_key@, secret_key@);
    let outcome = sign_and_rotate(keys, state, peer_id, secret_key, public_key, throwaway);
    proof {
        if outcome matches Ok(RotationOutcome::Rotated { .. }) {
            assert(signed_under(state@.slots[0].says(), pair));
        }
    }
    outcome
}

} // verus!
