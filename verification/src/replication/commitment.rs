//! Storage commitments: a signed Merkle root over the chunks that a node claims to hold.
//!
//! The tree has one leaf for each chunk, in the order of their addresses. A commitment carries
//! the root, the number of leaves, and the identity and signature of the node that made it. It
//! is pinned by the digest of its encoding.

use crate::ant_protocol::XorName;
use crate::hashing::{append, blake3_hash, collides, same_bytes32};
use crate::ml_dsa;
use crate::names::{search_entries, sort_entries};
use crate::replication::merkle;
use vstd::prelude::*;
use vstd::string::*;

verus! {

/// The largest number of keys that a commitment may cover.
pub const MAX_COMMITMENT_KEY_COUNT: u32 = 1_000_000;

/// Domain tag of a leaf.
pub const DOMAIN_LEAF: &'static str = "autonomi.ant.replication.storage-commitment.leaf.v1";

/// Domain tag of an internal node.
pub const DOMAIN_NODE: &'static str = "autonomi.ant.replication.storage-commitment.node.v1";

/// Domain tag of what a node signs.
pub const DOMAIN_SIGNATURE: &'static str = "autonomi.ant.replication.storage-commitment.signature.v1";

/// A signed commitment to a set of chunks.
#[derive(Debug, PartialEq, Eq)]
pub struct StorageCommitment {
    /// The root of the tree over the chunks.
    pub root: [u8; 32],
    /// How many chunks the tree covers.
    pub key_count: u32,
    /// Who committed.
    pub sender_peer_id: [u8; 32],
    /// The public key of the sender, whose digest is the sender's identity.
    pub sender_public_key: Vec<u8>,
    /// The sender's signature.
    pub signature: Vec<u8>,
}

/// What a commitment says.
pub struct CommitmentView {
    /// The root of the tree over the chunks.
    pub root: [u8; 32],
    /// How many chunks the tree covers.
    pub key_count: u32,
    /// Who committed.
    pub sender_peer_id: [u8; 32],
    /// The public key of the sender.
    pub sender_public_key: Seq<u8>,
    /// The sender's signature.
    pub signature: Seq<u8>,
}

impl View for StorageCommitment {
    type V = CommitmentView;

    open spec fn view(&self) -> CommitmentView {
        CommitmentView {
            root: self.root,
            key_count: self.key_count,
            sender_peer_id: self.sender_peer_id,
            sender_public_key: self.sender_public_key@,
            signature: self.signature@,
        }
    }
}

impl Clone for StorageCommitment {
    fn clone(&self) -> (copy: Self)
        ensures
            copy@ == self@,
    {
        StorageCommitment {
            root: self.root,
            key_count: self.key_count,
            sender_peer_id: self.sender_peer_id,
            sender_public_key: vstd::slice::slice_to_vec(self.sender_public_key.as_slice()),
            signature: vstd::slice::slice_to_vec(self.signature.as_slice()),
        }
    }
}

/// What a responder shows for one challenged key.
#[derive(Clone, Debug, PartialEq, Eq)]
pub struct CommitmentBoundResult {
    /// The challenged key.
    pub key: XorName,
    /// The audit digest over the key's bytes.
    pub digest: [u8; 32],
    /// The plain digest of the key's bytes.
    pub bytes_hash: [u8; 32],
    /// Where the key stands in the committed tree.
    pub leaf_index: u32,
    /// The inclusion path of the key.
    pub path: Vec<[u8; 32]>,
}

/// Why a commitment could not be made.
#[derive(Clone, Debug, PartialEq, Eq)]
pub enum CommitmentError {
    /// There is nothing to commit to.
    EmptyKeySet,
    /// There are more keys than a commitment may cover.
    TooManyKeys {
        /// How many there are.
        count: usize,
    },
    /// A key occurs twice.
    DuplicateKey {
        /// The key.
        key: XorName,
    },
    /// The commitment could not be signed.
    SignatureFailed(String),
}

/// The bytes that the leaf of a key digests: the tag, the key and the digest of the key's bytes.
pub open spec fn leaf_bytes(key: XorName, bytes_hash: [u8; 32]) -> Seq<u8> {
    DOMAIN_LEAF.spec_bytes() + key@ + bytes_hash@
}

/// The leaf of a key: the digest of the tag, the key and the digest of its bytes.
pub open spec fn leaf_digest(key: XorName, bytes_hash: [u8; 32]) -> [u8; 32] {
    crate::hashing::blake3_digest(leaf_bytes(key, bytes_hash))
}

/// The leaf level over `entries`.
pub open spec fn leaf_level(entries: Seq<(XorName, [u8; 32])>) -> Seq<[u8; 32]> {
    Seq::new(entries.len(), |i: int| leaf_digest(entries[i].0, entries[i].1))
}

/// The root of the tree over `entries`, in their order.
pub open spec fn tree_root(entries: Seq<(XorName, [u8; 32])>) -> [u8; 32] {
    merkle::root(DOMAIN_NODE.spec_bytes(), leaf_level(entries))
}

/// The inclusion path of leaf `i` in the tree over `entries`.
pub open spec fn tree_path(entries: Seq<(XorName, [u8; 32])>, i: int) -> Seq<[u8; 32]> {
    merkle::siblings(DOMAIN_NODE.spec_bytes(), leaf_level(entries), i)
}

/// Whether `entries` can be committed to as they stand: in order, at least one, and no more than
/// a commitment may cover.
pub open spec fn committable(entries: Seq<(XorName, [u8; 32])>) -> bool {
    &&& crate::names::strictly_ascending(entries)
    &&& 0 < entries.len() <= MAX_COMMITMENT_KEY_COUNT
}

/// Whether `path` shows that `leaf` stands at `index` of a tree of `key_count` leaves with `root`.
pub open spec fn path_valid(
    leaf: [u8; 32],
    path: Seq<[u8; 32]>,
    index: int,
    key_count: u32,
    root: [u8; 32],
) -> bool {
    &&& 0 < key_count <= MAX_COMMITMENT_KEY_COUNT
    &&& index < key_count
    &&& path.len() == merkle::depth(key_count as nat)
    &&& merkle::fold_path(DOMAIN_NODE.spec_bytes(), leaf, index, path) == root
}

/// What a node signs: the tag, the root, the number of keys as a little-endian word, its identity
/// and its public key.
pub open spec fn signed_payload(
    root: [u8; 32],
    key_count: u32,
    sender_peer_id: [u8; 32],
    sender_public_key: Seq<u8>,
) -> Seq<u8> {
    DOMAIN_SIGNATURE.spec_bytes() + root@ + vstd::bytes::spec_u32_to_le_bytes(key_count)
        + sender_peer_id@ + sender_public_key
}

/// Whether the signature of a commitment is one made with `secret_key`: it is valid under every
/// public key that belongs to that one.
pub open spec fn signed_with(c: CommitmentView, secret_key: Seq<u8>) -> bool {
    forall|public_key: Seq<u8>|
        ml_dsa::is_key_pair(public_key, secret_key) ==> #[trigger] ml_dsa::signature_valid(
            public_key,
            signed_payload(c.root, c.key_count, c.sender_peer_id, c.sender_public_key),
            c.signature,
        )
}

/// Whether the signature of a commitment is valid under the public key that it carries.
pub open spec fn signed_by_own_key(c: CommitmentView) -> bool {
    ml_dsa::signature_valid(
        c.sender_public_key,
        signed_payload(c.root, c.key_count, c.sender_peer_id, c.sender_public_key),
        c.signature,
    )
}

/// A number in groups of seven bits, lowest first; every byte but the last has its top bit set.
pub open spec fn varint(n: nat) -> Seq<u8>
    decreases n,
{
    if n < 128 {
        seq![n as u8]
    } else {
        seq![(n % 128 + 128) as u8] + varint(n / 128)
    }
}

/// The encoding of a commitment: its fields in order, a number as a varint, a byte string after
/// its length.
pub open spec fn wire_bytes(c: CommitmentView) -> Seq<u8> {
    c.root@ + (varint(c.key_count as nat) + (c.sender_peer_id@ + (varint(
        c.sender_public_key.len(),
    ) + (c.sender_public_key + (varint(c.signature.len()) + c.signature)))))
}

/// The digest by which a commitment is pinned.
pub open spec fn commitment_digest(c: CommitmentView) -> [u8; 32] {
    crate::hashing::blake3_digest(wire_bytes(c))
}

/// The inclusion path of every leaf shows the leaf in its tree.
pub proof fn inclusion_paths_are_valid(entries: Seq<(XorName, [u8; 32])>, i: int)
    requires
        committable(entries),
        0 <= i < entries.len(),
    ensures
        path_valid(
            leaf_digest(entries[i].0, entries[i].1),
            tree_path(entries, i),
            i,
            entries.len() as u32,
            tree_root(entries),
        ),
{
    let leaves = leaf_level(entries);
    merkle::path_leads_to_root(DOMAIN_NODE.spec_bytes(), leaves, i);
    merkle::siblings_len(DOMAIN_NODE.spec_bytes(), leaves, i);
}

/// Two leaves that digest the same bytes are of the same key and the same bytes' digest.
pub proof fn leaf_bytes_split(
    key: XorName,
    bytes_hash: [u8; 32],
    key2: XorName,
    bytes_hash2: [u8; 32],
)
    requires
        leaf_bytes(key, bytes_hash) == leaf_bytes(key2, bytes_hash2),
    ensures
        key == key2,
        bytes_hash == bytes_hash2,
{
    let a = leaf_bytes(key, bytes_hash);
    let b = leaf_bytes(key2, bytes_hash2);
    let n = DOMAIN_LEAF.spec_bytes().len() as int;
    assert(a.subrange(n, n + 32) =~= key@);
    assert(b.subrange(n, n + 32) =~= key2@);
    assert(a.subrange(n + 32, n + 64) =~= bytes_hash@);
    assert(b.subrange(n + 32, n + 64) =~= bytes_hash2@);
    assert(key =~= key2);
    assert(bytes_hash =~= bytes_hash2);
}

/// Two byte strings that an inclusion path from the leaf of `key` and `bytes_hash` and the tree
/// over `entries` both digest: those of the leaves where the path starts at the leaf that the
/// tree has there, else those where the two meet.
pub open spec fn path_collision(
    entries: Seq<(XorName, [u8; 32])>,
    key: XorName,
    bytes_hash: [u8; 32],
    path: Seq<[u8; 32]>,
    index: int,
) -> (Seq<u8>, Seq<u8>) {
    if leaf_digest(key, bytes_hash) == leaf_level(entries)[index] {
        (leaf_bytes(key, bytes_hash), leaf_bytes(entries[index].0, entries[index].1))
    } else {
        merkle::fold_collision(
            DOMAIN_NODE.spec_bytes(),
            leaf_level(entries),
            leaf_digest(key, bytes_hash),
            index,
            path,
        )
    }
}

/// A valid inclusion path shows what was committed to: the key and the digest of its bytes are
/// the entry at that index, unless the two byte strings of `path_collision` are different and
/// have one digest.
pub proof fn valid_path_is_committed(
    entries: Seq<(XorName, [u8; 32])>,
    key: XorName,
    bytes_hash: [u8; 32],
    path: Seq<[u8; 32]>,
    index: int,
)
    requires
        committable(entries),
        0 <= index,
        path_valid(
            leaf_digest(key, bytes_hash),
            path,
            index,
            entries.len() as u32,
            tree_root(entries),
        ),
    ensures
        entries[index] == (key, bytes_hash) || collides(
            path_collision(entries, key, bytes_hash, path, index),
        ),
{
    let leaves = leaf_level(entries);
    merkle::fold_leads_from_leaf(
        DOMAIN_NODE.spec_bytes(),
        leaves,
        leaf_digest(key, bytes_hash),
        index,
        path,
    );
    merkle::place_of_index(leaves.len(), index);
    let (kept_key, kept_hash) = entries[index];
    if leaf_bytes(key, bytes_hash) == leaf_bytes(kept_key, kept_hash) {
        leaf_bytes_split(key, bytes_hash, kept_key, kept_hash);
    }
}

/// A leaf digests its own tag, the key and the digest of the key's bytes; a node digests another tag
/// and its two children. A commitment's root is that of these leaves under these nodes, in the order
/// of the entries.
pub proof fn tree_is_tagged(entries: Seq<(XorName, [u8; 32])>, i: int)
    requires
        0 <= i < entries.len(),
    ensures
        leaf_level(entries).len() == entries.len(),
        leaf_level(entries)[i] == crate::hashing::blake3_digest(
            "autonomi.ant.replication.storage-commitment.leaf.v1".spec_bytes() + entries[i].0@
                + entries[i].1@,
        ),
        tree_root(entries) == merkle::root(
            "autonomi.ant.replication.storage-commitment.node.v1".spec_bytes(),
            leaf_level(entries),
        ),
{
}

/// A signature is over one commitment only: what is signed determines the root, the number of keys,
/// the peer and its public key.
pub proof fn signed_payload_covers_every_field(
    root: [u8; 32],
    key_count: u32,
    peer: [u8; 32],
    public_key: Seq<u8>,
    root2: [u8; 32],
    key_count2: u32,
    peer2: [u8; 32],
    public_key2: Seq<u8>,
)
    requires
        signed_payload(root, key_count, peer, public_key) == signed_payload(
            root2,
            key_count2,
            peer2,
            public_key2,
        ),
    ensures
        root == root2,
        key_count == key_count2,
        peer == peer2,
        public_key == public_key2,
{
    vstd::bytes::lemma_auto_spec_u32_to_from_le_bytes();
    let a = signed_payload(root, key_count, peer, public_key);
    let b = signed_payload(root2, key_count2, peer2, public_key2);
    let n = DOMAIN_SIGNATURE.spec_bytes().len() as int;
    let word = vstd::bytes::spec_u32_to_le_bytes(key_count);
    let word2 = vstd::bytes::spec_u32_to_le_bytes(key_count2);
    assert(a.subrange(n, n + 32) =~= root@ && b.subrange(n, n + 32) =~= root2@);
    assert(a.subrange(n + 32, n + 36) =~= word && b.subrange(n + 32, n + 36) =~= word2);
    assert(a.subrange(n + 36, n + 68) =~= peer@ && b.subrange(n + 36, n + 68) =~= peer2@);
    assert(a.skip(n + 68) =~= public_key && b.skip(n + 68) =~= public_key2);
    assert(root =~= root2 && peer =~= peer2);
}

/// A path shows a leaf just where the tree is one that a commitment may have, the leaf lies in it,
/// the path is as long as the tree is deep, and the leaf folds to the root by way of it.
pub proof fn path_shows_leaf_in_tree(
    leaf: [u8; 32],
    path: Seq<[u8; 32]>,
    index: int,
    key_count: u32,
    root: [u8; 32],
)
    ensures
        path_valid(leaf, path, index, key_count, root) <==> 1 <= key_count <= 1_000_000 && index
            < key_count && path.len() == merkle::depth(key_count as nat) && merkle::fold_path(
            "autonomi.ant.replication.storage-commitment.node.v1".spec_bytes(),
            leaf,
            index,
            path,
        ) == root,
{
}

/// A varint ends where it ends: what follows it can be told apart.
proof fn varint_is_prefix_free(a: nat, x: Seq<u8>, b: nat, y: Seq<u8>)
    requires
        varint(a) + x == varint(b) + y,
    ensures
        a == b,
        x == y,
    decreases a,
{
    let left = varint(a) + x;
    let right = varint(b) + y;
    assert(left[0] == right[0]);
    assert(left[0] == varint(a)[0] && right[0] == varint(b)[0]);
    assert(varint(a)[0] == if a < 128 {
        a as u8
    } else {
        (a % 128 + 128) as u8
    });
    assert(varint(b)[0] == if b < 128 {
        b as u8
    } else {
        (b % 128 + 128) as u8
    });
    if a < 128 || b < 128 {
        assert(a < 128 && b < 128);
        assert(varint(a) =~= seq![a as u8] && varint(b) =~= seq![b as u8]);
        assert(x =~= left.skip(1));
        assert(y =~= right.skip(1));
    } else {
        assert(left.skip(1) =~= varint(a / 128) + x);
        assert(right.skip(1) =~= varint(b / 128) + y);
        varint_is_prefix_free(a / 128, x, b / 128, y);
        assert(a % 128 == b % 128);
        assert(a == 128 * (a / 128) + a % 128 && b == 128 * (b / 128) + b % 128);
    }
}

/// Equal sums with equally long first parts have equal parts.
proof fn sums_split(a: Seq<u8>, x: Seq<u8>, b: Seq<u8>, y: Seq<u8>)
    requires
        a + x == b + y,
        a.len() == b.len(),
    ensures
        a == b,
        x == y,
{
    assert(a =~= (a + x).take(a.len() as int));
    assert(b =~= (b + y).take(b.len() as int));
    assert(x =~= (a + x).skip(a.len() as int));
    assert(y =~= (b + y).skip(b.len() as int));
}

/// Different commitments have different encodings.
pub proof fn wire_bytes_tell_commitments_apart(a: CommitmentView, b: CommitmentView)
    requires
        wire_bytes(a) == wire_bytes(b),
    ensures
        a == b,
{
    let a5 = varint(a.signature.len()) + a.signature;
    let a4 = a.sender_public_key + a5;
    let a3 = varint(a.sender_public_key.len()) + a4;
    let a2 = a.sender_peer_id@ + a3;
    let a1 = varint(a.key_count as nat) + a2;
    let b5 = varint(b.signature.len()) + b.signature;
    let b4 = b.sender_public_key + b5;
    let b3 = varint(b.sender_public_key.len()) + b4;
    let b2 = b.sender_peer_id@ + b3;
    let b1 = varint(b.key_count as nat) + b2;
    sums_split(a.root@, a1, b.root@, b1);
    varint_is_prefix_free(a.key_count as nat, a2, b.key_count as nat, b2);
    sums_split(a.sender_peer_id@, a3, b.sender_peer_id@, b3);
    varint_is_prefix_free(a.sender_public_key.len(), a4, b.sender_public_key.len(), b4);
    sums_split(a.sender_public_key, a5, b.sender_public_key, b5);
    varint_is_prefix_free(a.signature.len(), a.signature, b.signature.len(), b.signature);
    assert(a.root =~= b.root);
    assert(a.sender_peer_id =~= b.sender_peer_id);
}

/// A pin determines the commitment, unless the encodings of two commitments are different and
/// have one digest.
pub proof fn pin_determines_commitment(a: CommitmentView, b: CommitmentView)
    requires
        commitment_digest(a) == commitment_digest(b),
    ensures
        a == b || collides((wire_bytes(a), wire_bytes(b))),
{
    if wire_bytes(a) == wire_bytes(b) {
        wire_bytes_tell_commitments_apart(a, b);
    }
}

/// `postcard::to_stdvec` on the fields of a commitment, as a tuple. Postcard writes a tuple and a
/// fixed array as their items, a `u8` as itself, a `u32` as a varint, and a byte slice as the
/// varint of its length and its bytes. Writing to a growing buffer does not fail.
#[verifier::external_body]
fn encode_fields(
    root: &[u8; 32],
    key_count: u32,
    sender_peer_id: &[u8; 32],
    sender_public_key: &[u8],
    signature: &[u8],
) -> (wire: Option<Vec<u8>>)
    ensures
        wire is Some,
        wire->0@ == wire_bytes(
            CommitmentView {
                root: *root,
                key_count,
                sender_peer_id: *sender_peer_id,
                sender_public_key: sender_public_key@,
                signature: signature@,
            },
        ),
{
    postcard::to_stdvec(&(root, key_count, sender_peer_id, sender_public_key, signature)).ok()
}

/// The digest by which a commitment is pinned; nothing where it cannot be encoded, which does not
/// happen.
pub fn commitment_hash(commitment: &StorageCommitment) -> (hash: Option<[u8; 32]>)
    ensures
        hash == Some(commitment_digest(commitment@)),
{
    match encode_fields(
        &commitment.root,
        commitment.key_count,
        &commitment.sender_peer_id,
        commitment.sender_public_key.as_slice(),
        commitment.signature.as_slice(),
    ) {
        Some(wire) => Some(blake3_hash(wire.as_slice())),
        None => None,
    }
}

/// The leaf of a key whose bytes have digest `bytes_hash`.
pub fn leaf_hash(key: &XorName, bytes_hash: &[u8; 32]) -> (leaf: [u8; 32])
    ensures
        leaf == leaf_digest(*key, *bytes_hash),
{
    let mut buf: Vec<u8> = Vec::new();
    append(&mut buf, DOMAIN_LEAF.as_bytes());
    append(&mut buf, key.as_slice());
    append(&mut buf, bytes_hash.as_slice());
    assert(buf@ =~= DOMAIN_LEAF.spec_bytes() + key@ + bytes_hash@);
    blake3_hash(buf.as_slice())
}

/// The number of siblings in an inclusion path of a tree with `key_count` leaves.
pub fn path_len(key_count: u32) -> (len: usize)
    ensures
        len == merkle::depth(key_count as nat),
{
    let mut n: u64 = key_count as u64;
    let mut len: usize = 0;
    proof {
        merkle::depth_is_small(key_count as nat);
    }
    while n > 1
        invariant
            len + merkle::depth(n as nat) == merkle::depth(key_count as nat) <= key_count,
            n <= u32::MAX,
        decreases n,
    {
        n = (n + 1) / 2;
        len += 1;
    }
    len
}

/// Whether `path` shows that `leaf` stands at `leaf_index` of a tree of `key_count` leaves with
/// `root`.
pub fn verify_path(
    leaf: &[u8; 32],
    path: &[[u8; 32]],
    leaf_index: usize,
    key_count: u32,
    root: &[u8; 32],
) -> (valid: bool)
    ensures
        valid == path_valid(*leaf, path@, leaf_index as int, key_count, *root),
{
    if key_count == 0 || key_count > MAX_COMMITMENT_KEY_COUNT {
        return false;
    }
    if leaf_index >= key_count as usize || path.len() != path_len(key_count) {
        return false;
    }
    merkle::path_matches(DOMAIN_NODE.as_bytes(), *leaf, leaf_index, path, root)
}

/// What a node signs for a commitment.
fn payload(
    root: &[u8; 32],
    key_count: u32,
    sender_peer_id: &[u8; 32],
    sender_public_key: &[u8],
) -> (message: Vec<u8>)
    ensures
        message@ == signed_payload(*root, key_count, *sender_peer_id, sender_public_key@),
{
    let count_bytes = vstd::bytes::u32_to_le_bytes(key_count);
    let mut message: Vec<u8> = Vec::new();
    append(&mut message, DOMAIN_SIGNATURE.as_bytes());
    append(&mut message, root.as_slice());
    append(&mut message, count_bytes.as_slice());
    append(&mut message, sender_peer_id.as_slice());
    append(&mut message, sender_public_key);
    assert(message@ =~= signed_payload(*root, key_count, *sender_peer_id, sender_public_key@));
    message
}

/// Sign a commitment. The signature is valid under the public key that belongs to `secret_key`.
/// Whether signing succeeds is up to the signer, but for a key of the wrong size it does not.
pub fn sign_commitment(
    secret_key: &[u8],
    root: &[u8; 32],
    key_count: u32,
    sender_peer_id: &[u8; 32],
    sender_public_key: &[u8],
) -> (signature: Result<Vec<u8>, CommitmentError>)
    ensures
        signature is Err ==> signature->Err_0 is SignatureFailed,
        secret_key.len() != 4032 ==> signature is Err,
        signature matches Ok(bytes) ==> forall|public_key: Seq<u8>|
            ml_dsa::is_key_pair(public_key, secret_key@) ==> #[trigger] ml_dsa::signature_valid(
                public_key,
                signed_payload(*root, key_count, *sender_peer_id, sender_public_key@),
                bytes@,
            ),
{
    let message = payload(root, key_count, sender_peer_id, sender_public_key);
    match ml_dsa::sign(secret_key, message.as_slice()) {
        Ok(signature) => Ok(signature),
        Err(reason) => Err(CommitmentError::SignatureFailed(reason)),
    }
}

/// Whether the signature of a commitment is valid under the public key that it carries.
pub fn verify_commitment_signature(commitment: &StorageCommitment) -> (valid: bool)
    ensures
        valid == signed_by_own_key(commitment@),
{
    let message = payload(
        &commitment.root,
        commitment.key_count,
        &commitment.sender_peer_id,
        commitment.sender_public_key.as_slice(),
    );
    ml_dsa::verify(
        commitment.sender_public_key.as_slice(),
        message.as_slice(),
        commitment.signature.as_slice(),
    )
}

/// A key that occurs twice among the entries occurs twice in every order of them.
proof fn repetitions_permute(a: Seq<(XorName, [u8; 32])>, b: Seq<(XorName, [u8; 32])>, i: int)
    requires
        a.to_multiset() == b.to_multiset(),
        0 <= i < a.len() - 1,
        a[i].0 == a[i + 1].0,
    ensures
        exists|p: int, q: int|
            0 <= p < q < b.len() && #[trigger] b[p].0 == a[i].0 && #[trigger] b[q].0 == a[i].0,
{
    broadcast use vstd::seq_lib::group_to_multiset_ensures;
    broadcast use vstd::multiset::group_multiset_axioms;

    let x = a[i];
    let y = a[i + 1];
    assert(a.contains(x) && a.contains(y));
    assert(a.to_multiset().count(x) > 0 && a.to_multiset().count(y) > 0);
    assert(b.contains(x) && b.contains(y));
    let p = choose|p: int| 0 <= p < b.len() && b[p] == x;
    let q = if x == y {
        let rest = a.remove(i);
        assert(rest[i] == y);
        assert(rest.contains(y));
        assert(rest.to_multiset().count(x) > 0);
        let others = b.remove(p);
        assert(others.to_multiset().count(x) > 0);
        assert(others.contains(x));
        let r = choose|r: int| 0 <= r < others.len() && others[r] == x;
        if r < p {
            r
        } else {
            r + 1
        }
    } else {
        choose|q: int| 0 <= q < b.len() && b[q] == y
    };
    assert(p != q && b[q].0 == x.0);
    if p < q {
        assert(b[p].0 == a[i].0 && b[q].0 == a[i].0);
    } else {
        assert(b[q].0 == a[i].0 && b[p].0 == a[i].0);
    }
}

/// The place of the first entry whose key the next one repeats, if there is any.
fn first_repeated(entries: &Vec<(XorName, [u8; 32])>) -> (place: Option<usize>)
    requires
        crate::names::ascending(entries@),
    ensures
        match place {
            Some(i) => i < entries.len() - 1 && entries@[i as int].0 == entries@[i + 1].0,
            None => crate::names::names_distinct(entries@),
        },
{
    let mut i: usize = 1;
    while i < entries.len()
        invariant
            1 <= i,
            entries.len() > 0 ==> i <= entries.len(),
            crate::names::ascending(entries@),
            forall|p: int, q: int|
                0 <= p < q < i && q < entries.len() ==> crate::names::name_before(
                    #[trigger] entries@[p].0,
                    #[trigger] entries@[q].0,
                ),
        decreases entries.len() - i,
    {
        if same_bytes32(&entries[i - 1].0, &entries[i].0) {
            return Some(i - 1);
        }
        proof {
            let last = entries@[i - 1].0;
            let here = entries@[i as int].0;
            crate::names::name_order_is_total(last, here);
            assert forall|p: int, q: int| 0 <= p < q < i + 1 implies crate::names::name_before(
                #[trigger] entries@[p].0,
                #[trigger] entries@[q].0,
            ) by {
                if q == i && p < i - 1 {
                    crate::names::name_order_is_transitive(entries@[p].0, last, here);
                }
            }
        }
        i += 1;
    }
    proof {
        assert forall|p: int, q: int| 0 <= p < q < entries.len() implies (#[trigger] entries@[p].0)
            != (#[trigger] entries@[q].0) by {
            crate::names::name_order_is_strict(entries@[p].0, entries@[q].0);
        }
    }
    None
}

/// Hash every entry into its leaf.
fn hash_leaves(entries: &Vec<(XorName, [u8; 32])>) -> (leaves: Vec<[u8; 32]>)
    ensures
        leaves@ == leaf_level(entries@),
{
    let mut leaves: Vec<[u8; 32]> = Vec::new();
    let mut i: usize = 0;
    while i < entries.len()
        invariant
            i <= entries.len(),
            leaves.len() == i,
            forall|j: int|
                0 <= j < i ==> leaves@[j] == leaf_digest(entries@[j].0, entries@[j].1),
        decreases entries.len() - i,
    {
        leaves.push(leaf_hash(&entries[i].0, &entries[i].1));
        i += 1;
    }
    assert(leaves@ =~= leaf_level(entries@));
    leaves
}

/// The tree behind a commitment: its entries in order, with every level of digests.
pub struct MerkleTree {
    entries: Vec<(XorName, [u8; 32])>,
    levels: Vec<Vec<[u8; 32]>>,
    root: [u8; 32],
}

impl View for MerkleTree {
    type V = Seq<(XorName, [u8; 32])>;

    closed spec fn view(&self) -> Seq<(XorName, [u8; 32])> {
        self.entries@
    }
}

impl MerkleTree {
    /// The entries are in order; each level is the fold of the one below it, up to the root.
    #[verifier::type_invariant]
    spec fn well_formed(self) -> bool {
        &&& committable(self.entries@)
        &&& self.levels.len() > 0
        &&& self.levels@[0]@ == leaf_level(self.entries@)
        &&& forall|h: int|
            0 < h < self.levels.len() ==> (#[trigger] self.levels@[h])@ == merkle::parents(
                DOMAIN_NODE.spec_bytes(),
                self.levels@[h - 1]@,
            )
        &&& forall|h: int| 0 <= h < self.levels.len() - 1 ==> (#[trigger] self.levels@[h]).len() > 1
        &&& self.levels@[self.levels.len() - 1].len() == 1
        &&& self.root == tree_root(self.entries@)
    }

    /// Build the tree over `entries`, each a key and the digest of its bytes, in any order.
    pub fn build(entries: Vec<(XorName, [u8; 32])>) -> (tree: Result<Self, CommitmentError>)
        ensures
            tree is Ok <==> 0 < entries.len() <= MAX_COMMITMENT_KEY_COUNT
                && crate::names::names_distinct(entries@),
            tree matches Ok(built) ==> committable(built@) && built@.to_multiset()
                == entries@.to_multiset(),
            tree matches Err(e) ==> match e {
                CommitmentError::EmptyKeySet => entries.len() == 0,
                CommitmentError::TooManyKeys { count } => count == entries.len() && count
                    > MAX_COMMITMENT_KEY_COUNT,
                CommitmentError::DuplicateKey { key } => 0 < entries.len()
                    <= MAX_COMMITMENT_KEY_COUNT && exists|i: int, j: int|
                    0 <= i < j < entries.len() && #[trigger] entries@[i].0 == key
                        && #[trigger] entries@[j].0 == key,
                CommitmentError::SignatureFailed(_) => false,
            },
    {
        if entries.len() == 0 {
            return Err(CommitmentError::EmptyKeySet);
        }
        if entries.len() > MAX_COMMITMENT_KEY_COUNT as usize {
            return Err(CommitmentError::TooManyKeys { count: entries.len() });
        }
        let sorted = sort_entries(&entries);
        proof {
            broadcast use vstd::seq_lib::group_to_multiset_ensures;

            assert(sorted@.to_multiset().len() == entries@.to_multiset().len());
        }
        if let Some(place) = first_repeated(&sorted) {
            proof {
                repetitions_permute(sorted@, entries@, place as int);
            }
            return Err(CommitmentError::DuplicateKey { key: sorted[place].0 });
        }
        proof {
            crate::names::distinct_ascending_is_strict(sorted@);
            crate::names::distinct_names_permute(sorted@, entries@);
        }
        let leaves = hash_leaves(&sorted);
        let mut levels: Vec<Vec<[u8; 32]>> = Vec::new();
        let mut level = leaves;
        let ghost leaf_digests = level@;
        while level.len() > 1
            invariant
                level.len() > 0,
                merkle::root(DOMAIN_NODE.spec_bytes(), level@) == merkle::root(
                    DOMAIN_NODE.spec_bytes(),
                    leaf_digests,
                ),
                levels.len() == 0 ==> level@ == leaf_digests,
                levels.len() > 0 ==> levels@[0]@ == leaf_digests,
                levels.len() > 0 ==> level@ == merkle::parents(
                    DOMAIN_NODE.spec_bytes(),
                    levels@[levels.len() - 1]@,
                ),
                forall|h: int|
                    0 < h < levels.len() ==> (#[trigger] levels@[h])@ == merkle::parents(
                        DOMAIN_NODE.spec_bytes(),
                        levels@[h - 1]@,
                    ),
                forall|h: int| 0 <= h < levels.len() ==> (#[trigger] levels@[h]).len() > 1,
            decreases level.len(),
        {
            let next = merkle::fold_level(DOMAIN_NODE.as_bytes(), level.as_slice());
            levels.push(level);
            level = next;
        }
        let root = level[0];
        levels.push(level);
        Ok(MerkleTree { entries: sorted, levels, root })
    }

    /// The root of the tree.
    pub fn root(&self) -> (root: [u8; 32])
        ensures
            root == tree_root(self@),
    {
        proof {
            use_type_invariant(self);
        }
        self.root
    }

    /// How many keys the tree covers.
    pub fn key_count(&self) -> (count: u32)
        ensures
            count == self@.len(),
            committable(self@),
    {
        proof {
            use_type_invariant(self);
        }
        self.entries.len() as u32
    }

    /// The keys of the tree, ascending.
    pub fn sorted_keys(&self) -> (keys: Vec<XorName>)
        ensures
            keys@ == self@.map_values(|entry: (XorName, [u8; 32])| entry.0),
    {
        let mut keys: Vec<XorName> = Vec::new();
        let mut i: usize = 0;
        while i < self.entries.len()
            invariant
                i <= self.entries.len(),
                keys.len() == i,
                forall|j: int| 0 <= j < i ==> keys@[j] == self.entries@[j].0,
            decreases self.entries.len() - i,
        {
            keys.push(self.entries[i].0);
            i += 1;
        }
        assert(keys@ =~= self@.map_values(|entry: (XorName, [u8; 32])| entry.0));
        keys
    }

    /// The entry at leaf `index`.
    pub fn entry(&self, index: usize) -> (entry: (XorName, [u8; 32]))
        requires
            index < self@.len(),
        ensures
            entry == self@[index as int],
    {
        self.entries[index]
    }

    /// Where the tree holds `key`, if it does.
    pub fn index_of(&self, key: &XorName) -> (index: Option<usize>)
        ensures
            match index {
                Some(i) => i < self@.len() && self@[i as int].0 == *key,
                None => forall|i: int| 0 <= i < self@.len() ==> (#[trigger] self@[i].0) != *key,
            },
    {
        proof {
            use_type_invariant(self);
        }
        match search_entries(&self.entries, key) {
            Ok(index) => Some(index),
            Err(_) => None,
        }
    }

    /// The levels are those above the leaves, one for each fold and the leaves themselves.
    proof fn levels_are_exact(&self, h: int)
        requires
            self.well_formed(),
            0 <= h < self.levels.len(),
        ensures
            h <= merkle::depth(self@.len()),
            self.levels@[h]@ == merkle::level_above(
                DOMAIN_NODE.spec_bytes(),
                leaf_level(self@),
                h as nat,
            ),
            h == self.levels.len() - 1 ==> h == merkle::depth(self@.len()),
        decreases h,
    {
        let domain = DOMAIN_NODE.spec_bytes();
        if h > 0 {
            self.levels_are_exact(h - 1);
            merkle::levels_share_root(domain, leaf_level(self@), (h - 1) as nat);
            assert(self.levels@[h - 1].len() > 1);
        }
        merkle::levels_share_root(domain, leaf_level(self@), h as nat);
    }

    /// The siblings on the way from the node at `index` of the level at `height` to the root.
    pub fn siblings_from(&self, height: usize, index: usize) -> (path: Vec<[u8; 32]>)
        requires
            height <= merkle::depth(self@.len()),
            index < merkle::level_above(
                DOMAIN_NODE.spec_bytes(),
                leaf_level(self@),
                height as nat,
            ).len(),
        ensures
            path@ == merkle::siblings(
                DOMAIN_NODE.spec_bytes(),
                merkle::level_above(DOMAIN_NODE.spec_bytes(), leaf_level(self@), height as nat),
                index as int,
            ),
    {
        proof {
            use_type_invariant(self);
            self.levels_are_exact(self.levels.len() - 1);
            self.levels_are_exact(height as int);
        }
        let mut path: Vec<[u8; 32]> = Vec::new();
        let mut i: usize = index;
        let mut h: usize = height;
        let ghost all = merkle::siblings(
            DOMAIN_NODE.spec_bytes(),
            self.levels@[height as int]@,
            index as int,
        );
        assert(path@ + all =~= all);
        while h < self.levels.len() - 1
            invariant
                self.well_formed(),
                h < self.levels.len(),
                i < self.levels@[h as int].len(),
                path@ + merkle::siblings(
                    DOMAIN_NODE.spec_bytes(),
                    self.levels@[h as int]@,
                    i as int,
                ) == all,
            decreases self.levels.len() - h,
        {
            let level = &self.levels[h];
            proof {
                assert(self.levels@[h + 1]@ == merkle::parents(
                    DOMAIN_NODE.spec_bytes(),
                    self.levels@[h as int]@,
                ));
            }
            let other: usize = if i % 2 == 0 {
                i + 1
            } else {
                i - 1
            };
            let digest = if other < level.len() {
                level[other]
            } else {
                level[i]
            };
            let ghost before = path@;
            path.push(digest);
            proof {
                let rest = merkle::siblings(
                    DOMAIN_NODE.spec_bytes(),
                    self.levels@[h + 1]@,
                    i as int / 2,
                );
                assert(path@ + rest =~= before + (seq![digest] + rest));
            }
            i = i / 2;
            h += 1;
        }
        assert(path@ =~= all);
        path
    }

    /// The inclusion path of the leaf at `index`.
    pub fn path_at(&self, index: usize) -> (path: Vec<[u8; 32]>)
        requires
            index < self@.len(),
        ensures
            path@ == tree_path(self@, index as int),
    {
        self.siblings_from(0, index)
    }

    /// The inclusion path of `key`; nothing where the tree does not hold it.
    pub fn path_for(&self, key: &XorName) -> (path: Option<Vec<[u8; 32]>>)
        ensures
            match path {
                Some(digests) => exists|i: int|
                    0 <= i < self@.len() && (#[trigger] self@[i].0) == *key && digests@
                        == tree_path(self@, i),
                None => forall|i: int| 0 <= i < self@.len() ==> (#[trigger] self@[i].0) != *key,
            },
    {
        match self.index_of(key) {
            Some(index) => Some(self.path_at(index)),
            None => None,
        }
    }
}

} // verus!
