//! The branch of a committed tree that an audit asks for, and the proof of it.
//!
//! The auditor's nonce walks the tree from the root, one bit for each level, and stops before the
//! branch would hold fewer leaves than the square root of their number. Both sides walk alike, so
//! the responder has no choice of branch, and no nonce selects an empty one. The proof holds the
//! leaves of the branch and one digest for each level above it.

use crate::ant_protocol::XorName;
use crate::hashing::{append, blake3_hash, collides};
use crate::names::comes_before;
use crate::replication::commitment;
use crate::replication::commitment::{
    leaf_hash, CommitmentView, MerkleTree, StorageCommitment, DOMAIN_NODE,
    MAX_COMMITMENT_KEY_COUNT,
};
use crate::replication::merkle;
use crate::replication::protocol;
use crate::replication::protocol::compute_audit_digest;
use crate::roots;
use vstd::arithmetic::power2;
use vstd::prelude::*;
use vstd::string::*;

verus! {

/// A tree of no more keys than this is proved whole.
pub const WHOLE_TREE_KEYS: u32 = 4;

/// The leaves under the node at `index` of the level at `height`, in a tree of `key_count` leaves.
pub open spec fn real_leaves(key_count: nat, height: nat, index: nat) -> nat {
    let width = power2::pow2(height);
    let start = index * width;
    if key_count <= start {
        0
    } else if key_count - start < width {
        (key_count - start) as nat
    } else {
        width
    }
}

/// The weight of bit `k` of a byte, counted from the highest.
pub open spec fn bit_weight(k: nat) -> nat {
    if k == 0 {
        128
    } else if k == 1 {
        64
    } else if k == 2 {
        32
    } else if k == 3 {
        16
    } else if k == 4 {
        8
    } else if k == 5 {
        4
    } else if k == 6 {
        2
    } else {
        1
    }
}

/// Bit `k` of the nonce, counted from the highest bit of its first byte.
pub open spec fn nonce_bit(nonce: [u8; 32], k: nat) -> bool {
    (nonce[k as int / 8] as nat / bit_weight(k % 8)) % 2 == 1
}

/// The child that the nonce picks below a node at `height` of a tree of `depth` folds: the left
/// one where the bit for that level is set.
pub open spec fn picked_child(nonce: [u8; 32], depth: nat, height: nat, index: nat) -> nat {
    if nonce_bit(nonce, (depth - height) as nat) {
        2 * index
    } else {
        2 * index + 1
    }
}

/// Where the walk ends that has come to the node at `index` of the level at `height`: it goes down
/// as long as the picked child holds at least `least` leaves.
pub open spec fn walk(
    nonce: [u8; 32],
    key_count: nat,
    least: nat,
    height: nat,
    index: nat,
) -> (nat, nat)
    decreases height,
{
    if height == 0 {
        (height, index)
    } else {
        let child = picked_child(nonce, merkle::depth(key_count), height, index);
        if real_leaves(key_count, (height - 1) as nat, child) >= least {
            walk(nonce, key_count, least, (height - 1) as nat, child)
        } else {
            (height, index)
        }
    }
}

/// The height and index of the branch that the nonce selects.
pub open spec fn selected(nonce: [u8; 32], key_count: nat) -> (nat, nat) {
    if key_count <= WHOLE_TREE_KEYS {
        (merkle::depth(key_count), 0)
    } else {
        walk(nonce, key_count, roots::ceil_sqrt(key_count), merkle::depth(key_count), 0)
    }
}

/// What a walk keeps: it stays inside the tree and never drops below `least` leaves, and it stops
/// only where the next step would.
proof fn walk_keeps_floor(
    nonce: [u8; 32],
    key_count: nat,
    least: nat,
    height: nat,
    index: nat,
)
    requires
        0 < least <= real_leaves(key_count, height, index),
        height <= merkle::depth(key_count),
    ensures
        ({
            let (h, j) = walk(nonce, key_count, least, height, index);
            &&& h <= height
            &&& real_leaves(key_count, h, j) >= least
            &&& h > 0 ==> real_leaves(
                key_count,
                (h - 1) as nat,
                picked_child(nonce, merkle::depth(key_count), h, j),
            ) < least
        }),
    decreases height,
{
    if height > 0 {
        let child = picked_child(nonce, merkle::depth(key_count), height, index);
        if real_leaves(key_count, (height - 1) as nat, child) >= least {
            walk_keeps_floor(nonce, key_count, least, (height - 1) as nat, child);
        }
    }
}

/// The root has every leaf under it.
proof fn root_covers_all(key_count: nat)
    ensures
        real_leaves(key_count, merkle::depth(key_count), 0) == key_count,
{
    merkle::depth_is_log2(key_count);
    let width = power2::pow2(merkle::depth(key_count));
    assert(0 * width == 0) by (nonlinear_arith);
}

/// No nonce selects a branch with fewer leaves than the square root of their number, rounded up.
/// In a tree of more than a few keys the branch is the smallest such one on the nonce's way: the
/// next step down would leave fewer.
pub proof fn selection_holds_root_of_keys(nonce: [u8; 32], key_count: nat)
    requires
        key_count > 0,
    ensures
        ({
            let (h, j) = selected(nonce, key_count);
            let count = real_leaves(key_count, h, j);
            &&& h <= merkle::depth(key_count)
            &&& count > 0
            &&& count * count >= key_count
            &&& count >= roots::ceil_sqrt(key_count)
            &&& j * power2::pow2(h) < key_count
            &&& key_count > WHOLE_TREE_KEYS && h > 0 ==> real_leaves(
                key_count,
                (h - 1) as nat,
                picked_child(nonce, merkle::depth(key_count), h, j),
            ) < roots::ceil_sqrt(key_count)
            &&& key_count <= WHOLE_TREE_KEYS ==> count == key_count
        }),
{
    root_covers_all(key_count);
    roots::ceil_sqrt_bounds(key_count);
    let least = roots::ceil_sqrt(key_count);
    if key_count > WHOLE_TREE_KEYS {
        walk_keeps_floor(nonce, key_count, least, merkle::depth(key_count), 0);
    }
    let (h, j) = selected(nonce, key_count);
    let count = real_leaves(key_count, h, j);
    assert(count * count >= least * least) by (nonlinear_arith)
        requires
            count >= least,
            least >= 0,
    ;
}

/// A tree that a commitment may cover has no more than twenty folds.
proof fn depth_in_range(key_count: nat)
    requires
        key_count <= MAX_COMMITMENT_KEY_COUNT,
    ensures
        merkle::depth(key_count) <= 20,
        power2::pow2(merkle::depth(key_count)) <= 0x10_0000,
{
    merkle::depth_is_log2(key_count);
    power2::lemma2_to64();
    let d = merkle::depth(key_count);
    if d > 20 {
        if d - 1 > 20 {
            power2::lemma_pow2_strictly_increases(20, (d - 1) as nat);
        }
    }
    if d < 20 {
        power2::lemma_pow2_strictly_increases(d, 20);
    }
}

/// The branch that a nonce selects in a tree.
#[derive(Clone, Copy, Debug, PartialEq, Eq, Structural)]
pub struct SubtreePath {
    /// How many folds the root of the branch is above the leaves.
    pub height: u32,
    /// The index of the root of the branch in its level.
    pub index: u32,
    /// The first leaf of the branch.
    pub first_leaf: u32,
    /// How many leaves the branch has.
    pub leaf_count: u32,
    /// How many folds the root of the tree is above that of the branch.
    pub cut_count: u32,
}

impl SubtreePath {
    /// Whether this is the branch that `nonce` selects among `key_count` leaves.
    pub open spec fn is_selected(self, nonce: [u8; 32], key_count: nat) -> bool {
        let (h, j) = selected(nonce, key_count);
        &&& self.height == h
        &&& self.index == j
        &&& self.first_leaf == j * power2::pow2(h)
        &&& self.leaf_count == real_leaves(key_count, h, j)
        &&& self.cut_count == merkle::depth(key_count) - h
    }

    /// How many leaves the branch has.
    pub fn real_leaf_count(&self) -> (count: u32)
        ensures
            count == self.leaf_count,
    {
        self.leaf_count
    }
}

/// Bit `k` of the nonce.
fn read_bit(nonce: &[u8; 32], k: u32) -> (bit: bool)
    requires
        k < 256,
    ensures
        bit == nonce_bit(*nonce, k as nat),
{
    let byte: u8 = nonce[(k / 8) as usize];
    let place: u32 = k % 8;
    let weight: u8 = if place == 0 {
        128
    } else if place == 1 {
        64
    } else if place == 2 {
        32
    } else if place == 3 {
        16
    } else if place == 4 {
        8
    } else if place == 5 {
        4
    } else if place == 6 {
        2
    } else {
        1
    };
    (byte / weight) % 2 == 1
}

/// How many folds a tree of `key_count` leaves has, and two to that power.
fn tree_extent(key_count: u32) -> (extent: (u32, u64))
    requires
        key_count <= MAX_COMMITMENT_KEY_COUNT,
    ensures
        extent.0 == merkle::depth(key_count as nat),
        extent.1 == power2::pow2(merkle::depth(key_count as nat)),
{
    let mut n: u32 = key_count;
    let mut depth: u32 = 0;
    let mut width: u64 = 1;
    proof {
        power2::lemma2_to64();
        depth_in_range(key_count as nat);
    }
    while n > 1
        invariant
            n <= MAX_COMMITMENT_KEY_COUNT,
            depth + merkle::depth(n as nat) == merkle::depth(key_count as nat) <= 20,
            width == power2::pow2(depth as nat),
            power2::pow2(merkle::depth(key_count as nat)) <= 0x10_0000,
        decreases n,
    {
        proof {
            power2::lemma_pow2_unfold((depth + 1) as nat);
            if depth + 1 < merkle::depth(key_count as nat) {
                power2::lemma_pow2_strictly_increases(
                    (depth + 1) as nat,
                    merkle::depth(key_count as nat),
                );
            }
        }
        n = (n + 1) / 2;
        depth += 1;
        width = width * 2;
    }
    (depth, width)
}

/// The branch that `nonce` selects in a tree of `key_count` leaves; nothing where a commitment may
/// not cover that many.
pub fn select_subtree_path(nonce: &[u8; 32], key_count: u32) -> (path: Option<SubtreePath>)
    ensures
        path is Some <==> 0 < key_count <= MAX_COMMITMENT_KEY_COUNT,
        path matches Some(p) ==> p.is_selected(*nonce, key_count as nat),
{
    if key_count == 0 || key_count > MAX_COMMITMENT_KEY_COUNT {
        return None;
    }
    let (depth, full_width) = tree_extent(key_count);
    let ghost n = key_count as nat;
    proof {
        depth_in_range(n);
        root_covers_all(n);
        roots::ceil_sqrt_bounds(n);
        assert(0 * power2::pow2(depth as nat) == 0) by (nonlinear_arith);
    }
    let mut height: u32 = depth;
    let mut index: u32 = 0;
    let mut start: u64 = 0;
    let mut width: u64 = full_width;
    let mut count: u64 = key_count as u64;
    if key_count > WHOLE_TREE_KEYS {
        let least: u64 = roots::compute_ceil_sqrt(key_count as u64);
        let mut stop = false;
        while !stop && height > 0
            invariant
                n == key_count <= MAX_COMMITMENT_KEY_COUNT,
                depth == merkle::depth(n) <= 20,
                height <= depth,
                least == roots::ceil_sqrt(n),
                least > 0,
                index <= start < n,
                start == index * power2::pow2(height as nat),
                width == power2::pow2(height as nat),
                width <= 0x10_0000,
                count == real_leaves(n, height as nat, index as nat) >= least,
                walk(*nonce, n, least as nat, height as nat, index as nat) == walk(
                    *nonce,
                    n,
                    least as nat,
                    depth as nat,
                    0,
                ),
                stop ==> walk(*nonce, n, least as nat, height as nat, index as nat) == (
                    height as nat,
                    index as nat,
                ),
            decreases (if stop { 0int } else { height + 1int }),
        {
            let half: u64 = width / 2;
            let left = read_bit(nonce, depth - height);
            let ghost child = picked_child(*nonce, depth as nat, height as nat, index as nat);
            let ghost w = power2::pow2((height - 1) as nat);
            proof {
                power2::lemma_pow2_unfold(height as nat);
                power2::lemma_pow2_pos((height - 1) as nat);
                assert(index * (2 * w) == (2 * index) * w) by (nonlinear_arith);
                assert((2 * index + 1) * w == (2 * index) * w + w) by (nonlinear_arith);
            }
            let child_start: u64 = if left {
                start
            } else {
                start + half
            };
            let child_count: u64 = if key_count as u64 <= child_start {
                0
            } else if key_count as u64 - child_start < half {
                key_count as u64 - child_start
            } else {
                half
            };
            assert(child_start == child * w);
            assert(child_count == real_leaves(n, (height - 1) as nat, child));
            if child_count >= least {
                proof {
                    assert(child <= child * w) by (nonlinear_arith)
                        requires
                            w >= 1,
                            child >= 0,
                    ;
                }
                height -= 1;
                index = if left {
                    2 * index
                } else {
                    2 * index + 1
                };
                start = child_start;
                width = half;
                count = child_count;
            } else {
                stop = true;
            }
        }
    }
    Some(
        SubtreePath {
            height,
            index,
            first_leaf: start as u32,
            leaf_count: count as u32,
            cut_count: depth - height,
        },
    )
}

/// Going down from a node, the walk turns left where the nonce's bit for that level is set and
/// right elsewhere.
proof fn walk_turns(nonce: [u8; 32], key_count: nat, least: nat, height: nat, index: nat)
    requires
        height <= merkle::depth(key_count),
    ensures
        ({
            let (h, j) = walk(nonce, key_count, least, height, index);
            &&& h <= height
            &&& j as int / power2::pow2((height - h) as nat) as int == index
            &&& forall|g: nat|
                h <= g < height ==> {
                    (#[trigger] (j as int / power2::pow2((g - h) as nat) as int) % 2 == 0)
                        == nonce_bit(nonce, (merkle::depth(key_count) - 1 - g) as nat)
                }
        }),
    decreases height,
{
    power2::lemma2_to64();
    let (h, j) = walk(nonce, key_count, least, height, index);
    if h == height {
        assert(power2::pow2((height - h) as nat) == 1);
    }
    if height > 0 {
        let below = (height - 1) as nat;
        let child = picked_child(nonce, merkle::depth(key_count), height, index);
        if real_leaves(key_count, below, child) >= least {
            walk_turns(nonce, key_count, least, below, child);
            let w = power2::pow2((below - h) as nat) as int;
            power2::lemma_pow2_unfold((height - h) as nat);
            power2::lemma_pow2_pos((below - h) as nat);
            vstd::arithmetic::div_mod::lemma_div_denominator(j as int, w, 2);
            assert(w * 2 == power2::pow2((height - h) as nat));
            assert forall|g: nat| h <= g < height implies {
                (#[trigger] (j as int / power2::pow2((g - h) as nat) as int) % 2 == 0) == nonce_bit(
                    nonce,
                    (merkle::depth(key_count) - 1 - g) as nat,
                )
            } by {
                if g == below {
                    assert(j as int / w == child);
                }
            }
        }
    }
}

/// The weight of a bit is the power of two that it stands for.
proof fn bit_weights()
    ensures
        forall|k: nat| k < 8 ==> #[trigger] bit_weight(k) == power2::pow2((7 - k) as nat),
{
    power2::lemma2_to64();
    assert forall|k: nat| k < 8 implies #[trigger] bit_weight(k) == power2::pow2(
        (7 - k) as nat,
    ) by {
        assert(k == 0 || k == 1 || k == 2 || k == 3 || k == 4 || k == 5 || k == 6 || k == 7);
    }
}

/// In a tree of more than a few keys the nonce fixes which branch is selected. The branch is a
/// node of the tree, and holds the leaves under it. Every turn on the way down to it, from the
/// node at height `g + 1` to that at `g`, goes left where the nonce's next bit is set, counted
/// from the highest bit of its first byte, and right where it is not. And the way ends as soon as
/// one more such turn would leave fewer leaves than the square root of their number.
pub proof fn selection_follows_bits(nonce: [u8; 32], key_count: u32, p: SubtreePath)
    requires
        4 < key_count <= MAX_COMMITMENT_KEY_COUNT,
        p.is_selected(nonce, key_count as nat),
    ensures
        ({
            let n = key_count as int;
            let depth = p.height + p.cut_count;
            let width = power2::pow2(p.height as nat) as int;
            let first = p.index * width;
            &&& power2::pow2((depth - 1) as nat) < n <= power2::pow2(depth as nat)
            &&& p.index < power2::pow2(p.cut_count as nat)
            &&& p.first_leaf == first
            &&& p.leaf_count == if first + width <= n {
                width
            } else {
                n - first
            }
            &&& forall|g: nat|
                p.height <= g < depth ==> {
                    let k = depth - 1 - g;
                    (#[trigger] (p.index as int / power2::pow2((g - p.height) as nat) as int) % 2
                        == 0) == (nonce[k / 8] as int / power2::pow2((7 - k % 8) as nat) as int % 2
                        == 1)
                }
            &&& p.leaf_count * p.leaf_count >= n
            &&& p.height > 0 ==> {
                let k = p.cut_count as int;
                let half = power2::pow2((p.height - 1) as nat) as int;
                let start = if nonce[k / 8] as int / power2::pow2((7 - k % 8) as nat) as int % 2
                    == 1 {
                    first
                } else {
                    first + half
                };
                let left = if start + half <= n {
                    half
                } else if start <= n {
                    n - start
                } else {
                    0
                };
                left * left < n
            }
        }),
{
    let n = key_count as nat;
    let d = merkle::depth(n);
    let least = roots::ceil_sqrt(n);
    let (h, j) = selected(nonce, n);
    merkle::depth_is_log2(n);
    depth_in_range(n);
    selection_holds_root_of_keys(nonce, n);
    walk_turns(nonce, n, least, d, 0);
    bit_weights();
    let width = power2::pow2(h) as int;
    power2::lemma_pow2_pos(h);
    power2::lemma_pow2_pos((d - h) as nat);
    let cut_width = power2::pow2((d - h) as nat) as int;
    assert(j < cut_width) by {
        vstd::arithmetic::div_mod::lemma_fundamental_div_mod(j as int, cut_width);
        vstd::arithmetic::div_mod::lemma_mod_bound(j as int, cut_width);
        assert(cut_width * 0 == 0);
    }
    if h > 0 {
        let half = power2::pow2((h - 1) as nat) as int;
        let child = picked_child(nonce, d, h, j);
        power2::lemma_pow2_unfold(h);
        assert(j * (2 * half) == (2 * j) * half) by (nonlinear_arith);
        assert((2 * j + 1) * half == (2 * j) * half + half) by (nonlinear_arith);
        roots::ceil_sqrt_bounds(n);
        let left = real_leaves(n, (h - 1) as nat, child) as int;
        assert(left * left <= (least - 1) * (least - 1)) by (nonlinear_arith)
            requires
                0 <= left <= least - 1,
        ;
    }
}

/// A tree of a few keys is selected whole, whatever the nonce.
pub proof fn few_keys_are_selected_whole(nonce: [u8; 32], key_count: u32, p: SubtreePath)
    requires
        0 < key_count <= 4,
        p.is_selected(nonce, key_count as nat),
    ensures
        p.index == 0,
        p.first_leaf == 0,
        p.leaf_count == key_count,
        p.cut_count == 0,
{
    root_covers_all(key_count as nat);
    assert(0 * power2::pow2(merkle::depth(key_count as nat)) == 0) by (nonlinear_arith);
}

/// A byte with one of its bits set or cleared keeps its other bits.
proof fn byte_with_bit(b: u8, k: nat, set: bool) -> (changed: u8)
    requires
        k < 8,
    ensures
        forall|i: nat|
            i < 8 ==> ((changed as nat / #[trigger] bit_weight(i)) % 2 == 1) == (if i == k {
                set
            } else {
                (b as nat / bit_weight(i)) % 2 == 1
            }),
{
    let place = k as u8;
    let changed = if set {
        b | (128u8 >> place)
    } else {
        b & !(128u8 >> place)
    };
    assert forall|i: nat| i < 8 implies ((changed as nat / #[trigger] bit_weight(i)) % 2 == 1) == (
    if i == k {
        set
    } else {
        (b as nat / bit_weight(i)) % 2 == 1
    }) by {
        let other = i as u8;
        assert((((b | (128u8 >> place)) / (128u8 >> other)) % 2 == 1) == (place == other || (b / (
        128u8 >> other)) % 2 == 1)) by (bit_vector)
            requires
                place < 8,
                other < 8,
        ;
        assert((((b & !(128u8 >> place)) / (128u8 >> other)) % 2 == 1) == (place != other && (b / (
        128u8 >> other)) % 2 == 1)) by (bit_vector)
            requires
                place < 8,
                other < 8,
        ;
        assert(128u8 >> 0 == 128u8 && 128u8 >> 1 == 64u8 && 128u8 >> 2 == 32u8 && 128u8 >> 3
            == 16u8 && 128u8 >> 4 == 8u8 && 128u8 >> 5 == 4u8 && 128u8 >> 6 == 2u8 && 128u8 >> 7
            == 1u8) by (bit_vector);
        assert(128u8 >> other == bit_weight(i));
    }
    changed
}

/// Bits can be asked of a nonce at will.
proof fn nonce_with_bits(wanted: spec_fn(nat) -> bool, count: nat) -> (nonce: [u8; 32])
    requires
        count <= 256,
    ensures
        forall|k: nat| k < count ==> #[trigger] nonce_bit(nonce, k) == wanted(k),
    decreases count,
{
    if count == 0 {
        vstd::array::spec_array_fill_for_copy_type(0u8)
    } else {
        let last = (count - 1) as nat;
        let before = nonce_with_bits(wanted, last);
        let at = last as int / 8;
        let byte = byte_with_bit(before[at], last % 8, wanted(last));
        let nonce = vstd::array::spec_array_update(before, at, byte);
        assert(nonce@ == before@.update(at, byte));
        assert forall|k: nat| k < count implies #[trigger] nonce_bit(nonce, k) == wanted(k) by {
            if k < last {
                assert(nonce_bit(before, k) == wanted(k));
            }
            assert(nonce[k as int / 8] == nonce@[k as int / 8]);
            if k as int / 8 == at {
                assert(k % 8 == last % 8 ==> k == last);
                assert(bit_weight(k % 8) == bit_weight(k % 8));
            } else {
                assert(nonce@[k as int / 8] == before@[k as int / 8]);
            }
        }
        nonce
    }
}

/// A walk that turns to a leaf at every level ends in a branch that holds the leaf.
proof fn walk_to_leaf(nonce: [u8; 32], key_count: nat, least: nat, height: nat, leaf: nat)
    requires
        height <= merkle::depth(key_count),
        forall|k: nat|
            k < merkle::depth(key_count) ==> #[trigger] nonce_bit(nonce, k) == (leaf as int
                / power2::pow2((merkle::depth(key_count) - 1 - k) as nat) as int % 2 == 0),
    ensures
        ({
            let at = (leaf as int / power2::pow2(height) as int) as nat;
            let (h, j) = walk(nonce, key_count, least, height, at);
            j == leaf as int / power2::pow2(h) as int
        }),
    decreases height,
{
    power2::lemma_pow2_pos(height);
    vstd::arithmetic::div_mod::lemma_div_pos_is_pos(leaf as int, power2::pow2(height) as int);
    if height > 0 {
        let d = merkle::depth(key_count);
        let below = (height - 1) as nat;
        let at = (leaf as int / power2::pow2(height) as int) as nat;
        let w = power2::pow2(below) as int;
        power2::lemma_pow2_unfold(height);
        power2::lemma_pow2_pos(below);
        vstd::arithmetic::div_mod::lemma_div_denominator(leaf as int, w, 2);
        vstd::arithmetic::div_mod::lemma_div_pos_is_pos(leaf as int, w);
        assert(w * 2 == power2::pow2(height));
        assert(nonce_bit(nonce, (d - height) as nat) == (leaf as int / w % 2 == 0));
        assert(picked_child(nonce, d, height, at) == leaf as int / w);
        walk_to_leaf(nonce, key_count, least, below, leaf);
    }
}

/// No leaf of a tree is out of an audit's reach: for each there is a nonce whose selected branch
/// holds it.
pub proof fn every_leaf_can_be_selected(key_count: u32, leaf: u32)
    requires
        leaf < key_count <= MAX_COMMITMENT_KEY_COUNT,
    ensures
        exists|nonce: [u8; 32], p: SubtreePath| #[trigger]
            p.is_selected(nonce, key_count as nat) && p.first_leaf <= leaf < p.first_leaf
                + p.leaf_count,
{
    let n = key_count as nat;
    let d = merkle::depth(n);
    depth_in_range(n);
    merkle::depth_is_log2(n);
    let wanted = |k: nat| leaf as int / power2::pow2((d - 1 - k) as nat) as int % 2 == 0;
    let nonce = nonce_with_bits(wanted, d);
    let (h, j) = selected(nonce, n);
    power2::lemma_pow2_pos(d);
    assert(leaf as int / power2::pow2(d) as int == 0) by (nonlinear_arith)
        requires
            0 <= leaf < power2::pow2(d),
    ;
    selection_holds_root_of_keys(nonce, n);
    if key_count > WHOLE_TREE_KEYS {
        walk_to_leaf(nonce, n, roots::ceil_sqrt(n), d, leaf as nat);
    }
    let width = power2::pow2(h) as int;
    power2::lemma_pow2_pos(h);
    assert(j == leaf as int / width);
    vstd::arithmetic::div_mod::lemma_fundamental_div_mod(leaf as int, width);
    vstd::arithmetic::div_mod::lemma_mod_bound(leaf as int, width);
    assert(j * width == width * (leaf as int / width)) by (nonlinear_arith)
        requires
            j == leaf as int / width,
    ;
    assert(j <= j * width) by (nonlinear_arith)
        requires
            width >= 1,
            j >= 0,
    ;
    let p = SubtreePath {
        height: h as u32,
        index: j as u32,
        first_leaf: (j * width) as u32,
        leaf_count: real_leaves(n, h, j) as u32,
        cut_count: (d - h) as u32,
    };
    assert(p.is_selected(nonce, n));
}

/// One leaf of a proved branch.
#[derive(Clone, Copy, Debug, PartialEq, Eq)]
pub struct SubtreeLeaf {
    /// The key.
    pub key: XorName,
    /// The digest of the key's bytes.
    pub bytes_hash: [u8; 32],
    /// The digest of the key's bytes under the audit's nonce.
    pub nonced_hash: [u8; 32],
}

/// The proof of a branch.
#[derive(Clone, Debug, PartialEq, Eq)]
pub struct SubtreeProof {
    /// The leaves of the branch, in their order.
    pub leaves: Vec<SubtreeLeaf>,
    /// The siblings on the way from the branch to the root, lowest first.
    pub sibling_cut_hashes: Vec<[u8; 32]>,
}

/// What a responder needs to know to prove a branch.
#[derive(Clone, Debug, PartialEq, Eq)]
pub struct SubtreePlan {
    /// The keys of the branch, in their order.
    pub leaf_keys: Vec<XorName>,
    /// The siblings on the way from the branch to the root, lowest first.
    pub sibling_cut_hashes: Vec<[u8; 32]>,
}

/// Why a branch could not be proved.
#[derive(Clone, Copy, Debug, PartialEq, Eq)]
pub enum SubtreeError {
    /// No branch can be selected in the tree.
    NoSelection,
    /// The bytes of a committed key are not there.
    MissingBytes {
        /// The key.
        key: XorName,
    },
}

/// What is wrong with a proof.
#[derive(Clone, Copy, Debug, PartialEq, Eq, Structural)]
pub enum StructureFault {
    /// The commitment covers no key, or more than it may.
    KeyCountOutOfRange,
    /// The proof does not hold as many leaves as the selected branch.
    WrongLeafCount,
    /// The proof does not hold one digest for each level above the branch.
    WrongCutCount,
    /// The keys of the leaves do not ascend.
    KeysOutOfOrder,
    /// The rebuilt root is not the committed one.
    RootMismatch,
}

/// Whether a proof rebuilds to the committed root.
#[derive(Clone, Copy, Debug, PartialEq, Eq, Structural)]
pub enum StructureVerdict {
    /// It does.
    Valid,
    /// It does not.
    Invalid(StructureFault),
}

/// The leaf that a responder makes of a key and its bytes.
pub open spec fn leaf_of(
    nonce: [u8; 32],
    peer: [u8; 32],
    key: XorName,
    bytes: Seq<u8>,
) -> SubtreeLeaf {
    SubtreeLeaf {
        key,
        bytes_hash: crate::hashing::blake3_digest(bytes),
        nonced_hash: protocol::audit_digest(nonce, peer, key, bytes),
    }
}

/// The digests of the leaves of a proof in the committed tree.
pub open spec fn leaf_digests(leaves: Seq<SubtreeLeaf>) -> Seq<[u8; 32]> {
    Seq::new(
        leaves.len(),
        |i: int| commitment::leaf_digest(leaves[i].key, leaves[i].bytes_hash),
    )
}

/// Whether the keys of the leaves ascend.
pub open spec fn leaves_ascend(leaves: Seq<SubtreeLeaf>) -> bool {
    forall|i: int, j: int|
        0 <= i < j < leaves.len() ==> crate::names::name_before(
            (#[trigger] leaves[i]).key,
            (#[trigger] leaves[j]).key,
        )
}

/// The root that a proof rebuilds to for the branch at `index` of the level at `height`.
pub open spec fn rebuilt_root(
    height: nat,
    index: nat,
    leaves: Seq<SubtreeLeaf>,
    cuts: Seq<[u8; 32]>,
) -> [u8; 32] {
    let domain = DOMAIN_NODE.spec_bytes();
    merkle::fold_path(
        domain,
        merkle::level_above(domain, leaf_digests(leaves), height)[0],
        index as int,
        cuts,
    )
}

/// What the structure of a proof is found to be: the first fault, or none.
pub open spec fn structure_of(
    nonce: [u8; 32],
    c: CommitmentView,
    leaves: Seq<SubtreeLeaf>,
    cuts: Seq<[u8; 32]>,
) -> StructureVerdict {
    let n = c.key_count as nat;
    let (h, j) = selected(nonce, n);
    if n == 0 || n > MAX_COMMITMENT_KEY_COUNT {
        StructureVerdict::Invalid(StructureFault::KeyCountOutOfRange)
    } else if leaves.len() != real_leaves(n, h, j) {
        StructureVerdict::Invalid(StructureFault::WrongLeafCount)
    } else if cuts.len() != merkle::depth(n) - h {
        StructureVerdict::Invalid(StructureFault::WrongCutCount)
    } else if !leaves_ascend(leaves) {
        StructureVerdict::Invalid(StructureFault::KeysOutOfOrder)
    } else if rebuilt_root(h, j, leaves, cuts) != c.root {
        StructureVerdict::Invalid(StructureFault::RootMismatch)
    } else {
        StructureVerdict::Valid
    }
}

/// The siblings on the way from a branch of the tree over `entries` to its root.
pub open spec fn branch_cuts(
    entries: Seq<(XorName, [u8; 32])>,
    height: nat,
    index: nat,
) -> Seq<[u8; 32]> {
    let domain = DOMAIN_NODE.spec_bytes();
    merkle::siblings(
        domain,
        merkle::level_above(domain, commitment::leaf_level(entries), height),
        index as int,
    )
}

/// Whether `leaves` stand for the entries of the selected branch: the same keys, with the committed
/// digests of their bytes.
pub open spec fn leaves_match_branch(
    nonce: [u8; 32],
    entries: Seq<(XorName, [u8; 32])>,
    leaves: Seq<SubtreeLeaf>,
) -> bool {
    let (h, j) = selected(nonce, entries.len());
    let first = (j * power2::pow2(h)) as int;
    &&& leaves.len() == real_leaves(entries.len(), h, j)
    &&& forall|i: int|
        0 <= i < leaves.len() ==> (#[trigger] leaves[i]).key == entries[first + i].0
            && leaves[i].bytes_hash == entries[first + i].1
}

/// The leaves of a branch, folded, lead to the root by way of the cuts.
proof fn branch_rebuilds_root(entries: Seq<(XorName, [u8; 32])>, height: nat, index: nat)
    requires
        0 < entries.len(),
        height <= merkle::depth(entries.len()),
        index * power2::pow2(height) < entries.len(),
    ensures
        ({
            let domain = DOMAIN_NODE.spec_bytes();
            let leaves = commitment::leaf_level(entries);
            &&& index < merkle::level_above(domain, leaves, height).len()
            &&& branch_cuts(entries, height, index).len() == merkle::depth(entries.len()) - height
            &&& merkle::fold_path(
                domain,
                merkle::level_above(
                    domain,
                    merkle::leaves_under(leaves, height, index),
                    height,
                )[0],
                index as int,
                branch_cuts(entries, height, index),
            ) == commitment::tree_root(entries)
        }),
{
    let domain = DOMAIN_NODE.spec_bytes();
    let leaves = commitment::leaf_level(entries);
    let top = merkle::level_above(domain, leaves, height);
    merkle::node_from_leaves(domain, leaves, height, index);
    merkle::levels_share_root(domain, leaves, height);
    merkle::path_leads_to_root(domain, top, index as int);
    merkle::siblings_len(domain, top, index as int);
}

/// An honest proof of the selected branch is valid: it rebuilds to the root that was committed to.
pub proof fn honest_branch_is_valid(
    nonce: [u8; 32],
    entries: Seq<(XorName, [u8; 32])>,
    c: CommitmentView,
    leaves: Seq<SubtreeLeaf>,
    cuts: Seq<[u8; 32]>,
)
    requires
        commitment::committable(entries),
        c.root == commitment::tree_root(entries),
        c.key_count == entries.len(),
        leaves_match_branch(nonce, entries, leaves),
        cuts == branch_cuts(
            entries,
            selected(nonce, entries.len()).0,
            selected(nonce, entries.len()).1,
        ),
    ensures
        structure_of(nonce, c, leaves, cuts) is Valid,
{
    let n = entries.len();
    let (h, j) = selected(nonce, n);
    selection_holds_root_of_keys(nonce, n);
    branch_rebuilds_root(entries, h, j);
    let width = power2::pow2(h);
    let first = (j * width) as int;
    let all = commitment::leaf_level(entries);
    assert((j + 1) * width == j * width + width) by (nonlinear_arith);
    assert(leaf_digests(leaves) =~= merkle::leaves_under(all, h, j));
    assert forall|p: int, q: int| 0 <= p < q < leaves.len() implies crate::names::name_before(
        (#[trigger] leaves[p]).key,
        (#[trigger] leaves[q]).key,
    ) by {
        assert(crate::names::name_before(entries[first + p].0, entries[first + q].0));
    }
}

/// Two byte strings of which one is digested in rebuilding a proof and one in the tree over
/// `entries`, at the same place: on the way from the branch to the root, else inside the branch,
/// else at the first leaf that is not the one committed to.
pub open spec fn branch_collision(
    nonce: [u8; 32],
    entries: Seq<(XorName, [u8; 32])>,
    leaves: Seq<SubtreeLeaf>,
    cuts: Seq<[u8; 32]>,
) -> (Seq<u8>, Seq<u8>) {
    let (h, j) = selected(nonce, entries.len());
    let domain = DOMAIN_NODE.spec_bytes();
    let all = commitment::leaf_level(entries);
    let top = merkle::level_above(domain, all, h);
    let given = leaf_digests(leaves);
    let kept = merkle::leaves_under(all, h, j);
    let branch = merkle::level_above(domain, given, h)[0];
    if branch != top[j as int] {
        merkle::fold_collision(domain, top, branch, j as int, cuts)
    } else if given != kept {
        merkle::levels_collision(domain, given, kept, h)
    } else {
        let first = (j * power2::pow2(h)) as int;
        let i = choose|i: int| is_first_foreign(entries, first, leaves, i);
        (
            commitment::leaf_bytes(leaves[i].key, leaves[i].bytes_hash),
            commitment::leaf_bytes(entries[first + i].0, entries[first + i].1),
        )
    }
}

/// Whether leaf `i` stands for the entry that lies as far behind `first`.
pub open spec fn leaf_matches(
    entries: Seq<(XorName, [u8; 32])>,
    first: int,
    leaves: Seq<SubtreeLeaf>,
    i: int,
) -> bool {
    leaves[i].key == entries[first + i].0 && leaves[i].bytes_hash == entries[first + i].1
}

/// Whether leaf `i` is the first that does not stand for its entry.
pub open spec fn is_first_foreign(
    entries: Seq<(XorName, [u8; 32])>,
    first: int,
    leaves: Seq<SubtreeLeaf>,
    i: int,
) -> bool {
    &&& 0 <= i < leaves.len()
    &&& !leaf_matches(entries, first, leaves, i)
    &&& forall|k: int| 0 <= k < i ==> leaf_matches(entries, first, leaves, k)
}

/// Where some leaf does not stand for its entry, there is a first one.
proof fn foreign_leaf_has_first(
    entries: Seq<(XorName, [u8; 32])>,
    first: int,
    leaves: Seq<SubtreeLeaf>,
    i: int,
)
    requires
        0 <= i < leaves.len(),
        !leaf_matches(entries, first, leaves, i),
    ensures
        exists|k: int| is_first_foreign(entries, first, leaves, k),
    decreases i,
{
    if forall|k: int| 0 <= k < i ==> leaf_matches(entries, first, leaves, k) {
        assert(is_first_foreign(entries, first, leaves, i));
    } else {
        let k = choose|k: int| 0 <= k < i && !leaf_matches(entries, first, leaves, k);
        foreign_leaf_has_first(entries, first, leaves, k);
    }
}

/// A valid proof shows what was committed to: its leaves are the entries of the selected branch,
/// unless the two byte strings of `branch_collision` are different and have one digest.
pub proof fn valid_branch_is_committed(
    nonce: [u8; 32],
    entries: Seq<(XorName, [u8; 32])>,
    c: CommitmentView,
    leaves: Seq<SubtreeLeaf>,
    cuts: Seq<[u8; 32]>,
)
    requires
        commitment::committable(entries),
        c.root == commitment::tree_root(entries),
        c.key_count == entries.len(),
        structure_of(nonce, c, leaves, cuts) is Valid,
    ensures
        leaves_match_branch(nonce, entries, leaves) || collides(
            branch_collision(nonce, entries, leaves, cuts),
        ),
{
    let n = entries.len();
    let (h, j) = selected(nonce, n);
    selection_holds_root_of_keys(nonce, n);
    let width = power2::pow2(h);
    let first = (j * width) as int;
    let domain = DOMAIN_NODE.spec_bytes();
    let all = commitment::leaf_level(entries);
    let top = merkle::level_above(domain, all, h);
    let given = leaf_digests(leaves);
    let kept = merkle::leaves_under(all, h, j);
    let branch = merkle::level_above(domain, given, h)[0];
    assert((j + 1) * width == j * width + width) by (nonlinear_arith);
    merkle::node_from_leaves(domain, all, h, j);
    merkle::levels_share_root(domain, all, h);
    merkle::fold_leads_from_leaf(domain, top, branch, j as int, cuts);
    merkle::place_of_index(top.len(), j as int);
    if branch == top[j as int] {
        merkle::levels_have_one_length(domain, given, kept, h);
        assert(merkle::level_above(domain, given, h) =~= merkle::level_above(domain, kept, h));
        merkle::level_above_determines_level(domain, given, kept, h);
        if given == kept && !leaves_match_branch(nonce, entries, leaves) {
            let bad = choose|i: int|
                0 <= i < leaves.len() && !((#[trigger] leaves[i]).key == entries[first + i].0
                    && leaves[i].bytes_hash == entries[first + i].1);
            foreign_leaf_has_first(entries, first, leaves, bad);
            let i = choose|i: int| is_first_foreign(entries, first, leaves, i);
            let (key, bytes_hash) = entries[first + i];
            assert(given[i] == kept[i] && kept[i] == all[first + i]);
            if commitment::leaf_bytes(leaves[i].key, leaves[i].bytes_hash)
                == commitment::leaf_bytes(key, bytes_hash) {
                commitment::leaf_bytes_split(
                    leaves[i].key,
                    leaves[i].bytes_hash,
                    key,
                    bytes_hash,
                );
            }
        }
    }
}

/// A proof is valid just where the commitment covers as many keys as it may, the proof holds as many
/// leaves as the selected branch and a digest for each level above it, its keys ascend, and it
/// rebuilds to the committed root. Where not, the first of these that fails is named.
pub proof fn first_fault_is_named(
    nonce: [u8; 32],
    c: CommitmentView,
    leaves: Seq<SubtreeLeaf>,
    cuts: Seq<[u8; 32]>,
    p: SubtreePath,
)
    requires
        1 <= c.key_count <= 1_000_000 ==> p.is_selected(nonce, c.key_count as nat),
    ensures
        ({
            let in_range = 1 <= c.key_count <= 1_000_000;
            let leaves_fit = leaves.len() == p.leaf_count;
            let cuts_fit = cuts.len() == p.cut_count;
            let ascend = forall|i: int, j: int|
                0 <= i < j < leaves.len() ==> crate::names::name_before(
                    (#[trigger] leaves[i]).key,
                    (#[trigger] leaves[j]).key,
                );
            let rebuilt = rebuilt_root(p.height as nat, p.index as nat, leaves, cuts) == c.root;
            structure_of(nonce, c, leaves, cuts) == if !in_range {
                StructureVerdict::Invalid(StructureFault::KeyCountOutOfRange)
            } else if !leaves_fit {
                StructureVerdict::Invalid(StructureFault::WrongLeafCount)
            } else if !cuts_fit {
                StructureVerdict::Invalid(StructureFault::WrongCutCount)
            } else if !ascend {
                StructureVerdict::Invalid(StructureFault::KeysOutOfOrder)
            } else if !rebuilt {
                StructureVerdict::Invalid(StructureFault::RootMismatch)
            } else {
                StructureVerdict::Valid
            }
        }),
{
    if 1 <= c.key_count <= 1_000_000 {
        selection_holds_root_of_keys(nonce, c.key_count as nat);
    }
}

/// The keys that a nonce asks for are those of the tree from the first leaf of the selected branch
/// on, as many as the branch has, in their order.
pub proof fn branch_keys_are_consecutive(
    nonce: [u8; 32],
    entries: Seq<(XorName, [u8; 32])>,
    p: SubtreePath,
)
    requires
        0 < entries.len() <= MAX_COMMITMENT_KEY_COUNT,
        p.is_selected(nonce, entries.len()),
    ensures
        branch_keys(nonce, entries).len() == p.leaf_count,
        p.first_leaf + p.leaf_count <= entries.len(),
        forall|i: int|
            0 <= i < p.leaf_count ==> #[trigger] branch_keys(nonce, entries)[i]
                == entries[p.first_leaf + i].0,
{
    selection_holds_root_of_keys(nonce, entries.len());
}

/// A leaf of a proof is made of its key, the digest of the key's bytes, and the digest of the nonce,
/// the challenged peer, the key and the bytes.
pub proof fn leaf_is_made_of_bytes(
    nonce: [u8; 32],
    peer: [u8; 32],
    key: XorName,
    bytes: Seq<u8>,
)
    ensures
        leaf_of(nonce, peer, key, bytes).key == key,
        leaf_of(nonce, peer, key, bytes).bytes_hash == crate::hashing::blake3_digest(bytes),
        leaf_of(nonce, peer, key, bytes).nonced_hash == crate::hashing::blake3_digest(
            nonce@ + peer@ + key@ + bytes,
        ),
{
}

/// A key has bytes just where some can be had for it.
pub proof fn bytes_can_be_had<F: Fn(&XorName) -> Option<Vec<u8>>>(
    bytes_for: F,
    key: XorName,
    bytes: Vec<u8>,
)
    ensures
        call_ensures(bytes_for, (&key,), Some(bytes)) ==> has_bytes(bytes_for, key),
        has_bytes(bytes_for, key) ==> exists|some: Vec<u8>| #[trigger]
            call_ensures(bytes_for, (&key,), Some(some)),
{
}

/// The key that is named as lacking is one of those asked for whose bytes are not there, and the
/// bytes of every one asked for before it are.
pub proof fn first_lacking_key_is_named<F: Fn(&XorName) -> Option<Vec<u8>>>(
    keys: Seq<XorName>,
    bytes_for: F,
    key: XorName,
) -> (n: int)
    requires
        is_first_lacking(keys, bytes_for, key),
    ensures
        call_ensures(bytes_for, (&key,), None),
        0 <= n < keys.len(),
        keys[n] == key,
        forall|k: int, earlier: XorName|
            0 <= k < n && earlier == #[trigger] keys[k] ==> #[trigger] has_bytes(
                bytes_for,
                earlier,
            ),
{
    let n = choose|n: int|
        0 <= n < keys.len() && #[trigger] keys[n] == key && forall|k: int|
            0 <= k < n ==> has_bytes(bytes_for, #[trigger] keys[k]);
    n
}

/// The digest of a key's bytes under the audit's nonce.
pub fn nonced_leaf_hash(
    nonce: &[u8; 32],
    peer: &[u8; 32],
    key: &XorName,
    bytes: &[u8],
) -> (digest: [u8; 32])
    ensures
        digest == protocol::audit_digest(*nonce, *peer, *key, bytes@),
{
    compute_audit_digest(nonce, peer, key, bytes)
}

/// Make a leaf of a key and its bytes.
pub fn subtree_leaf(
    nonce: &[u8; 32],
    peer: &[u8; 32],
    key: &XorName,
    bytes: &[u8],
) -> (leaf: SubtreeLeaf)
    ensures
        leaf == leaf_of(*nonce, *peer, *key, bytes@),
{
    SubtreeLeaf {
        key: *key,
        bytes_hash: blake3_hash(bytes),
        nonced_hash: nonced_leaf_hash(nonce, peer, key, bytes),
    }
}

/// Which keys a nonce asks for, and the digests that join their branch to the root. No bytes are
/// touched.
pub fn subtree_plan(tree: &MerkleTree, nonce: &[u8; 32]) -> (plan: Result<
    SubtreePlan,
    SubtreeError,
>)
    ensures
        plan is Ok,
        plan->Ok_0.leaf_keys@ == branch_keys(*nonce, tree@),
        plan->Ok_0.sibling_cut_hashes@ == branch_cuts(
            tree@,
            selected(*nonce, tree@.len()).0,
            selected(*nonce, tree@.len()).1,
        ),
{
    let key_count: u32 = tree.key_count();
    let path = match select_subtree_path(nonce, key_count) {
        Some(path) => path,
        None => return Err(SubtreeError::NoSelection),
    };
    let ghost n = tree@.len();
    let ghost h = selected(*nonce, n).0;
    let ghost j = selected(*nonce, n).1;
    proof {
        selection_holds_root_of_keys(*nonce, n);
        merkle::level_reaches(DOMAIN_NODE.spec_bytes(), commitment::leaf_level(tree@), h, j);
    }
    let sibling_cut_hashes = tree.siblings_from(path.height as usize, path.index as usize);
    let mut leaf_keys: Vec<XorName> = Vec::new();
    let mut i: u32 = 0;
    while i < path.leaf_count
        invariant
            i <= path.leaf_count,
            path.first_leaf + path.leaf_count <= tree@.len() <= u32::MAX,
            leaf_keys.len() == i,
            forall|k: int| 0 <= k < i ==> leaf_keys@[k] == tree@[path.first_leaf + k].0,
        decreases path.leaf_count - i,
    {
        leaf_keys.push(tree.entry((path.first_leaf + i) as usize).0);
        i += 1;
    }
    assert(leaf_keys@ =~= branch_keys(*nonce, tree@));
    Ok(SubtreePlan { leaf_keys, sibling_cut_hashes })
}

/// The keys of the branch that a nonce selects in the tree over `entries`.
pub open spec fn branch_keys(nonce: [u8; 32], entries: Seq<(XorName, [u8; 32])>) -> Seq<XorName> {
    let (h, j) = selected(nonce, entries.len());
    Seq::new(
        real_leaves(entries.len(), h, j),
        |i: int| entries[(j * power2::pow2(h)) as int + i].0,
    )
}

/// Whether `bytes_for` gives bytes of which a responder makes `leaf` for `key`.
pub open spec fn leaf_from<F: Fn(&XorName) -> Option<Vec<u8>>>(
    bytes_for: F,
    nonce: [u8; 32],
    peer: [u8; 32],
    key: XorName,
    leaf: SubtreeLeaf,
) -> bool {
    exists|bytes: Vec<u8>|
        call_ensures(bytes_for, (&key,), Some(bytes)) && leaf == #[trigger] leaf_of(
            nonce,
            peer,
            key,
            bytes@,
        )
}

/// Whether the bytes of a key can be had.
pub open spec fn has_bytes<F: Fn(&XorName) -> Option<Vec<u8>>>(bytes_for: F, key: XorName) -> bool {
    exists|bytes: Vec<u8>| #[trigger] call_ensures(bytes_for, (&key,), Some(bytes))
}

/// Whether `key` is the first of `keys` whose bytes the node lacks.
pub open spec fn is_first_lacking<F: Fn(&XorName) -> Option<Vec<u8>>>(
    keys: Seq<XorName>,
    bytes_for: F,
    key: XorName,
) -> bool {
    &&& call_ensures(bytes_for, (&key,), None)
    &&& exists|n: int|
        0 <= n < keys.len() && #[trigger] keys[n] == key && forall|k: int|
            0 <= k < n ==> has_bytes(bytes_for, #[trigger] keys[k])
}

/// Prove the branch that a nonce selects, with the bytes that `bytes_for` gives for its keys.
pub fn build_subtree_proof<F: Fn(&XorName) -> Option<Vec<u8>>>(
    tree: &MerkleTree,
    nonce: &[u8; 32],
    peer: &[u8; 32],
    bytes_for: F,
) -> (proved: Result<SubtreeProof, SubtreeError>)
    requires
        forall|key: &XorName| call_requires(bytes_for, (key,)),
    ensures
        match proved {
            Ok(built) => {
                &&& built.leaves.len() == branch_keys(*nonce, tree@).len()
                &&& forall|i: int|
                    0 <= i < built.leaves.len() ==> leaf_from(
                        bytes_for,
                        *nonce,
                        *peer,
                        branch_keys(*nonce, tree@)[i],
                        #[trigger] built.leaves@[i],
                    )
                &&& built.sibling_cut_hashes@ == branch_cuts(
                    tree@,
                    selected(*nonce, tree@.len()).0,
                    selected(*nonce, tree@.len()).1,
                )
            },
            Err(SubtreeError::MissingBytes { key }) => is_first_lacking(
                branch_keys(*nonce, tree@),
                bytes_for,
                key,
            ),
            Err(SubtreeError::NoSelection) => false,
        },
{
    let plan = match subtree_plan(tree, nonce) {
        Ok(plan) => plan,
        Err(e) => return Err(e),
    };
    let mut leaves: Vec<SubtreeLeaf> = Vec::new();
    let mut i: usize = 0;
    while i < plan.leaf_keys.len()
        invariant
            i <= plan.leaf_keys.len(),
            forall|key: &XorName| call_requires(bytes_for, (key,)),
            plan.leaf_keys@ == branch_keys(*nonce, tree@),
            leaves.len() == i,
            forall|k: int| 0 <= k < i ==> has_bytes(bytes_for, #[trigger] plan.leaf_keys@[k]),
            forall|k: int|
                0 <= k < i ==> leaf_from(
                    bytes_for,
                    *nonce,
                    *peer,
                    branch_keys(*nonce, tree@)[k],
                    #[trigger] leaves@[k],
                ),
        decreases plan.leaf_keys.len() - i,
    {
        let key = plan.leaf_keys[i];
        match bytes_for(&key) {
            Some(bytes) => {
                let leaf = subtree_leaf(nonce, peer, &key, bytes.as_slice());
                assert(leaf_from(bytes_for, *nonce, *peer, key, leaf));
                assert(has_bytes(bytes_for, key));
                leaves.push(leaf);
            },
            None => {
                assert(plan.leaf_keys@[i as int] == key);
                assert(is_first_lacking(plan.leaf_keys@, bytes_for, key));
                return Err(SubtreeError::MissingBytes { key });
            },
        }
        i += 1;
    }
    Ok(SubtreeProof { leaves, sibling_cut_hashes: plan.sibling_cut_hashes })
}

/// Whether the keys of the leaves ascend.
fn keys_ascend(leaves: &[SubtreeLeaf]) -> (ascend: bool)
    ensures
        ascend == leaves_ascend(leaves@),
{
    let mut i: usize = 1;
    while i < leaves.len()
        invariant
            1 <= i,
            leaves.len() > 0 ==> i <= leaves.len(),
            forall|p: int, q: int|
                0 <= p < q < i && q < leaves.len() ==> crate::names::name_before(
                    (#[trigger] leaves@[p]).key,
                    (#[trigger] leaves@[q]).key,
                ),
        decreases leaves.len() - i,
    {
        if !comes_before(&leaves[i - 1].key, &leaves[i].key) {
            assert(!crate::names::name_before(leaves@[i - 1].key, leaves@[i as int].key));
            return false;
        }
        proof {
            assert forall|p: int, q: int| 0 <= p < q < i + 1 implies crate::names::name_before(
                (#[trigger] leaves@[p]).key,
                (#[trigger] leaves@[q]).key,
            ) by {
                if q == i && p < i - 1 {
                    crate::names::name_order_is_transitive(
                        leaves@[p].key,
                        leaves@[i - 1].key,
                        leaves@[i as int].key,
                    );
                }
            }
        }
        i += 1;
    }
    true
}

/// Check that a proof is of the branch that the nonce selects, and that it rebuilds to the
/// committed root.
pub fn verify_subtree_proof(
    proof_of_branch: &SubtreeProof,
    nonce: &[u8; 32],
    commitment: &StorageCommitment,
) -> (verdict: StructureVerdict)
    ensures
        verdict == structure_of(
            *nonce,
            commitment@,
            proof_of_branch.leaves@,
            proof_of_branch.sibling_cut_hashes@,
        ),
{
    let path = match select_subtree_path(nonce, commitment.key_count) {
        Some(path) => path,
        None => return StructureVerdict::Invalid(StructureFault::KeyCountOutOfRange),
    };
    let leaves = &proof_of_branch.leaves;
    let cuts = &proof_of_branch.sibling_cut_hashes;
    if leaves.len() != path.leaf_count as usize {
        return StructureVerdict::Invalid(StructureFault::WrongLeafCount);
    }
    if cuts.len() != path.cut_count as usize {
        return StructureVerdict::Invalid(StructureFault::WrongCutCount);
    }
    if !keys_ascend(leaves.as_slice()) {
        return StructureVerdict::Invalid(StructureFault::KeysOutOfOrder);
    }
    proof {
        selection_holds_root_of_keys(*nonce, commitment.key_count as nat);
    }
    let mut level: Vec<[u8; 32]> = Vec::new();
    let mut i: usize = 0;
    while i < leaves.len()
        invariant
            i <= leaves.len(),
            level.len() == i,
            forall|k: int|
                0 <= k < i ==> level@[k] == commitment::leaf_digest(
                    leaves@[k].key,
                    leaves@[k].bytes_hash,
                ),
        decreases leaves.len() - i,
    {
        level.push(leaf_hash(&leaves[i].key, &leaves[i].bytes_hash));
        i += 1;
    }
    let ghost digests = leaf_digests(leaves@);
    assert(level@ =~= digests);
    let domain = DOMAIN_NODE.as_bytes();
    let mut h: u32 = 0;
    while h < path.height
        invariant
            h <= path.height,
            domain@ == DOMAIN_NODE.spec_bytes(),
            level.len() > 0,
            level@ == merkle::level_above(domain@, digests, h as nat),
        decreases path.height - h,
    {
        level = merkle::fold_level(domain, level.as_slice());
        h += 1;
    }
    if merkle::path_matches(
        domain,
        level[0],
        path.index as usize,
        cuts.as_slice(),
        &commitment.root,
    ) {
        StructureVerdict::Valid
    } else {
        StructureVerdict::Invalid(StructureFault::RootMismatch)
    }
}

/// Domain tag of the draws for a spot check.
pub const DOMAIN_SPOTCHECK: &'static str = "autonomi.ant.replication.subtree.spotcheck.v1";

/// The draw number `i` that a nonce gives.
pub open spec fn spotcheck_draw(nonce: [u8; 32], i: u32) -> u64 {
    let digest = crate::hashing::blake3_digest(
        DOMAIN_SPOTCHECK.spec_bytes() + nonce@ + vstd::bytes::spec_u32_to_le_bytes(i),
    );
    vstd::bytes::spec_u64_from_le_bytes(digest@.subrange(0, 8))
}

/// The first place at or after `place`, going round, that is not taken.
pub open spec fn next_free(taken: Seq<u32>, leaf_count: u32, place: u32, steps: nat) -> u32
    decreases steps,
{
    if steps == 0 || !taken.contains(place) {
        place
    } else {
        next_free(taken, leaf_count, wrapped_next(leaf_count, place), (steps - 1) as nat)
    }
}

/// The place after `place`, going round.
pub open spec fn wrapped_next(leaf_count: u32, place: u32) -> u32 {
    if place + 1 < leaf_count {
        (place + 1) as u32
    } else {
        0
    }
}

/// The places of the first `count` draws: each draw takes the first free place from where it falls.
pub open spec fn drawn_places(nonce: [u8; 32], leaf_count: u32, count: nat) -> Seq<u32>
    decreases count,
{
    if count == 0 {
        Seq::empty()
    } else {
        let taken = drawn_places(nonce, leaf_count, (count - 1) as nat);
        let start = (spotcheck_draw(nonce, (count - 1) as u32) % (leaf_count as u64)) as u32;
        taken.push(next_free(taken, leaf_count, start, leaf_count as nat))
    }
}

/// The members of `places` below `end`, ascending.
pub open spec fn ascending_members(places: Seq<u32>, end: u32) -> Seq<u32>
    decreases end,
{
    if end == 0 {
        Seq::empty()
    } else {
        let below = ascending_members(places, (end - 1) as u32);
        if places.contains((end - 1) as u32) {
            below.push((end - 1) as u32)
        } else {
            below
        }
    }
}

/// How many leaves of a branch are checked: as many as wanted, or all where there are fewer.
pub open spec fn sample_size(leaf_count: u32, wanted: u32) -> u32 {
    if wanted <= leaf_count {
        wanted
    } else {
        leaf_count
    }
}

/// The leaves of a branch that a nonce samples.
pub open spec fn spotcheck_places(nonce: [u8; 32], leaf_count: u32, wanted: u32) -> Seq<u32> {
    ascending_members(
        drawn_places(nonce, leaf_count, sample_size(leaf_count, wanted) as nat),
        leaf_count,
    )
}

/// The place `d` steps after `place`, going round once at most.
spec fn place_after(leaf_count: u32, place: u32, d: int) -> u32 {
    if place + d < leaf_count {
        (place + d) as u32
    } else {
        (place + d - leaf_count) as u32
    }
}

/// The places from `place` on, going round, of which the first `steps` are taken.
proof fn taken_run(taken: Seq<u32>, leaf_count: u32, place: u32, steps: nat)
    requires
        place < leaf_count,
        steps <= leaf_count,
        taken.contains(next_free(taken, leaf_count, place, steps)),
    ensures
        forall|d: int|
            0 <= d <= steps ==> taken.contains(#[trigger] place_after(leaf_count, place, d)),
    decreases steps,
{
    if steps > 0 {
        assert(taken.contains(place));
        let next = wrapped_next(leaf_count, place);
        taken_run(taken, leaf_count, next, (steps - 1) as nat);
        assert forall|d: int| 0 <= d <= steps implies taken.contains(
            #[trigger] place_after(leaf_count, place, d),
        ) by {
            if d > 0 {
                assert(taken.contains(place_after(leaf_count, next, d - 1)));
            }
        }
    }
}

/// Where not every place is taken, a free one is found.
proof fn next_free_is_free(taken: Seq<u32>, leaf_count: u32, place: u32)
    requires
        place < leaf_count,
        taken.len() < leaf_count,
    ensures
        !taken.contains(next_free(taken, leaf_count, place, leaf_count as nat)),
        next_free(taken, leaf_count, place, leaf_count as nat) < leaf_count,
{
    next_free_in_range(taken, leaf_count, place, leaf_count as nat);
    if taken.contains(next_free(taken, leaf_count, place, leaf_count as nat)) {
        taken_run(taken, leaf_count, place, leaf_count as nat);
        let all = vstd::set_lib::set_int_range(0, leaf_count as int);
        let values = taken.map_values(|v: u32| v as int);
        vstd::set_lib::lemma_int_range(0, leaf_count as int);
        assert forall|v: int| all.contains(v) implies values.to_set().contains(v) by {
            let d = if v >= place {
                v - place
            } else {
                v - place + leaf_count
            };
            assert(place_after(leaf_count, place, d) == v as u32);
            assert(taken.contains(v as u32));
            let k = choose|k: int| 0 <= k < taken.len() && taken[k] == v as u32;
            assert(values[k] == v);
        }
        vstd::seq_lib::seq_to_set_is_finite(values);
        vstd::set_lib::lemma_len_subset(all, values.to_set());
        values.lemma_cardinality_of_set();
    }
}

/// What is found is a place.
proof fn next_free_in_range(taken: Seq<u32>, leaf_count: u32, place: u32, steps: nat)
    requires
        place < leaf_count,
    ensures
        next_free(taken, leaf_count, place, steps) < leaf_count,
    decreases steps,
{
    if steps > 0 && taken.contains(place) {
        next_free_in_range(taken, leaf_count, wrapped_next(leaf_count, place), (steps - 1) as nat);
    }
}

/// The draws take different places.
proof fn draws_are_distinct(nonce: [u8; 32], leaf_count: u32, count: nat)
    requires
        count <= leaf_count,
    ensures
        drawn_places(nonce, leaf_count, count).len() == count,
        drawn_places(nonce, leaf_count, count).no_duplicates(),
        forall|i: int|
            0 <= i < count ==> (#[trigger] drawn_places(nonce, leaf_count, count)[i]) < leaf_count,
    decreases count,
{
    if count > 0 {
        draws_are_distinct(nonce, leaf_count, (count - 1) as nat);
        let taken = drawn_places(nonce, leaf_count, (count - 1) as nat);
        let start = (spotcheck_draw(nonce, (count - 1) as u32) % (leaf_count as u64)) as u32;
        next_free_is_free(taken, leaf_count, start);
        let place = next_free(taken, leaf_count, start, leaf_count as nat);
        assert forall|i: int, j: int|
            0 <= i < taken.push(place).len() && 0 <= j < taken.push(place).len() && i
                != j implies taken.push(place)[i] != taken.push(place)[j] by {
            if i == count - 1 {
                assert(taken.contains(taken[j]));
            } else if j == count - 1 {
                assert(taken.contains(taken[i]));
            }
        }
    }
}

/// The ascending members are those below the end, each once.
proof fn ascending_members_exact(places: Seq<u32>, end: u32)
    ensures
        forall|i: int|
            0 <= i < ascending_members(places, end).len() ==> (#[trigger] ascending_members(
                places,
                end,
            )[i]) < end,
        forall|i: int, j: int|
            0 <= i < j < ascending_members(places, end).len() ==> (#[trigger] ascending_members(
                places,
                end,
            )[i]) < (#[trigger] ascending_members(places, end)[j]),
        forall|v: u32|
            #[trigger] ascending_members(places, end).contains(v) <==> places.contains(v) && v
                < end,
    decreases end,
{
    if end > 0 {
        ascending_members_exact(places, (end - 1) as u32);
        let below = ascending_members(places, (end - 1) as u32);
        let all = ascending_members(places, end);
        assert forall|v: u32| #[trigger] all.contains(v) <==> places.contains(v) && v < end by {
            if all.contains(v) {
                let k = choose|k: int| 0 <= k < all.len() && all[k] == v;
                if k < below.len() {
                    assert(below[k] == v);
                    assert(below.contains(v));
                }
            }
            if places.contains(v) && v < end {
                if v < end - 1 {
                    assert(below.contains(v));
                    let k = choose|k: int| 0 <= k < below.len() && below[k] == v;
                    assert(all[k] == v);
                } else {
                    assert(all[all.len() - 1] == v);
                }
            }
        }
    }
}

/// A sample holds as many leaves as wanted, or all where there are fewer: different ones, inside
/// the branch, and in their order.
pub proof fn sample_is_exact(nonce: [u8; 32], leaf_count: u32, wanted: u32)
    ensures
        spotcheck_places(nonce, leaf_count, wanted).len() == sample_size(leaf_count, wanted),
        forall|i: int|
            0 <= i < spotcheck_places(nonce, leaf_count, wanted).len() ==> (
            #[trigger] spotcheck_places(nonce, leaf_count, wanted)[i]) < leaf_count,
        forall|i: int, j: int|
            0 <= i < j < spotcheck_places(nonce, leaf_count, wanted).len() ==> (
            #[trigger] spotcheck_places(nonce, leaf_count, wanted)[i]) < (
            #[trigger] spotcheck_places(nonce, leaf_count, wanted)[j]),
{
    let count = sample_size(leaf_count, wanted);
    let drawn = drawn_places(nonce, leaf_count, count as nat);
    let sample = spotcheck_places(nonce, leaf_count, wanted);
    draws_are_distinct(nonce, leaf_count, count as nat);
    ascending_members_exact(drawn, leaf_count);
    assert(sample.to_set() =~= drawn.to_set()) by {
        assert forall|v: u32| sample.to_set().contains(v) <==> drawn.to_set().contains(v) by {
            assert(sample.contains(v) <==> drawn.contains(v) && v < leaf_count);
        }
    }
    sample.unique_seq_to_set();
    drawn.unique_seq_to_set();
}

/// What is found is the first place that is not taken: every one passed over on the way is.
proof fn next_free_is_first(taken: Seq<u32>, leaf_count: u32, place: u32, steps: nat) -> (passed: int)
    requires
        place < leaf_count,
        steps <= leaf_count,
        !taken.contains(next_free(taken, leaf_count, place, steps)),
    ensures
        0 <= passed <= steps,
        next_free(taken, leaf_count, place, steps) == (place + passed) % (leaf_count as int),
        forall|e: int|
            0 <= e < passed ==> taken.contains(#[trigger] ((place + e) % (leaf_count as int)) as u32),
    decreases steps,
{
    vstd::arithmetic::div_mod::lemma_small_mod(place as nat, leaf_count as nat);
    if steps == 0 || !taken.contains(place) {
        0
    } else {
        let next = wrapped_next(leaf_count, place);
        let rest = next_free_is_first(taken, leaf_count, next, (steps - 1) as nat);
        let n = leaf_count as int;
        assert forall|e: int| 0 <= e < rest + 1 implies taken.contains(
            #[trigger] ((place + e) % n) as u32,
        ) by {
            if e > 0 {
                going_round(place as int, e, n);
                assert(taken.contains(((next + (e - 1)) % n) as u32));
            }
        }
        going_round(place as int, rest + 1, n);
        rest + 1
    }
}

/// Going on from the place after `place` is going one further from `place`.
proof fn going_round(place: int, steps: int, n: int)
    requires
        0 <= place < n,
        0 < steps,
    ensures
        (place + steps) % n == ((if place + 1 < n {
            place + 1
        } else {
            0
        }) + (steps - 1)) % n,
{
    if place + 1 == n {
        vstd::arithmetic::div_mod::lemma_mod_add_multiples_vanish(steps - 1, n);
        assert(place + steps == n + (steps - 1));
    }
}

/// Every draw takes the first free place from where it falls.
proof fn draws_take_first_free(nonce: [u8; 32], leaf_count: u32, count: nat)
    requires
        count <= leaf_count,
    ensures
        ({
            let n = leaf_count as int;
            let drawn = drawn_places(nonce, leaf_count, count);
            &&& drawn.len() == count
            &&& forall|i: int|
                0 <= i < count ==> #[trigger] takes_first_free(
            drawn,
            n,
            draw_start(nonce, n, i),
            i,
        )
        }),
    decreases count,
{
    let n = leaf_count as int;
    let drawn = drawn_places(nonce, leaf_count, count);
    draws_are_distinct(nonce, leaf_count, count);
    if count > 0 {
        let last = count - 1;
        let before = drawn_places(nonce, leaf_count, last as nat);
        draws_take_first_free(nonce, leaf_count, last as nat);
        draws_are_distinct(nonce, leaf_count, last as nat);
        assert(drawn.take(last) =~= before);
        let start = (spotcheck_draw(nonce, last as u32) % (leaf_count as u64)) as u32;
        next_free_is_free(before, leaf_count, start);
        let passed = next_free_is_first(before, leaf_count, start, leaf_count as nat);
        assert forall|i: int| 0 <= i < count implies #[trigger] takes_first_free(
            drawn,
            n,
            draw_start(nonce, n, i),
            i,
        ) by {
            if i < last {
                assert(takes_first_free(before, n, draw_start(nonce, n, i), i));
                assert(before.take(i) =~= drawn.take(i));
            } else {
                assert(drawn[i] == (start + passed) % n);
            }
        }
    }
}

/// Whether place `i` of `drawn` is the first, from `start` on and going round among `n`, that no
/// earlier one has taken.
spec fn takes_first_free(drawn: Seq<u32>, n: int, start: int, i: int) -> bool {
    exists|passed: int|
        {
            &&& 0 <= passed
            &&& drawn[i] == #[trigger] ((start + passed) % n)
            &&& !drawn.take(i).contains(drawn[i])
            &&& forall|e: int|
                0 <= e < passed ==> drawn.take(i).contains(#[trigger] ((start + e) % n) as u32)
        }
}

/// Where draw `i` falls.
spec fn draw_start(nonce: [u8; 32], n: int, i: int) -> int {
    spotcheck_draw(nonce, i as u32) as int % n
}

/// The first free place is nearer, going round, than any other free one.
proof fn first_free_is_nearest(drawn: Seq<u32>, n: int, start: int, i: int, v: u32)
    requires
        0 <= start < n,
        takes_first_free(drawn, n, start, i),
        v < n,
        !drawn.take(i).contains(v),
    ensures
        (drawn[i] - start) % n <= (v - start) % n,
{
    let passed = choose|passed: int|
        {
            &&& 0 <= passed
            &&& drawn[i] == #[trigger] ((start + passed) % n)
            &&& !drawn.take(i).contains(drawn[i])
            &&& forall|e: int|
                0 <= e < passed ==> drawn.take(i).contains(#[trigger] ((start + e) % n) as u32)
        };
    let t = (v - start) % n;
    vstd::arithmetic::div_mod::lemma_mod_bound(v - start, n);
    vstd::arithmetic::div_mod::lemma_mod_adds(start, t, n);
    vstd::arithmetic::div_mod::lemma_add_mod_noop(start, v - start, n);
    vstd::arithmetic::div_mod::lemma_small_mod(v as nat, n as nat);
    vstd::arithmetic::div_mod::lemma_small_mod(start as nat, n as nat);
    vstd::arithmetic::div_mod::lemma_small_mod(t as nat, n as nat);
    assert((start + t) % n == v);
    vstd::arithmetic::div_mod::lemma_sub_mod_noop(start + passed, start, n);
    assert((drawn[i] - start) % n == passed % n);
    if passed >= n {
        vstd::arithmetic::div_mod::lemma_mod_bound(passed, n);
        assert(passed % n <= passed);
    } else {
        vstd::arithmetic::div_mod::lemma_small_mod(passed as nat, n as nat);
    }
    if t < passed {
        assert(drawn.take(i).contains(((start + t) % n) as u32));
    }
}

/// Which leaves of a branch are sampled is fixed by the nonce. There is a draw for each: draw `i`
/// falls on the first eight bytes, as a little-endian number, of the BLAKE3 digest of the tag, the
/// whole nonce and `i` as a little-endian word, taken modulo the number of leaves, and takes of the
/// leaves that no earlier draw has taken the nearest one from there on, going round. The sample
/// holds the leaves that were taken, each once, and in their order.
pub proof fn sample_is_drawn_from_nonce(nonce: [u8; 32], leaf_count: u32, wanted: u32)
    ensures
        exists|drawn: Seq<u32>|
            {
                &&& drawn.len() == if wanted <= leaf_count {
                    wanted
                } else {
                    leaf_count
                }
                &&& #[trigger] drawn.no_duplicates()
                &&& forall|v: u32| #[trigger]
                    spotcheck_places(nonce, leaf_count, wanted).contains(v) <==> drawn.contains(v)
                &&& forall|i: int| 0 <= i < drawn.len() ==> (#[trigger] drawn[i]) < leaf_count
                &&& forall|i: int, v: u32|
                    0 <= i < drawn.len() && v < leaf_count && !#[trigger] drawn.take(i).contains(v)
                        ==> {
                        let digest = crate::hashing::blake3_digest(
                            "autonomi.ant.replication.subtree.spotcheck.v1".spec_bytes() + nonce@
                                + vstd::bytes::spec_u32_to_le_bytes(i as u32),
                        );
                        let n = leaf_count as int;
                        let start = vstd::bytes::spec_u64_from_le_bytes(
                            digest@.subrange(0, 8),
                        ) as int % n;
                        (drawn[i] - start) % n <= (v - start) % n
                    }
            },
        forall|i: int, j: int|
            0 <= i < j < spotcheck_places(nonce, leaf_count, wanted).len() ==> (
            #[trigger] spotcheck_places(nonce, leaf_count, wanted)[i]) < (
            #[trigger] spotcheck_places(nonce, leaf_count, wanted)[j]),
{
    let n = leaf_count as int;
    let count = sample_size(leaf_count, wanted);
    let drawn = drawn_places(nonce, leaf_count, count as nat);
    let sample = spotcheck_places(nonce, leaf_count, wanted);
    sample_is_exact(nonce, leaf_count, wanted);
    draws_are_distinct(nonce, leaf_count, count as nat);
    draws_take_first_free(nonce, leaf_count, count as nat);
    ascending_members_exact(drawn, leaf_count);
    assert forall|v: u32| #[trigger] sample.contains(v) <==> drawn.contains(v) by {
        if drawn.contains(v) {
            let k = choose|k: int| 0 <= k < drawn.len() && drawn[k] == v;
            assert(drawn[k] < leaf_count);
        }
    }
    assert forall|i: int, v: u32|
        0 <= i < drawn.len() && v < leaf_count && !#[trigger] drawn.take(i).contains(v) implies {
        let digest = crate::hashing::blake3_digest(
            "autonomi.ant.replication.subtree.spotcheck.v1".spec_bytes() + nonce@
                + vstd::bytes::spec_u32_to_le_bytes(i as u32),
        );
        let start = vstd::bytes::spec_u64_from_le_bytes(digest@.subrange(0, 8)) as int % n;
        (drawn[i] - start) % n <= (v - start) % n
    } by {
        let start = draw_start(nonce, n, i);
        assert(takes_first_free(drawn, n, start, i));
        vstd::arithmetic::div_mod::lemma_mod_bound(spotcheck_draw(nonce, i as u32) as int, n);
        first_free_is_nearest(drawn, n, start, i, v);
    }
    assert(drawn.no_duplicates());
}

/// Whether a place is taken.
fn is_taken(taken: &Vec<u32>, place: u32) -> (held: bool)
    ensures
        held == taken@.contains(place),
{
    let mut i: usize = 0;
    while i < taken.len()
        invariant
            i <= taken.len(),
            forall|j: int| 0 <= j < i ==> taken@[j] != place,
        decreases taken.len() - i,
    {
        if taken[i] == place {
            return true;
        }
        i += 1;
    }
    false
}

/// The leaves of a branch that a nonce samples: as many as wanted, or all where there are fewer,
/// ascending.
pub fn select_spotcheck_indices(nonce: &[u8; 32], path: &SubtreePath, wanted: u32) -> (places: Vec<
    u32,
>)
    ensures
        places@ == spotcheck_places(*nonce, path.leaf_count, wanted),
{
    let leaf_count: u32 = path.leaf_count;
    let count: u32 = if wanted <= leaf_count {
        wanted
    } else {
        leaf_count
    };
    let mut taken: Vec<u32> = Vec::new();
    let mut i: u32 = 0;
    while i < count
        invariant
            i <= count <= leaf_count,
            taken@ == drawn_places(*nonce, leaf_count, i as nat),
        decreases count - i,
    {
        let counter = vstd::bytes::u32_to_le_bytes(i);
        let mut buf: Vec<u8> = Vec::new();
        append(&mut buf, DOMAIN_SPOTCHECK.as_bytes());
        append(&mut buf, nonce.as_slice());
        append(&mut buf, counter.as_slice());
        assert(buf@ =~= DOMAIN_SPOTCHECK.spec_bytes() + nonce@ + counter@);
        let digest = blake3_hash(buf.as_slice());
        let draw: u64 = vstd::bytes::u64_from_le_bytes(
            vstd::slice::slice_subrange(digest.as_slice(), 0, 8),
        );
        let start: u32 = (draw % (leaf_count as u64)) as u32;
        let mut place: u32 = start;
        let mut steps: u32 = leaf_count;
        while steps > 0 && is_taken(&taken, place)
            invariant
                place < leaf_count,
                steps <= leaf_count,
                next_free(taken@, leaf_count, place, steps as nat) == next_free(
                    taken@,
                    leaf_count,
                    start,
                    leaf_count as nat,
                ),
            decreases steps,
        {
            place = if place < leaf_count - 1 {
                place + 1
            } else {
                0
            };
            steps -= 1;
        }
        taken.push(place);
        i += 1;
    }
    let mut places: Vec<u32> = Vec::new();
    let mut v: u32 = 0;
    while v < leaf_count
        invariant
            v <= leaf_count,
            places@ == ascending_members(taken@, v),
        decreases leaf_count - v,
    {
        if is_taken(&taken, v) {
            places.push(v);
        }
        v += 1;
    }
    places
}

} // verus!
