//! Left-packed Merkle trees over 32-byte digests.
//!
//! A level of `n` nodes is folded pairwise into a level of `ceil(n / 2)` nodes. An unpaired
//! last node is paired with itself. A single node is the root. The tree is described by its
//! leaf level alone; every internal node carries the domain tag that the caller chose.

use crate::hashing::{append, blake3_digest, blake3_hash, collides, same_bytes32};
use vstd::prelude::*;

verus! {

/// The bytes that an internal node digests: `domain ‖ left ‖ right`.
pub open spec fn node_bytes(domain: Seq<u8>, left: [u8; 32], right: [u8; 32]) -> Seq<u8> {
    domain + left@ + right@
}

/// The digest of an internal node: `BLAKE3(domain ‖ left ‖ right)`.
pub open spec fn node_digest(domain: Seq<u8>, left: [u8; 32], right: [u8; 32]) -> [u8; 32] {
    blake3_digest(node_bytes(domain, left, right))
}

/// The node that `level[i]` is paired with: its neighbour, or itself where it has none.
pub open spec fn sibling(level: Seq<[u8; 32]>, i: int) -> [u8; 32] {
    let other = if i % 2 == 0 { i + 1 } else { i - 1 };
    if other < level.len() {
        level[other]
    } else {
        level[i]
    }
}

/// The level above `level`.
pub open spec fn parents(domain: Seq<u8>, level: Seq<[u8; 32]>) -> Seq<[u8; 32]> {
    Seq::new(
        ((level.len() + 1) / 2) as nat,
        |i: int| node_digest(domain, level[2 * i], sibling(level, 2 * i)),
    )
}

/// The root of the tree whose leaf level is `level`.
pub open spec fn root(domain: Seq<u8>, level: Seq<[u8; 32]>) -> [u8; 32]
    decreases level.len(),
{
    if level.len() <= 1 {
        level[0]
    } else {
        root(domain, parents(domain, level))
    }
}

/// The siblings on the way from node `i` of `level` to the root, lowest first.
pub open spec fn siblings(domain: Seq<u8>, level: Seq<[u8; 32]>, i: int) -> Seq<[u8; 32]>
    decreases level.len(),
{
    if level.len() <= 1 {
        Seq::empty()
    } else {
        seq![sibling(level, i)] + siblings(domain, parents(domain, level), i / 2)
    }
}

/// The digest reached from `digest`, at index `i` of its level, by folding in `path` from the
/// lowest sibling up. At an even index the sibling stands on the right, at an odd one on the left.
pub open spec fn fold_path(
    domain: Seq<u8>,
    digest: [u8; 32],
    i: int,
    path: Seq<[u8; 32]>,
) -> [u8; 32]
    decreases path.len(),
{
    if path.len() == 0 {
        digest
    } else {
        let up = if i % 2 == 0 {
            node_digest(domain, digest, path[0])
        } else {
            node_digest(domain, path[0], digest)
        };
        fold_path(domain, up, i / 2, path.skip(1))
    }
}

/// The number of folds from a level of `n` nodes to the root.
pub open spec fn depth(n: nat) -> nat
    decreases n,
{
    if n <= 1 {
        0
    } else {
        1 + depth(((n + 1) / 2) as nat)
    }
}

/// Every leaf of a tree, folded with its own siblings, gives the root.
pub proof fn path_leads_to_root(domain: Seq<u8>, level: Seq<[u8; 32]>, i: int)
    requires
        0 <= i < level.len(),
    ensures
        fold_path(domain, level[i], i, siblings(domain, level, i)) == root(domain, level),
    decreases level.len(),
{
    let path = siblings(domain, level, i);
    if level.len() > 1 {
        let above = parents(domain, level);
        path_leads_to_root(domain, above, i / 2);
        assert(path.skip(1) =~= siblings(domain, above, i / 2));
        assert(path[0] == sibling(level, i));
        if i % 2 == 0 {
            assert(above[i / 2] == node_digest(domain, level[i], path[0]));
        } else {
            assert(2 * (i / 2) == i - 1);
            assert(above[i / 2] == node_digest(domain, path[0], level[i]));
        }
    }
}

/// A path holds one sibling for each fold.
pub proof fn siblings_len(domain: Seq<u8>, level: Seq<[u8; 32]>, i: int)
    ensures
        siblings(domain, level, i).len() == depth(level.len()),
    decreases level.len(),
{
    if level.len() > 1 {
        siblings_len(domain, parents(domain, level), i / 2);
    }
}

/// There are never more folds than nodes.
pub proof fn depth_is_small(n: nat)
    ensures
        depth(n) <= n,
    decreases n,
{
    if n > 1 {
        depth_is_small(((n + 1) / 2) as nat);
    }
}

/// A tree of `n` leaves has as many folds as the least power of two that is not below `n` has
/// halvings.
pub proof fn depth_is_log2(n: nat)
    ensures
        n <= vstd::arithmetic::power2::pow2(depth(n)),
        n > 1 ==> n > vstd::arithmetic::power2::pow2((depth(n) - 1) as nat),
    decreases n,
{
    vstd::arithmetic::power2::lemma2_to64();
    if n > 1 {
        let half = ((n + 1) / 2) as nat;
        depth_is_log2(half);
        vstd::arithmetic::power2::lemma_pow2_unfold(depth(n));
        if half > 1 {
            vstd::arithmetic::power2::lemma_pow2_unfold(depth(half));
        }
    }
}

/// The level `height` folds above `level`. A single node is folded with itself.
pub open spec fn level_above(domain: Seq<u8>, level: Seq<[u8; 32]>, height: nat) -> Seq<[u8; 32]>
    decreases height,
{
    if height == 0 {
        level
    } else {
        parents(domain, level_above(domain, level, (height - 1) as nat))
    }
}

/// As long as there is something to fold, a higher level has the same root as a lower one, and
/// that many folds less to it.
pub proof fn levels_share_root(domain: Seq<u8>, level: Seq<[u8; 32]>, height: nat)
    requires
        level.len() > 0,
        height <= depth(level.len()),
    ensures
        level_above(domain, level, height).len() > 0,
        root(domain, level_above(domain, level, height)) == root(domain, level),
        depth(level_above(domain, level, height).len()) == depth(level.len()) - height,
    decreases height,
{
    if height > 0 {
        levels_share_root(domain, level, (height - 1) as nat);
    }
}

/// A level has a node at `index` exactly where there is a leaf at the start of its span.
pub proof fn level_reaches(domain: Seq<u8>, level: Seq<[u8; 32]>, height: nat, index: nat)
    ensures
        index < level_above(domain, level, height).len() <==> index
            * vstd::arithmetic::power2::pow2(height) < level.len(),
    decreases height,
{
    if height == 0 {
        vstd::arithmetic::power2::lemma2_to64();
    } else {
        let below = level_above(domain, level, (height - 1) as nat);
        level_reaches(domain, level, (height - 1) as nat, 2 * index);
        vstd::arithmetic::power2::lemma_pow2_unfold(height);
        let w = vstd::arithmetic::power2::pow2((height - 1) as nat);
        assert(index * (2 * w) == (2 * index) * w) by (nonlinear_arith);
        assert(level_above(domain, level, height).len() == (below.len() + 1) / 2);
    }
}

/// Folding a part of a level that starts at an even place, and ends at one or with the level,
/// gives that part of the next level.
proof fn fold_of_part(domain: Seq<u8>, level: Seq<[u8; 32]>, a: int, b: int)
    requires
        0 <= a < b,
        2 * a < level.len(),
    ensures
        parents(
            domain,
            level.subrange(2 * a, if 2 * b < level.len() { 2 * b } else { level.len() as int }),
        ) == parents(domain, level).subrange(
            a,
            if b < parents(domain, level).len() { b } else { parents(domain, level).len() as int },
        ),
{
    let end = if 2 * b < level.len() { 2 * b } else { level.len() as int };
    let part = level.subrange(2 * a, end);
    let above = parents(domain, level);
    let above_end = if b < above.len() { b } else { above.len() as int };
    let left = parents(domain, part);
    let right = above.subrange(a, above_end);
    assert(left.len() == right.len());
    assert forall|i: int| 0 <= i < left.len() implies left[i] == right[i] by {
        assert(part[2 * i] == level[2 * (a + i)]);
        assert(sibling(part, 2 * i) == sibling(level, 2 * (a + i)));
        assert(right[i] == above[a + i]);
    }
    assert(left =~= right);
}

/// The leaves under the node at `index` of the level at `height`.
pub open spec fn leaves_under(leaves: Seq<[u8; 32]>, height: nat, index: nat) -> Seq<[u8; 32]> {
    let width = vstd::arithmetic::power2::pow2(height);
    leaves.subrange(
        (index * width) as int,
        if (index + 1) * width < leaves.len() {
            ((index + 1) * width) as int
        } else {
            leaves.len() as int
        },
    )
}

/// After `t` folds, what lies under a node is what lies under it in the level that high.
proof fn fold_under_node(domain: Seq<u8>, leaves: Seq<[u8; 32]>, height: nat, index: nat, t: nat)
    requires
        t <= height,
        index * vstd::arithmetic::power2::pow2(height) < leaves.len(),
    ensures
        level_above(domain, leaves_under(leaves, height, index), t) == leaves_under(
            level_above(domain, leaves, t),
            (height - t) as nat,
            index,
        ),
        index * vstd::arithmetic::power2::pow2((height - t) as nat) < level_above(
            domain,
            leaves,
            t,
        ).len(),
    decreases t,
{
    let part = leaves_under(leaves, height, index);
    if t > 0 {
        let before = (t - 1) as nat;
        fold_under_node(domain, leaves, height, index, before);
        let level = level_above(domain, leaves, before);
        let w = vstd::arithmetic::power2::pow2((height - t) as nat);
        vstd::arithmetic::power2::lemma_pow2_unfold((height - before) as nat);
        vstd::arithmetic::power2::lemma_pow2_pos((height - t) as nat);
        let a = (index * w) as int;
        let b = ((index + 1) * w) as int;
        assert(index * (2 * w) == 2 * (index * w)) by (nonlinear_arith);
        assert((index + 1) * (2 * w) == 2 * ((index + 1) * w)) by (nonlinear_arith);
        assert(index * w < (index + 1) * w) by (nonlinear_arith)
            requires
                w > 0,
        ;
        fold_of_part(domain, level, a, b);
    }
}

/// Folding the leaves under a node, as often as the node is high, gives the node.
pub proof fn node_from_leaves(domain: Seq<u8>, leaves: Seq<[u8; 32]>, height: nat, index: nat)
    requires
        index * vstd::arithmetic::power2::pow2(height) < leaves.len(),
    ensures
        index < level_above(domain, leaves, height).len(),
        level_above(domain, leaves_under(leaves, height, index), height) == seq![
            level_above(domain, leaves, height)[index as int],
        ],
{
    fold_under_node(domain, leaves, height, index, height);
    level_reaches(domain, leaves, height, index);
    vstd::arithmetic::power2::lemma2_to64();
    let top = level_above(domain, leaves, height);
    let one = vstd::arithmetic::power2::pow2(0);
    assert(index * one == index && (index + 1) * one == index + 1) by (nonlinear_arith)
        requires
            one == 1,
    ;
    assert(leaves_under(top, 0, index) =~= seq![top[index as int]]);
}

/// The root of a tree of one leaf is the leaf. That of a larger tree digests the domain, what the
/// first leaves fold to, as many as the largest power of two that leaves some over, and what those
/// left over fold to by as many folds.
pub proof fn root_joins_halves(domain: Seq<u8>, leaves: Seq<[u8; 32]>, height: nat)
    requires
        leaves.len() > 0,
    ensures
        leaves.len() == 1 ==> root(domain, leaves) == leaves[0],
        vstd::arithmetic::power2::pow2(height) < leaves.len() <= 2
            * vstd::arithmetic::power2::pow2(height) ==> {
            let half = vstd::arithmetic::power2::pow2(height) as int;
            let left = level_above(domain, leaves.take(half), height);
            let right = level_above(domain, leaves.skip(half), height);
            &&& left.len() == 1 && right.len() == 1
            &&& root(domain, leaves) == blake3_digest(domain + left[0]@ + right[0]@)
        },
{
    let half = vstd::arithmetic::power2::pow2(height);
    if half < leaves.len() <= 2 * half {
        let level = level_above(domain, leaves, height);
        vstd::arithmetic::power2::lemma_pow2_unfold(height + 1);
        vstd::arithmetic::power2::lemma_pow2_pos(height);
        assert(0 * half == 0 && 1 * half == half && (1 + 1) * half == 2 * half && (0 + 1) * half
            == half) by (nonlinear_arith);
        node_from_leaves(domain, leaves, height, 0);
        node_from_leaves(domain, leaves, height, 1);
        assert(leaves_under(leaves, height, 0) =~= leaves.take(half as int));
        assert(leaves_under(leaves, height, 1) =~= leaves.skip(half as int));
        level_reaches(domain, leaves, height, 2);
        assert(2 * half == 2 * vstd::arithmetic::power2::pow2(height));
        assert(level.len() == 2);
        depth_of_span(leaves.len(), height);
        levels_share_root(domain, leaves, height);
        assert(level =~= seq![level[0], level[1]]);
        let top = parents(domain, level);
        assert(top.len() == 1);
        assert(root(domain, level) == root(domain, top));
        assert(top[0] == node_digest(domain, level[0], level[1]));
    }
}

/// A tree of more leaves than a power of two has more folds than that.
proof fn depth_of_span(n: nat, height: nat)
    requires
        vstd::arithmetic::power2::pow2(height) < n,
    ensures
        height <= depth(n),
{
    depth_is_log2(n);
    if depth(n) < height {
        vstd::arithmetic::power2::lemma_pow2_strictly_increases(depth(n), height);
    }
}

/// The node above two neighbours digests the domain, the left one and the right one; that above an
/// unpaired last one digests it twice.
pub proof fn neighbors_are_digested_together(domain: Seq<u8>, level: Seq<[u8; 32]>, i: int)
    requires
        0 <= i,
        2 * i < level.len(),
    ensures
        level_above(domain, level, 1)[i] == blake3_digest(
            domain + level[2 * i]@ + (if 2 * i + 1 < level.len() {
                level[2 * i + 1]
            } else {
                level[2 * i]
            })@,
        ),
        level_above(domain, level, 1).len() == (level.len() + 1) / 2,
        level_above(domain, level, 0) == level,
{
    reveal_with_fuel(level_above, 2);
}

/// The bytes that the parent of `digest`, at index `i` of its level, and `other` digests.
pub open spec fn parent_bytes(
    domain: Seq<u8>,
    digest: [u8; 32],
    i: int,
    other: [u8; 32],
) -> Seq<u8> {
    if i % 2 == 0 {
        node_bytes(domain, digest, other)
    } else {
        node_bytes(domain, other, digest)
    }
}

/// The leaf that one comes to from the root of a tree of `n` leaves by turning right where `i`
/// is odd at that level and left elsewhere: `i` itself where there is such a leaf. An unpaired
/// node is its own right neighbour, so there is always a leaf at the end.
pub open spec fn place(n: nat, i: int) -> int
    decreases n,
{
    if n <= 1 {
        0
    } else {
        let below = 2 * place(((n + 1) / 2) as nat, i / 2) + i % 2;
        if below < n {
            below
        } else {
            below - 1
        }
    }
}

/// There is a leaf at every place, and a leaf's index is its place.
pub proof fn place_of_index(n: nat, i: int)
    requires
        n > 0,
        0 <= i,
    ensures
        0 <= place(n, i) < n,
        i < n ==> place(n, i) == i,
    decreases n,
{
    if n > 1 {
        place_of_index(((n + 1) / 2) as nat, i / 2);
    }
}

/// Two byte strings that the fold of `path` into `digest` and the tree over `level` both digest:
/// at the lowest level at which they are different and have one digest.
pub open spec fn fold_collision(
    domain: Seq<u8>,
    level: Seq<[u8; 32]>,
    digest: [u8; 32],
    i: int,
    path: Seq<[u8; 32]>,
) -> (Seq<u8>, Seq<u8>)
    decreases level.len(),
{
    if level.len() <= 1 {
        (Seq::empty(), Seq::empty())
    } else {
        let above = parents(domain, level);
        let left = 2 * place(above.len(), i / 2);
        let folded = parent_bytes(domain, digest, i, path[0]);
        let kept = node_bytes(domain, level[left], sibling(level, left));
        if collides((folded, kept)) {
            (folded, kept)
        } else {
            fold_collision(domain, above, blake3_digest(folded), i / 2, path.skip(1))
        }
    }
}

/// Two nodes of one domain that digest the same bytes have the same children.
proof fn node_bytes_split(
    domain: Seq<u8>,
    left: [u8; 32],
    right: [u8; 32],
    left2: [u8; 32],
    right2: [u8; 32],
)
    requires
        node_bytes(domain, left, right) == node_bytes(domain, left2, right2),
    ensures
        left == left2,
        right == right2,
{
    let a = node_bytes(domain, left, right);
    let b = node_bytes(domain, left2, right2);
    let n = domain.len() as int;
    assert(a.subrange(n, n + 32) =~= left@);
    assert(b.subrange(n, n + 32) =~= left2@);
    assert(a.subrange(n + 32, n + 64) =~= right@);
    assert(b.subrange(n + 32, n + 64) =~= right2@);
    assert(left =~= left2);
    assert(right =~= right2);
}

/// What leads to the root of a tree by as many folds as the tree has is the leaf at that place,
/// unless two byte strings that were digested on the way, one by the fold and one by the tree,
/// are different and have one digest.
pub proof fn fold_leads_from_leaf(
    domain: Seq<u8>,
    level: Seq<[u8; 32]>,
    digest: [u8; 32],
    i: int,
    path: Seq<[u8; 32]>,
)
    requires
        level.len() > 0,
        0 <= i,
        path.len() == depth(level.len()),
        fold_path(domain, digest, i, path) == root(domain, level),
    ensures
        digest == level[place(level.len(), i)] || collides(
            fold_collision(domain, level, digest, i, path),
        ),
    decreases level.len(),
{
    if level.len() > 1 {
        let above = parents(domain, level);
        let up = place(above.len(), i / 2);
        let folded = parent_bytes(domain, digest, i, path[0]);
        let kept = node_bytes(domain, level[2 * up], sibling(level, 2 * up));
        fold_leads_from_leaf(domain, above, blake3_digest(folded), i / 2, path.skip(1));
        place_of_index(above.len(), i / 2);
        assert(above[up] == blake3_digest(kept));
        if folded == kept {
            if i % 2 == 0 {
                node_bytes_split(domain, digest, path[0], level[2 * up], sibling(level, 2 * up));
            } else {
                node_bytes_split(domain, path[0], digest, level[2 * up], sibling(level, 2 * up));
            }
        }
    }
}

/// The digests of byte strings.
pub open spec fn digests(strings: Seq<Seq<u8>>) -> Seq<[u8; 32]> {
    Seq::new(strings.len(), |i: int| blake3_digest(strings[i]))
}

/// The byte strings that the level above the digests of `strings` digests.
pub open spec fn parent_strings(domain: Seq<u8>, strings: Seq<Seq<u8>>) -> Seq<Seq<u8>> {
    Seq::new(
        ((strings.len() + 1) / 2) as nat,
        |i: int| child_bytes(domain, digests(strings), i),
    )
}

/// Whether a byte string begins with `domain`.
pub open spec fn tagged(domain: Seq<u8>, bytes: Seq<u8>) -> bool {
    bytes.len() >= domain.len() && bytes.take(domain.len() as int) == domain
}

/// Two byte strings of which one is digested on a path of any length from the digest of `bytes`,
/// and one in the tree over the digests of `strings`, at the same number of folds below the root:
/// the last ones before the path or the tree ends where these have one digest, else those where
/// the two meet.
pub open spec fn path_collision(
    domain: Seq<u8>,
    strings: Seq<Seq<u8>>,
    bytes: Seq<u8>,
    i: int,
    path: Seq<[u8; 32]>,
) -> (Seq<u8>, Seq<u8>)
    decreases path.len() + strings.len(),
{
    if path.len() > depth(strings.len()) {
        path_collision(
            domain,
            strings,
            parent_bytes(domain, blake3_digest(bytes), i, path[0]),
            i / 2,
            path.skip(1),
        )
    } else if path.len() < depth(strings.len()) {
        path_collision(domain, parent_strings(domain, strings), bytes, i, path)
    } else {
        let kept = strings[place(strings.len(), i)];
        if blake3_digest(bytes) == blake3_digest(kept) {
            (bytes, kept)
        } else {
            fold_collision(domain, digests(strings), blake3_digest(bytes), i, path)
        }
    }
}

/// What leads to the root of a tree, by a path of any length, is the byte string at that place of
/// the tree, unless the two byte strings of `path_collision` are different and have one digest. A
/// path longer than the tree is high takes some leaf for a node, and a shorter one some node for
/// a leaf: the leaf then has the tag of a node.
pub proof fn path_leads_from_leaf(
    domain: Seq<u8>,
    strings: Seq<Seq<u8>>,
    bytes: Seq<u8>,
    i: int,
    path: Seq<[u8; 32]>,
)
    requires
        strings.len() > 0,
        0 <= i,
        fold_path(domain, blake3_digest(bytes), i, path) == root(domain, digests(strings)),
    ensures
        collides(path_collision(domain, strings, bytes, i, path)) || {
            if path.len() > depth(strings.len()) {
                exists|t: int| 0 <= t < strings.len() && tagged(domain, #[trigger] strings[t])
            } else if path.len() < depth(strings.len()) {
                tagged(domain, bytes)
            } else {
                bytes == strings[place(strings.len(), i)]
            }
        },
    decreases path.len() + strings.len(),
{
    place_of_index(strings.len(), i);
    if path.len() > depth(strings.len()) {
        let up = parent_bytes(domain, blake3_digest(bytes), i, path[0]);
        place_of_index(strings.len(), i / 2);
        path_leads_from_leaf(domain, strings, up, i / 2, path.skip(1));
        assert(up.take(domain.len() as int) =~= domain);
    } else if path.len() < depth(strings.len()) {
        let above = parent_strings(domain, strings);
        assert(digests(above) =~= parents(domain, digests(strings)));
        path_leads_from_leaf(domain, above, bytes, i, path);
        assert forall|t: int| 0 <= t < above.len() implies tagged(domain, #[trigger] above[t]) by {
            assert(above[t].take(domain.len() as int) =~= domain);
        }
        place_of_index(above.len(), i);
    } else {
        fold_leads_from_leaf(domain, digests(strings), blake3_digest(bytes), i, path);
    }
}

/// Two byte strings that the trees over two levels digest at one place, and that are different.
pub open spec fn parents_collision(
    domain: Seq<u8>,
    a: Seq<[u8; 32]>,
    b: Seq<[u8; 32]>,
) -> (Seq<u8>, Seq<u8>) {
    let i = choose|i: int|
        0 <= i < parents(domain, a).len() && #[trigger] child_bytes(domain, a, i) != child_bytes(
            domain,
            b,
            i,
        );
    (child_bytes(domain, a, i), child_bytes(domain, b, i))
}

/// The bytes that node `i` of the level above `level` digests.
pub open spec fn child_bytes(domain: Seq<u8>, level: Seq<[u8; 32]>, i: int) -> Seq<u8> {
    node_bytes(domain, level[2 * i], sibling(level, 2 * i))
}

/// Two byte strings that the trees over two levels digest at one place, below `height` folds, at
/// the highest level at which the trees are different.
pub open spec fn levels_collision(
    domain: Seq<u8>,
    a: Seq<[u8; 32]>,
    b: Seq<[u8; 32]>,
    height: nat,
) -> (Seq<u8>, Seq<u8>)
    decreases height,
{
    if height == 0 {
        (Seq::empty(), Seq::empty())
    } else {
        let lower = (height - 1) as nat;
        if level_above(domain, a, lower) == level_above(domain, b, lower) {
            levels_collision(domain, a, b, lower)
        } else {
            parents_collision(
                domain,
                level_above(domain, a, lower),
                level_above(domain, b, lower),
            )
        }
    }
}

/// Two levels of one length that have one level above them are equal, unless two byte strings
/// that were digested at one place are different and have one digest.
proof fn parents_determine_level(domain: Seq<u8>, a: Seq<[u8; 32]>, b: Seq<[u8; 32]>)
    requires
        a.len() == b.len(),
        parents(domain, a) == parents(domain, b),
    ensures
        a == b || collides(parents_collision(domain, a, b)),
{
    if a != b {
        if forall|k: int| 0 <= k < a.len() ==> a[k] == b[k] {
            assert(a =~= b);
        }
        let k = choose|k: int| 0 <= k < a.len() && a[k] != b[k];
        let i = k / 2;
        if child_bytes(domain, a, i) == child_bytes(domain, b, i) {
            node_bytes_split(
                domain,
                a[2 * i],
                sibling(a, 2 * i),
                b[2 * i],
                sibling(b, 2 * i),
            );
            assert(k == 2 * i || k == 2 * i + 1);
        }
        let j = choose|j: int|
            0 <= j < parents(domain, a).len() && #[trigger] child_bytes(domain, a, j)
                != child_bytes(domain, b, j);
        assert(parents(domain, a)[j] == blake3_digest(child_bytes(domain, a, j)));
        assert(parents(domain, b)[j] == blake3_digest(child_bytes(domain, b, j)));
    }
}

/// How long a level is depends on the length of the level below alone.
pub proof fn levels_have_one_length(
    domain: Seq<u8>,
    a: Seq<[u8; 32]>,
    b: Seq<[u8; 32]>,
    height: nat,
)
    requires
        a.len() == b.len(),
    ensures
        level_above(domain, a, height).len() == level_above(domain, b, height).len(),
    decreases height,
{
    if height > 0 {
        levels_have_one_length(domain, a, b, (height - 1) as nat);
    }
}

/// Two levels of one length that have one level `height` folds above them are equal, unless two
/// byte strings that were digested at one place are different and have one digest.
pub proof fn level_above_determines_level(
    domain: Seq<u8>,
    a: Seq<[u8; 32]>,
    b: Seq<[u8; 32]>,
    height: nat,
)
    requires
        a.len() == b.len(),
        level_above(domain, a, height) == level_above(domain, b, height),
    ensures
        a == b || collides(levels_collision(domain, a, b, height)),
    decreases height,
{
    if height > 0 {
        let lower = (height - 1) as nat;
        if level_above(domain, a, lower) == level_above(domain, b, lower) {
            level_above_determines_level(domain, a, b, lower);
        } else {
            levels_have_one_length(domain, a, b, lower);
            parents_determine_level(
                domain,
                level_above(domain, a, lower),
                level_above(domain, b, lower),
            );
        }
    }
}

/// Hash two children into their parent.
pub fn hash_node(domain: &[u8], left: &[u8; 32], right: &[u8; 32]) -> (digest: [u8; 32])
    ensures
        digest == node_digest(domain@, *left, *right),
{
    let mut buf: Vec<u8> = Vec::new();
    append(&mut buf, domain);
    append(&mut buf, left.as_slice());
    append(&mut buf, right.as_slice());
    assert(buf@ =~= domain@ + left@ + right@);
    blake3_hash(buf.as_slice())
}

/// Fold one level of the tree.
pub fn fold_level(domain: &[u8], level: &[[u8; 32]]) -> (next: Vec<[u8; 32]>)
    ensures
        next@ == parents(domain@, level@),
{
    let mut next: Vec<[u8; 32]> = Vec::new();
    let count: usize = level.len() / 2 + level.len() % 2;
    let mut i: usize = 0;
    while i < count
        invariant
            i <= count,
            count == (level.len() + 1) / 2,
            next.len() == i,
            forall|j: int|
                0 <= j < i ==> next@[j] == node_digest(
                    domain@,
                    level@[2 * j],
                    sibling(level@, 2 * j),
                ),
        decreases count - i,
    {
        let left = level[2 * i];
        let right = if level.len() - 2 * i > 1 {
            level[2 * i + 1]
        } else {
            left
        };
        next.push(hash_node(domain, &left, &right));
        i += 1;
    }
    assert(next@ =~= parents(domain@, level@));
    next
}

/// The root of the tree over a non-empty leaf level.
pub fn compute_root(domain: &[u8], leaves: Vec<[u8; 32]>) -> (digest: [u8; 32])
    requires
        leaves.len() > 0,
    ensures
        digest == root(domain@, leaves@),
{
    let mut level = leaves;
    while level.len() > 1
        invariant
            level.len() > 0,
            root(domain@, level@) == root(domain@, leaves@),
        decreases level.len(),
    {
        level = fold_level(domain, level.as_slice());
    }
    level[0]
}

/// The siblings on the way from leaf `index` to the root, lowest first.
pub fn compute_siblings(domain: &[u8], leaves: Vec<[u8; 32]>, index: usize) -> (path: Vec<
    [u8; 32],
>)
    requires
        index < leaves.len(),
    ensures
        path@ == siblings(domain@, leaves@, index as int),
{
    let mut level = leaves;
    let mut i: usize = index;
    let mut path: Vec<[u8; 32]> = Vec::new();
    while level.len() > 1
        invariant
            i < level.len(),
            path@ + siblings(domain@, level@, i as int) == siblings(
                domain@,
                leaves@,
                index as int,
            ),
        decreases level.len(),
    {
        let other: usize = if i % 2 == 0 {
            i + 1
        } else {
            i - 1
        };
        let digest = if other < level.len() {
            level[other]
        } else {
            level[i]
        };
        let ghost before = path@;
        path.push(digest);
        proof {
            let rest = siblings(domain@, parents(domain@, level@), i as int / 2);
            assert(path@ + rest =~= before + (seq![digest] + rest));
        }
        i = i / 2;
        level = fold_level(domain, level.as_slice());
    }
    assert(path@ =~= path@ + siblings(domain@, level@, i as int));
    path
}

/// Fold `path` into `digest`, which stands at `index` of its level.
pub fn compute_fold(domain: &[u8], digest: [u8; 32], index: usize, path: &[[u8; 32]]) -> (up:
    [u8; 32])
    ensures
        up == fold_path(domain@, digest, index as int, path@),
{
    let mut current = digest;
    let mut i: usize = index;
    let mut k: usize = 0;
    assert(path@.skip(0) =~= path@);
    while k < path.len()
        invariant
            k <= path.len(),
            fold_path(domain@, current, i as int, path@.skip(k as int)) == fold_path(
                domain@,
                digest,
                index as int,
                path@,
            ),
        decreases path.len() - k,
    {
        assert(path@.skip(k as int).skip(1) =~= path@.skip(k + 1));
        current = if i % 2 == 0 {
            hash_node(domain, &current, &path[k])
        } else {
            hash_node(domain, &path[k], &current)
        };
        i = i / 2;
        k += 1;
    }
    current
}

/// Whether `digest`, at leaf `index`, leads to `expected` by way of `path`.
pub fn path_matches(
    domain: &[u8],
    digest: [u8; 32],
    index: usize,
    path: &[[u8; 32]],
    expected: &[u8; 32],
) -> (matches: bool)
    ensures
        matches == (fold_path(domain@, digest, index as int, path@) == *expected),
{
    same_bytes32(&compute_fold(domain, digest, index, path), expected)
}

} // verus!
