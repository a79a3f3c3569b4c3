//! Possession proofs for single blocks of a chunk.
//!
//! A chunk is cut into blocks of one kibibyte. For an opened block the auditor checks two
//! chains over the same bytes. The Bao chain leads to the chunk's address, so the bytes are the
//! content stored there. The nonced chain leads to a root that the responder committed to under
//! the audit's fresh nonce, so the responder held the content when it committed.

use crate::ant_protocol::XorName;
use crate::hashing::{append, blake3_hash, collides};
use crate::replication::merkle;
use vstd::prelude::*;
use vstd::slice::slice_subrange;
use vstd::string::*;

verus! {

/// Bytes in a block: one BLAKE3 chunk.
pub const AUDIT_BLOCK_SIZE: u64 = 1024;

/// Domain tag of a leaf of the nonced block tree.
pub const DOMAIN_BLOCK_LEAF: &'static str = "autonomi.ant.audit.slice.block-leaf.v1";

/// Domain tag of an internal node of the nonced block tree.
pub const DOMAIN_BLOCK_NODE: &'static str = "autonomi.ant.audit.slice.block-node.v1";

/// The number of blocks that cover `len` bytes: at least one, at most `u32::MAX`.
pub open spec fn blocks_in(len: int) -> int {
    let needed = (len + AUDIT_BLOCK_SIZE - 1) / AUDIT_BLOCK_SIZE as int;
    if needed < 1 {
        1
    } else if needed > u32::MAX {
        u32::MAX as int
    } else {
        needed
    }
}

/// Where block `index` of `len` bytes begins; `len` past the end.
pub open spec fn block_start(len: int, index: int) -> int {
    if index * AUDIT_BLOCK_SIZE < len {
        index * AUDIT_BLOCK_SIZE
    } else {
        len
    }
}

/// Where block `index` of `len` bytes ends: where the next one begins.
pub open spec fn block_end(len: int, index: int) -> int {
    block_start(len, index + 1)
}

/// The bytes of block `index` of `content`.
pub open spec fn block_of(content: Seq<u8>, index: int) -> Seq<u8> {
    content.subrange(
        block_start(content.len() as int, index),
        block_end(content.len() as int, index),
    )
}

/// The bytes that a leaf of the nonced block tree digests: the tag, the nonce, the challenged
/// peer, the key, the block's index and length as little-endian words, and the block.
pub open spec fn block_leaf_bytes(
    nonce: [u8; 32],
    peer: [u8; 32],
    key: XorName,
    index: u32,
    block: Seq<u8>,
) -> Seq<u8> {
    let len = if block.len() <= u32::MAX {
        block.len() as u32
    } else {
        u32::MAX
    };
    DOMAIN_BLOCK_LEAF.spec_bytes() + nonce@ + peer@ + key@ + vstd::bytes::spec_u32_to_le_bytes(
        index,
    ) + vstd::bytes::spec_u32_to_le_bytes(len) + block
}

/// The leaf of the nonced block tree: the digest of its bytes.
pub open spec fn block_leaf(
    nonce: [u8; 32],
    peer: [u8; 32],
    key: XorName,
    index: u32,
    block: Seq<u8>,
) -> [u8; 32] {
    crate::hashing::blake3_digest(block_leaf_bytes(nonce, peer, key, index, block))
}

/// The leaves of the nonced block tree over `content`, in block order.
pub open spec fn block_leaves(
    nonce: [u8; 32],
    peer: [u8; 32],
    key: XorName,
    content: Seq<u8>,
) -> Seq<[u8; 32]> {
    Seq::new(
        blocks_in(content.len() as int) as nat,
        |i: int| block_leaf(nonce, peer, key, i as u32, block_of(content, i)),
    )
}

/// The root of the nonced block tree over `content`.
pub open spec fn block_root(
    nonce: [u8; 32],
    peer: [u8; 32],
    key: XorName,
    content: Seq<u8>,
) -> [u8; 32] {
    merkle::root(DOMAIN_BLOCK_NODE.spec_bytes(), block_leaves(nonce, peer, key, content))
}

/// The siblings on the way from block `index` to the root.
pub open spec fn block_siblings(
    nonce: [u8; 32],
    peer: [u8; 32],
    key: XorName,
    content: Seq<u8>,
    index: int,
) -> Seq<[u8; 32]> {
    merkle::siblings(
        DOMAIN_BLOCK_NODE.spec_bytes(),
        block_leaves(nonce, peer, key, content),
        index,
    )
}

/// Whether `block`, opened at `index` with `path`, leads to `root`.
pub open spec fn opening_leads_to(
    nonce: [u8; 32],
    peer: [u8; 32],
    key: XorName,
    index: u32,
    block: Seq<u8>,
    path: Seq<[u8; 32]>,
    root: [u8; 32],
) -> bool {
    merkle::fold_path(
        DOMAIN_BLOCK_NODE.spec_bytes(),
        block_leaf(nonce, peer, key, index, block),
        index as int,
        path,
    ) == root
}

/// The bytes of an optional byte string.
pub open spec fn option_view(bytes: Option<Vec<u8>>) -> Option<Seq<u8>> {
    match bytes {
        Some(b) => Some(b@),
        None => None,
    }
}

/// The Bao outboard encoding of `content`.
pub uninterp spec fn bao_outboard(content: Seq<u8>) -> Seq<u8>;

/// The slice for `len` bytes from `start` that is extracted from `content` and the tree hashes in
/// `encoded`; nothing where the extraction fails.
pub uninterp spec fn bao_extracted(content: Seq<u8>, encoded: Seq<u8>, start: u64, len: u64) -> Option<
    Seq<u8>,
>;

/// What decoding `slice` gives for the `len` bytes from `start` of the content whose BLAKE3
/// digest is `root`; nothing where it fails.
pub uninterp spec fn bao_decoded(slice: Seq<u8>, root: [u8; 32], start: u64, len: u64) -> Option<
    Seq<u8>,
>;

/// The longest content whose tree a Bao decoder can walk down to any block.
pub const MAX_DECODED_LEN: u64 = 0x8000_0000_0000_0000;

/// The first offset that lies past the two lowest blocks.
pub const PAST_LOWEST_BLOCKS: u64 = 2048;

/// Whether a Bao decoder has room for the way from the root that the length header of `slice`
/// declares to the block at `start`. Only the two lowest blocks of content that is longer than
/// anything a machine holds lie too deep.
pub open spec fn decodable(slice: Seq<u8>, start: int) -> bool {
    slice.len() < 8 || start >= PAST_LOWEST_BLOCKS || vstd::bytes::spec_u64_from_le_bytes(
        slice.take(8),
    ) <= MAX_DECODED_LEN
}

/// What an auditor accepts as block `index` of the content at `address`: the decoded bytes,
/// where there are as many as a block of content of `content_len` bytes has.
pub open spec fn accepted_block(
    slice: Seq<u8>,
    address: [u8; 32],
    content_len: u64,
    index: u32,
) -> Option<Seq<u8>> {
    let start = block_start(content_len as int, index as int);
    let len = block_end(content_len as int, index as int) - start;
    match bao_decoded(slice, address, start as u64, len as u64) {
        Some(bytes) => if decodable(slice, start) && bytes.len() == len {
            Some(bytes)
        } else {
            None
        },
        None => None,
    }
}

/// Consecutive blocks meet without gap or overlap, and none but that of empty content is empty.
/// The first begins at the start; the last ends with the content, unless the content has more
/// blocks than an index can count.
pub proof fn blocks_tile_content(len: int, index: int)
    requires
        0 <= len,
        0 <= index < blocks_in(len),
    ensures
        block_start(len, 0) == 0,
        block_end(len, index) == block_start(len, index + 1),
        0 <= block_start(len, index) <= block_end(len, index) <= len,
        block_end(len, index) - block_start(len, index) <= AUDIT_BLOCK_SIZE,
        len > 0 ==> block_start(len, index) < block_end(len, index),
        len <= u32::MAX * AUDIT_BLOCK_SIZE ==> block_end(len, blocks_in(len) - 1) == len,
{
}

/// Blocks are of one kibibyte: block `index` holds the bytes from `1024 * index` on, up to the next
/// block or the end. There is always one, and there are no more than it takes.
pub proof fn blocks_are_kibibytes(content: Seq<u8>, index: int)
    requires
        0 <= index,
        content.len() <= 0xffff_ffff * 1024,
    ensures
        block_of(content, index) == if 1024 * (index + 1) <= content.len() {
            content.subrange(1024 * index, 1024 * (index + 1))
        } else if 1024 * index <= content.len() {
            content.skip(1024 * index)
        } else {
            Seq::empty()
        },
        1 <= blocks_in(content.len() as int),
        1024 * blocks_in(content.len() as int) >= content.len(),
        blocks_in(content.len() as int) > 1 ==> 1024 * (blocks_in(content.len() as int) - 1)
            < content.len(),
{
    assert(block_of(content, index) =~= if 1024 * (index + 1) <= content.len() {
        content.subrange(1024 * index, 1024 * (index + 1))
    } else if 1024 * index <= content.len() {
        content.skip(1024 * index)
    } else {
        Seq::empty()
    });
}

/// The leaf of a block digests its tag, the nonce, the challenged peer, the key, the index and the
/// length of the block as little-endian words, and the block; a node digests another tag and its two
/// children.
pub proof fn block_tree_is_tagged(
    nonce: [u8; 32],
    peer: [u8; 32],
    key: XorName,
    content: Seq<u8>,
    index: u32,
)
    requires
        index < blocks_in(content.len() as int),
    ensures
        block_leaves(nonce, peer, key, content).len() == blocks_in(content.len() as int),
        block_leaves(nonce, peer, key, content)[index as int] == crate::hashing::blake3_digest(
            "autonomi.ant.audit.slice.block-leaf.v1".spec_bytes() + nonce@ + peer@ + key@
                + vstd::bytes::spec_u32_to_le_bytes(index) + vstd::bytes::spec_u32_to_le_bytes(
                block_of(content, index as int).len() as u32,
            ) + block_of(content, index as int),
        ),
        block_root(nonce, peer, key, content) == merkle::root(
            "autonomi.ant.audit.slice.block-node.v1".spec_bytes(),
            block_leaves(nonce, peer, key, content),
        ),
{
    blocks_tile_content(content.len() as int, index as int);
}

/// A block that is accepted is as long as that block of content of the length that is known, and
/// holds what was decoded for just these bytes.
pub proof fn accepted_block_has_its_length(
    slice: Seq<u8>,
    address: [u8; 32],
    content_len: u64,
    index: u32,
)
    requires
        accepted_block(slice, address, content_len, index) is Some,
    ensures
        ({
            let start = if 1024 * index <= content_len {
                1024 * index
            } else {
                content_len as int
            };
            let end = if 1024 * (index + 1) <= content_len {
                1024 * (index + 1)
            } else {
                content_len as int
            };
            let bytes = accepted_block(slice, address, content_len, index)->0;
            &&& bytes.len() == end - start
            &&& bao_decoded(slice, address, start as u64, (end - start) as u64) == Some(bytes)
        }),
{
}

/// Every block of a content opens to the content's nonced root with its own siblings.
pub proof fn block_openings_lead_to_root(
    nonce: [u8; 32],
    peer: [u8; 32],
    key: XorName,
    content: Seq<u8>,
    index: u32,
)
    requires
        index < blocks_in(content.len() as int),
    ensures
        opening_leads_to(
            nonce,
            peer,
            key,
            index,
            block_of(content, index as int),
            block_siblings(nonce, peer, key, content, index as int),
            block_root(nonce, peer, key, content),
        ),
{
    merkle::path_leads_to_root(
        DOMAIN_BLOCK_NODE.spec_bytes(),
        block_leaves(nonce, peer, key, content),
        index as int,
    );
}

/// Two leaves that digest the same bytes are of the same audit and hold the same block.
proof fn block_leaf_bytes_split(
    nonce: [u8; 32],
    peer: [u8; 32],
    key: XorName,
    index: u32,
    block: Seq<u8>,
    nonce2: [u8; 32],
    peer2: [u8; 32],
    key2: XorName,
    index2: u32,
    block2: Seq<u8>,
)
    requires
        block_leaf_bytes(nonce, peer, key, index, block) == block_leaf_bytes(
            nonce2,
            peer2,
            key2,
            index2,
            block2,
        ),
    ensures
        nonce == nonce2,
        peer == peer2,
        key == key2,
        index == index2,
        block == block2,
{
    vstd::bytes::lemma_auto_spec_u32_to_from_le_bytes();
    let a = block_leaf_bytes(nonce, peer, key, index, block);
    let b = block_leaf_bytes(nonce2, peer2, key2, index2, block2);
    let n = DOMAIN_BLOCK_LEAF.spec_bytes().len() as int;
    let word = vstd::bytes::spec_u32_to_le_bytes(index);
    let word2 = vstd::bytes::spec_u32_to_le_bytes(index2);
    assert(a.subrange(n, n + 32) =~= nonce@ && b.subrange(n, n + 32) =~= nonce2@);
    assert(a.subrange(n + 32, n + 64) =~= peer@ && b.subrange(n + 32, n + 64) =~= peer2@);
    assert(a.subrange(n + 64, n + 96) =~= key@ && b.subrange(n + 64, n + 96) =~= key2@);
    assert(a.subrange(n + 96, n + 100) =~= word && b.subrange(n + 96, n + 100) =~= word2);
    assert(a.skip(n + 104) =~= block && b.skip(n + 104) =~= block2);
    assert(nonce =~= nonce2 && peer =~= peer2 && key =~= key2);
}

/// No leaf begins with the tag of a node.
proof fn block_leaf_is_no_node(
    nonce: [u8; 32],
    peer: [u8; 32],
    key: XorName,
    index: u32,
    block: Seq<u8>,
)
    ensures
        !merkle::tagged(
            DOMAIN_BLOCK_NODE.spec_bytes(),
            block_leaf_bytes(nonce, peer, key, index, block),
        ),
{
    let bytes = block_leaf_bytes(nonce, peer, key, index, block);
    let leaf = DOMAIN_BLOCK_LEAF.spec_bytes();
    let node = DOMAIN_BLOCK_NODE.spec_bytes();
    reveal_strlit("autonomi.ant.audit.slice.block-leaf.v1");
    reveal_strlit("autonomi.ant.audit.slice.block-node.v1");
    vstd::utf8::is_ascii_chars_encode_utf8(DOMAIN_BLOCK_LEAF@);
    vstd::utf8::is_ascii_chars_encode_utf8(DOMAIN_BLOCK_NODE@);
    assert(leaf.len() == node.len());
    assert(DOMAIN_BLOCK_LEAF@[31] == 'l' && DOMAIN_BLOCK_NODE@[31] == 'n');
    assert(leaf[31] != node[31]);
    assert(bytes[31] == leaf[31]);
    if merkle::tagged(node, bytes) {
        assert(bytes.take(node.len() as int)[31] == bytes[31]);
    }
}

/// The byte strings that the leaves of the nonced block tree over `content` digest.
pub open spec fn block_leaf_strings(
    nonce: [u8; 32],
    peer: [u8; 32],
    key: XorName,
    content: Seq<u8>,
) -> Seq<Seq<u8>> {
    Seq::new(
        blocks_in(content.len() as int) as nat,
        |i: int| block_leaf_bytes(nonce, peer, key, i as u32, block_of(content, i)),
    )
}

/// Two byte strings of which one is digested in an opening and one in the nonced block tree over
/// the content that was committed to, at the same number of folds below the root. The opening is
/// of `block` at `index` under `nonce`, `peer` and `key`; what was committed to is `content` under
/// `nonce2`, `peer2` and `key2`.
pub open spec fn opening_collision(
    nonce: [u8; 32],
    peer: [u8; 32],
    key: XorName,
    index: u32,
    block: Seq<u8>,
    path: Seq<[u8; 32]>,
    nonce2: [u8; 32],
    peer2: [u8; 32],
    key2: XorName,
    content: Seq<u8>,
) -> (Seq<u8>, Seq<u8>) {
    merkle::path_collision(
        DOMAIN_BLOCK_NODE.spec_bytes(),
        block_leaf_strings(nonce2, peer2, key2, content),
        block_leaf_bytes(nonce, peer, key, index, block),
        index as int,
        path,
    )
}

/// An opening that leads to a nonced root, by a path of any length, shows what was committed to:
/// it is of the same nonce, peer and key, and its block is the one at its index of the content,
/// unless the two byte strings of `opening_collision` are different and have one digest.
pub proof fn opening_is_committed(
    nonce: [u8; 32],
    peer: [u8; 32],
    key: XorName,
    index: u32,
    block: Seq<u8>,
    path: Seq<[u8; 32]>,
    nonce2: [u8; 32],
    peer2: [u8; 32],
    key2: XorName,
    content: Seq<u8>,
)
    requires
        opening_leads_to(
            nonce,
            peer,
            key,
            index,
            block,
            path,
            block_root(nonce2, peer2, key2, content),
        ),
    ensures
        ({
            &&& nonce == nonce2
            &&& peer == peer2
            &&& key == key2
            &&& index < blocks_in(content.len() as int)
            &&& block == block_of(content, index as int)
        }) || collides(
            opening_collision(
                nonce,
                peer,
                key,
                index,
                block,
                path,
                nonce2,
                peer2,
                key2,
                content,
            ),
        ),
{
    let domain = DOMAIN_BLOCK_NODE.spec_bytes();
    let strings = block_leaf_strings(nonce2, peer2, key2, content);
    let bytes = block_leaf_bytes(nonce, peer, key, index, block);
    assert(merkle::digests(strings) =~= block_leaves(nonce2, peer2, key2, content));
    merkle::path_leads_from_leaf(domain, strings, bytes, index as int, path);
    block_leaf_is_no_node(nonce, peer, key, index, block);
    assert forall|t: int| 0 <= t < strings.len() implies !merkle::tagged(
        domain,
        #[trigger] strings[t],
    ) by {
        block_leaf_is_no_node(nonce2, peer2, key2, t as u32, block_of(content, t));
    }
    let t = merkle::place(strings.len(), index as int);
    merkle::place_of_index(strings.len(), index as int);
    if bytes == strings[t] {
        block_leaf_bytes_split(
            nonce,
            peer,
            key,
            index,
            block,
            nonce2,
            peer2,
            key2,
            t as u32,
            block_of(content, t),
        );
    }
}

/// The two byte strings that the opening of block `index` of `content` gives against the nonced
/// block tree over `content2`.
pub open spec fn block_collision(
    nonce: [u8; 32],
    peer: [u8; 32],
    key: XorName,
    content: Seq<u8>,
    nonce2: [u8; 32],
    peer2: [u8; 32],
    key2: XorName,
    content2: Seq<u8>,
    index: u32,
) -> (Seq<u8>, Seq<u8>) {
    opening_collision(
        nonce,
        peer,
        key,
        index,
        block_of(content, index as int),
        block_siblings(nonce, peer, key, content, index as int),
        nonce2,
        peer2,
        key2,
        content2,
    )
}

/// Two byte strings of which one is digested in the nonced block tree over `content` and one in
/// that over `content2`: those that some block of either content, opened in its own tree, gives
/// against the other.
pub open spec fn root_collision(
    nonce: [u8; 32],
    peer: [u8; 32],
    key: XorName,
    content: Seq<u8>,
    nonce2: [u8; 32],
    peer2: [u8; 32],
    key2: XorName,
    content2: Seq<u8>,
) -> (Seq<u8>, Seq<u8>) {
    let i = choose|i: u32|
        i < blocks_in(content.len() as int) && collides(
            #[trigger] block_collision(
                nonce,
                peer,
                key,
                content,
                nonce2,
                peer2,
                key2,
                content2,
                i,
            ),
        );
    let j = choose|j: u32|
        j < blocks_in(content2.len() as int) && collides(
            #[trigger] block_collision(
                nonce2,
                peer2,
                key2,
                content2,
                nonce,
                peer,
                key,
                content,
                j,
            ),
        );
    let first = block_collision(nonce, peer, key, content, nonce2, peer2, key2, content2, i);
    if collides(first) {
        first
    } else {
        block_collision(nonce2, peer2, key2, content2, nonce, peer, key, content, j)
    }
}

/// Block `index` of `content`, opened in its own tree, is block `index` of any content with the
/// same nonced root, under the same nonce, peer and key, unless two byte strings collide.
proof fn block_is_shared(
    nonce: [u8; 32],
    peer: [u8; 32],
    key: XorName,
    content: Seq<u8>,
    nonce2: [u8; 32],
    peer2: [u8; 32],
    key2: XorName,
    content2: Seq<u8>,
    index: u32,
)
    requires
        block_root(nonce, peer, key, content) == block_root(nonce2, peer2, key2, content2),
        index < blocks_in(content.len() as int),
    ensures
        ({
            &&& nonce == nonce2
            &&& peer == peer2
            &&& key == key2
            &&& index < blocks_in(content2.len() as int)
            &&& block_of(content, index as int) == block_of(content2, index as int)
        }) || collides(
            block_collision(nonce, peer, key, content, nonce2, peer2, key2, content2, index),
        ),
{
    block_openings_lead_to_root(nonce, peer, key, content, index);
    opening_is_committed(
        nonce,
        peer,
        key,
        index,
        block_of(content, index as int),
        block_siblings(nonce, peer, key, content, index as int),
        nonce2,
        peer2,
        key2,
        content2,
    );
}

/// Contents that have the same blocks are the same.
proof fn blocks_determine_content(a: Seq<u8>, b: Seq<u8>)
    requires
        a.len() <= u32::MAX * AUDIT_BLOCK_SIZE,
        b.len() <= u32::MAX * AUDIT_BLOCK_SIZE,
        blocks_in(a.len() as int) == blocks_in(b.len() as int),
        forall|i: int| 0 <= i < blocks_in(a.len() as int) ==> block_of(a, i) == block_of(b, i),
    ensures
        a == b,
{
    let last = blocks_in(a.len() as int) - 1;
    assert(block_of(a, last).len() == block_of(b, last).len());
    blocks_tile_content(a.len() as int, last);
    blocks_tile_content(b.len() as int, last);
    assert(a.len() == b.len());
    assert forall|x: int| 0 <= x < a.len() implies a[x] == b[x] by {
        let i = x / AUDIT_BLOCK_SIZE as int;
        let start = i * AUDIT_BLOCK_SIZE;
        assert(block_of(a, i)[x - start] == a[x]);
        assert(block_of(b, i)[x - start] == b[x]);
    }
    assert(a =~= b);
}

/// A nonced root determines what it was made of: the nonce, the peer, the key and the content,
/// unless the two byte strings of `root_collision` are different and have one digest. So a change
/// of any byte, and a missing or an added one, changes the root. Only of content with more blocks
/// than an index can count does the root leave something out.
pub proof fn nonced_root_determines_content(
    nonce: [u8; 32],
    peer: [u8; 32],
    key: XorName,
    content: Seq<u8>,
    nonce2: [u8; 32],
    peer2: [u8; 32],
    key2: XorName,
    content2: Seq<u8>,
)
    requires
        content.len() <= u32::MAX * AUDIT_BLOCK_SIZE,
        content2.len() <= u32::MAX * AUDIT_BLOCK_SIZE,
        block_root(nonce, peer, key, content) == block_root(nonce2, peer2, key2, content2),
    ensures
        ({
            &&& nonce == nonce2
            &&& peer == peer2
            &&& key == key2
            &&& content == content2
        }) || collides(
            root_collision(nonce, peer, key, content, nonce2, peer2, key2, content2),
        ),
{
    let n = blocks_in(content.len() as int);
    let m = blocks_in(content2.len() as int);
    if !collides(root_collision(nonce, peer, key, content, nonce2, peer2, key2, content2)) {
        assert forall|i: int| 0 <= i < n implies i < m && nonce == nonce2 && peer == peer2 && key
            == key2 && #[trigger] block_of(content, i) == block_of(content2, i) by {
            block_is_shared(nonce, peer, key, content, nonce2, peer2, key2, content2, i as u32);
        }
        assert forall|j: int| 0 <= j < m implies j < n && #[trigger] block_of(content2, j)
            == block_of(content, j) by {
            block_is_shared(nonce2, peer2, key2, content2, nonce, peer, key, content, j as u32);
        }
        assert(block_of(content, n - 1) == block_of(content2, n - 1));
        assert(block_of(content2, m - 1) == block_of(content, m - 1));
        blocks_determine_content(content, content2);
    }
}

/// `bao::encode::outboard`: the tree hashes of `content`, apart from the content itself. They
/// depend on `content` alone.
#[verifier::external_body]
fn outboard(content: &[u8]) -> (encoded: Vec<u8>)
    ensures
        encoded@ == bao_outboard(content@),
{
    bao::encode::outboard(content).0
}

/// `bao::encode::SliceExtractor::new_outboard`, read to its end: the slice of `content` that
/// holds `len` bytes from `start`. It depends on the arguments alone. With the content's own
/// outboard encoding the in-memory extraction does not fail, the slice begins with the content's
/// length, and decoding it against the content's digest gives back the bytes of the range.
#[verifier::external_body]
fn extract(content: &[u8], encoded: Vec<u8>, start: u64, len: u64) -> (slice: Option<Vec<u8>>)
    requires
        encoded@ == bao_outboard(content@),
        start + len <= content.len(),
    ensures
        option_view(slice) == bao_extracted(content@, encoded@, start, len),
        slice is Some && slice->0.len() >= 8,
        vstd::bytes::spec_u64_from_le_bytes(slice->0@.take(8)) == content.len() <= i64::MAX,
        bao_decoded(slice->0@, crate::hashing::blake3_digest(content@), start, len) == Some(
            content@.subrange(start as int, start + len),
        ),
{
    let input = std::io::Cursor::new(content);
    let tree = std::io::Cursor::new(encoded);
    let mut extractor = bao::encode::SliceExtractor::new_outboard(input, tree, start, len);
    let mut slice = Vec::new();
    std::io::Read::read_to_end(&mut extractor, &mut slice).ok().map(|_| slice)
}

/// `bao::decode::SliceDecoder`, read to its end: the verified bytes, or nothing on the first
/// error. The outcome depends on the arguments alone. Where the declared length makes the way to
/// the block too deep for the decoder's stack, it could panic.
#[verifier::external_body]
fn decode(slice: &[u8], root: &[u8; 32], start: u64, len: u64) -> (decoded: Option<Vec<u8>>)
    requires
        decodable(slice@, start as int),
    ensures
        option_view(decoded) == bao_decoded(slice@, *root, start, len),
{
    let hash = blake3::Hash::from_bytes(*root);
    let mut decoder = bao::decode::SliceDecoder::new(slice, &hash, start, len);
    let mut verified = Vec::new();
    std::io::Read::read_to_end(&mut decoder, &mut verified).ok().map(|_| verified)
}

/// The number of blocks that cover `content_len` bytes. Empty content is one empty block.
pub fn block_count(content_len: u64) -> (count: u32)
    ensures
        count == blocks_in(content_len as int),
{
    if content_len == 0 {
        return 1;
    }
    let full: u64 = content_len / AUDIT_BLOCK_SIZE;
    let needed: u64 = if content_len % AUDIT_BLOCK_SIZE == 0 {
        full
    } else {
        full + 1
    };
    if needed > u32::MAX as u64 {
        u32::MAX
    } else {
        needed as u32
    }
}

/// Where block `index` of `content_len` bytes begins and ends. An index past the last block
/// gives an empty range at the end.
pub fn block_range(content_len: u64, index: u32) -> (range: (u64, u64))
    ensures
        range.0 == block_start(content_len as int, index as int),
        range.1 == block_end(content_len as int, index as int),
        range.0 <= range.1 <= content_len,
{
    let offset: u64 = index as u64 * AUDIT_BLOCK_SIZE;
    let start: u64 = if offset < content_len {
        offset
    } else {
        content_len
    };
    let end: u64 = if content_len - start > AUDIT_BLOCK_SIZE {
        start + AUDIT_BLOCK_SIZE
    } else {
        content_len
    };
    (start, end)
}

/// The bytes of block `index` of `content`; none for an index past the last block.
pub fn block_bytes(content: &[u8], index: u32) -> (block: &[u8])
    ensures
        block@ == block_of(content@, index as int),
{
    let (start, end) = block_range(content.len() as u64, index);
    slice_subrange(content, start as usize, end as usize)
}

/// Hash one block into a leaf.
fn nonced_block_leaf(
    nonce: &[u8; 32],
    peer: &[u8; 32],
    key: &XorName,
    index: u32,
    block: &[u8],
) -> (leaf: [u8; 32])
    ensures
        leaf == block_leaf(*nonce, *peer, *key, index, block@),
{
    let block_len: u32 = if block.len() <= u32::MAX as usize {
        block.len() as u32
    } else {
        u32::MAX
    };
    let index_bytes = vstd::bytes::u32_to_le_bytes(index);
    let len_bytes = vstd::bytes::u32_to_le_bytes(block_len);
    let mut buf: Vec<u8> = Vec::new();
    append(&mut buf, DOMAIN_BLOCK_LEAF.as_bytes());
    append(&mut buf, nonce.as_slice());
    append(&mut buf, peer.as_slice());
    append(&mut buf, key.as_slice());
    append(&mut buf, index_bytes.as_slice());
    append(&mut buf, len_bytes.as_slice());
    append(&mut buf, block);
    assert(buf@ =~= DOMAIN_BLOCK_LEAF.spec_bytes() + nonce@ + peer@ + key@ + index_bytes@
        + len_bytes@ + block@);
    blake3_hash(buf.as_slice())
}

/// Hash every block of `content` into a leaf, in block order.
fn nonced_leaves(nonce: &[u8; 32], peer: &[u8; 32], key: &XorName, content: &[u8]) -> (leaves: Vec<
    [u8; 32],
>)
    ensures
        leaves@ == block_leaves(*nonce, *peer, *key, content@),
{
    let count: u32 = block_count(content.len() as u64);
    let mut leaves: Vec<[u8; 32]> = Vec::new();
    let mut i: u32 = 0;
    while i < count
        invariant
            i <= count,
            count == blocks_in(content.len() as int),
            leaves.len() == i,
            forall|j: int|
                0 <= j < i ==> leaves@[j] == block_leaf(
                    *nonce,
                    *peer,
                    *key,
                    j as u32,
                    block_of(content@, j),
                ),
        decreases count - i,
    {
        leaves.push(nonced_block_leaf(nonce, peer, key, i, block_bytes(content, i)));
        i += 1;
    }
    assert(leaves@ =~= block_leaves(*nonce, *peer, *key, content@));
    leaves
}

/// The root of the nonced block tree over `content`. It takes every byte of the content.
pub fn nonced_block_root(
    nonce: &[u8; 32],
    peer: &[u8; 32],
    key: &XorName,
    content: &[u8],
) -> (root: [u8; 32])
    ensures
        root == block_root(*nonce, *peer, *key, content@),
{
    merkle::compute_root(
        DOMAIN_BLOCK_NODE.as_bytes(),
        nonced_leaves(nonce, peer, key, content),
    )
}

/// The siblings on the way from block `index` to the nonced root, lowest first; nothing where
/// the content has no such block.
pub fn nonced_block_siblings(
    nonce: &[u8; 32],
    peer: &[u8; 32],
    key: &XorName,
    content: &[u8],
    index: u32,
) -> (path: Option<Vec<[u8; 32]>>)
    ensures
        path is Some <==> index < blocks_in(content.len() as int),
        path matches Some(siblings) ==> siblings@ == block_siblings(
            *nonce,
            *peer,
            *key,
            content@,
            index as int,
        ),
{
    let leaves = nonced_leaves(nonce, peer, key, content);
    if index as usize >= leaves.len() {
        return None;
    }
    Some(merkle::compute_siblings(DOMAIN_BLOCK_NODE.as_bytes(), leaves, index as usize))
}

/// Whether an opened block leads to the nonced root that the responder committed to.
pub fn verify_nonced_block(
    nonce: &[u8; 32],
    peer: &[u8; 32],
    key: &XorName,
    index: u32,
    block: &[u8],
    siblings: &[[u8; 32]],
    nonced_root: &[u8; 32],
) -> (valid: bool)
    ensures
        valid == opening_leads_to(
            *nonce,
            *peer,
            *key,
            index,
            block@,
            siblings@,
            *nonced_root,
        ),
{
    merkle::path_matches(
        DOMAIN_BLOCK_NODE.as_bytes(),
        nonced_block_leaf(nonce, peer, key, index, block),
        index as usize,
        siblings,
        nonced_root,
    )
}

/// The Bao slice that opens block `index` of `content`. An auditor who knows the content's
/// address and length accepts it, and reads the block from it.
pub fn extract_block_slice(content: &[u8], index: u32) -> (slice: Result<Vec<u8>, SliceError>)
    ensures
        slice matches Ok(bytes) && accepted_block(
            bytes@,
            crate::hashing::blake3_digest(content@),
            content.len() as u64,
            index,
        ) == Some(block_of(content@, index as int)),
{
    let (start, end) = block_range(content.len() as u64, index);
    let encoded = outboard(content);
    match extract(content, encoded, start, end - start) {
        Some(slice) => Ok(slice),
        None => Err(SliceError::Extraction),
    }
}

/// Check a Bao slice for block `index` against the chunk's address and return the block.
/// `content_len` is what the responder claims; where the claim is false the bytes that come out
/// do not fill the block, or none come out.
pub fn verify_block_slice(
    slice: &[u8],
    address: &[u8; 32],
    content_len: u64,
    index: u32,
) -> (block: Option<Vec<u8>>)
    ensures
        option_view(block) == accepted_block(slice@, *address, content_len, index),
{
    let (start, end) = block_range(content_len, index);
    let len: u64 = end - start;
    if slice.len() >= 8 && start < PAST_LOWEST_BLOCKS {
        let header = slice_subrange(slice, 0, 8);
        assert(header@ =~= slice@.take(8));
        if vstd::bytes::u64_from_le_bytes(header) > MAX_DECODED_LEN {
            return None;
        }
    }
    match decode(slice, address, start, len) {
        Some(verified) => if verified.len() as u64 == len {
            Some(verified)
        } else {
            None
        },
        None => None,
    }
}

/// Why a block slice could not be made.
#[derive(Clone, Copy, Debug, PartialEq, Eq, Structural)]
pub enum SliceError {
    /// The extraction of the slice failed.
    Extraction,
}

} // verus!
