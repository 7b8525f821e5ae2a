//! Digesting one stream: blocks, bounded-window hashing, merkle tree.
use vstd::prelude::*;
use crate::block_source::{blocks_of, lemma_block_lengths, lemma_blocks_of, split_blocks};
use crate::hashing::{hash_input_limit, leaf_hash, sha256_hex};
use vstd::utf8::encode_utf8;
use crate::merkle_tree::{combine, root_of, string_views, MerkleTree};
use crate::window::Window;

verus! {

/// The default block size: 16 MiB.
pub const BLOCK_SIZE: usize = 1 << 24;

/// The default number of block hashes computed at once (512 MiB of blocks).
pub const CONCURRENCY_LIMIT: usize = 32;

/// A stream to digest, with the block size and the window size to use.
pub struct StreamProcessor<T> {
    pub stream: T,
    pub block_size: usize,
    pub concurrency_limit: usize,
}

impl<T> StreamProcessor<T> {
    /// A processor with the default block size and concurrency limit.
    pub fn new(stream: T) -> (r: StreamProcessor<T>)
        ensures
            r.stream == stream,
            r.block_size == BLOCK_SIZE,
            r.concurrency_limit == CONCURRENCY_LIMIT,
    {
        StreamProcessor { stream, block_size: BLOCK_SIZE, concurrency_limit: CONCURRENCY_LIMIT }
    }

    /// A processor with the given block size and concurrency limit.
    pub fn with_config(stream: T, block_size: usize, concurrency_limit: usize) -> (r:
        StreamProcessor<T>)
        requires
            block_size > 0,
            concurrency_limit > 0,
        ensures
            r.stream == stream,
            r.block_size == block_size,
            r.concurrency_limit == concurrency_limit,
    {
        StreamProcessor { stream, block_size, concurrency_limit }
    }
}

/// The leaf hashes of a stream: the hash of each of its blocks, in order.
pub open spec fn leaf_hashes(data: Seq<u8>, block_size: nat) -> Seq<Seq<char>> {
    blocks_of(data, block_size).map_values(|b: Seq<u8>| sha256_hex(b))
}

/// `tree` is the digest of `data` cut into blocks of `block_size` bytes.
pub open spec fn is_digest_of(tree: MerkleTree, data: Seq<u8>, block_size: nat) -> bool {
    &&& tree.wf()
    &&& tree.leaves() == leaf_hashes(data, block_size)
    &&& tree.root() == root_of(leaf_hashes(data, block_size))
}

/// Digests `data`: hashes its blocks through a window of at most
/// `concurrency_limit` outstanding computations, then builds the tree.
pub fn digest_bytes(data: &[u8], block_size: usize, concurrency_limit: usize) -> (r: MerkleTree)
    requires
        block_size > 0,
        concurrency_limit > 0,
        data@.len() < hash_input_limit(),
    ensures
        is_digest_of(r, data@, block_size as nat),
        r.leaves_hashable(),
{
    let blocks = split_blocks(data, block_size);
    let ghost bviews = blocks@.map_values(|b: Vec<u8>| b@);
    let ghost want = leaf_hashes(data@, block_size as nat);
    assert(want.len() == blocks@.len());
    proof {
        lemma_block_lengths(data@, block_size as nat);
    }
    let mut window: Window<String> = Window::new(concurrency_limit);
    let mut hashes: Vec<String> = Vec::new();
    let mut i: usize = 0;
    while i < blocks.len()
        invariant
            i <= blocks@.len(),
            bviews == blocks@.map_values(|b: Vec<u8>| b@),
            want == bviews.map_values(|b: Seq<u8>| sha256_hex(b)),
            bviews == blocks_of(data@, block_size as nat),
            data@.len() < hash_input_limit(),
            forall|k: int| 0 <= k < bviews.len() ==> (#[trigger] bviews[k]).len() <= data@.len(),
            forall|k: int| 0 <= k < i ==> encode_utf8(#[trigger] want[k]).len() == 64,
            window.wf(),
            string_views(hashes@) + string_views(window@) == want.take(i as int),
        decreases blocks@.len() - i,
    {
        let ghost before = string_views(hashes@) + string_views(window@);
        if let Some(h) = window.take_if_full() {
            hashes.push(h);
            assert(string_views(hashes@) + string_views(window@) =~= before);
        }
        assert(bviews[i as int] == blocks@[i as int]@);
        let h = leaf_hash(blocks[i].as_slice());
        let ghost mid = window@;
        window.submit(h);
        assert(string_views(window@) =~= string_views(mid) + seq![h@]);
        assert(want[i as int] == h@);
        assert(want.take(i + 1) =~= want.take(i as int).push(h@));
        i += 1;
        assert(string_views(hashes@) + string_views(window@) =~= want.take(i as int));
    }
    while window.len() > 0
        invariant
            forall|k: int| 0 <= k < want.len() ==> encode_utf8(#[trigger] want[k]).len() == 64,
            window.wf(),
            string_views(hashes@) + string_views(window@) == want.take(blocks@.len() as int),
        decreases window@.len(),
    {
        let ghost before = string_views(hashes@) + string_views(window@);
        let h = window.take_oldest().unwrap();
        hashes.push(h);
        assert(string_views(hashes@) + string_views(window@) =~= before);
    }
    assert(want.take(blocks@.len() as int) =~= want);
    assert(string_views(hashes@) + string_views(window@) =~= string_views(hashes@));
    let tree = MerkleTree::from_hashes(hashes);
    proof {
        tree.lemma_root_from_leaves();
    }
    tree
}

/// The digest depends on the bytes and the block size alone: not on the
/// concurrency limit nor on the order in which computations finish, and
/// digesting the same bytes twice gives the same leaves and the same root.
pub proof fn lemma_digest_determined(data: Seq<u8>, block_size: nat, a: MerkleTree, b: MerkleTree)
    requires
        is_digest_of(a, data, block_size),
        is_digest_of(b, data, block_size),
    ensures
        a.leaves() == b.leaves(),
        a.root() == b.root(),
{
}

/// The leaves of a digest are the hashes of the blocks in the order they
/// were read: leaf `i` hashes the bytes from `i * block_size` on, and there
/// are just enough leaves to cover every byte.
pub proof fn lemma_leaves_follow_blocks(data: Seq<u8>, block_size: nat, tree: MerkleTree)
    requires
        block_size > 0,
        is_digest_of(tree, data, block_size),
    ensures
        tree.leaf_count() == blocks_of(data, block_size).len(),
        (tree.leaf_count() as int - 1) * block_size < data.len() as int <= tree.leaf_count()
            * block_size,
        forall|i: int|
            0 <= i < tree.leaf_count() ==> #[trigger] tree.leaves()[i] == sha256_hex(
                data.subrange(
                    i * block_size,
                    if (i + 1) * block_size <= data.len() {
                        (i + 1) * block_size
                    } else {
                        data.len() as int
                    },
                ),
            ),
{
    lemma_blocks_of(data, block_size);
}

/// The empty stream has the empty tree, whose root is the digest of no bytes.
pub proof fn lemma_empty_stream(block_size: nat, tree: MerkleTree)
    requires
        is_digest_of(tree, Seq::<u8>::empty(), block_size),
    ensures
        tree is Empty,
        tree.root() == sha256_hex(Seq::<u8>::empty()),
{
    if tree.shaped() {
        tree.lemma_shaped_nonempty();
    }
}

/// A stream of one block (1 to `block_size` bytes) has one leaf, the hash of
/// its bytes, and that leaf's hash is the root: no combination is applied.
pub proof fn lemma_single_block(data: Seq<u8>, block_size: nat, tree: MerkleTree)
    requires
        1 <= data.len() <= block_size,
        is_digest_of(tree, data, block_size),
    ensures
        tree.leaves() == seq![sha256_hex(data)],
        tree.root() == sha256_hex(data),
{
    assert(leaf_hashes(data, block_size) =~= seq![sha256_hex(data)]);
}

/// A stream of more than one and at most two blocks has two leaves, the
/// hashes of its first `block_size` bytes and of the rest, and its root
/// combines the two.
pub proof fn lemma_two_blocks(data: Seq<u8>, block_size: nat, tree: MerkleTree)
    requires
        block_size < data.len() <= 2 * block_size,
        is_digest_of(tree, data, block_size),
    ensures
        tree.leaves() == seq![
            sha256_hex(data.take(block_size as int)),
            sha256_hex(data.skip(block_size as int)),
        ],
        tree.root() == combine(
            sha256_hex(data.take(block_size as int)),
            sha256_hex(data.skip(block_size as int)),
        ),
{
    let rest = data.skip(block_size as int);
    assert(blocks_of(rest, block_size) == seq![rest]);
    let hs = leaf_hashes(data, block_size);
    assert(hs =~= seq![sha256_hex(data.take(block_size as int)), sha256_hex(rest)]);
    assert(hs.take(1) =~= seq![hs[0]]);
    assert(hs.skip(1) =~= seq![hs[1]]);
    assert(root_of(hs.take(1)) == hs[0]);
    assert(root_of(hs.skip(1)) == hs[1]);
    assert(root_of(hs) == combine(root_of(hs.take(1)), root_of(hs.skip(1))));
}

/// A stream of three blocks `A`, `B`, `C` has root
/// `combine(H(A), combine(H(B), H(C)))`: one leaf on the left, two on the
/// right.
pub proof fn lemma_three_blocks(data: Seq<u8>, block_size: nat, tree: MerkleTree)
    requires
        2 * block_size < data.len() <= 3 * block_size,
        is_digest_of(tree, data, block_size),
    ensures
        tree.leaves() == seq![
            sha256_hex(data.take(block_size as int)),
            sha256_hex(data.subrange(block_size as int, 2 * block_size as int)),
            sha256_hex(data.skip(2 * block_size as int)),
        ],
        tree.root() == combine(
            sha256_hex(data.take(block_size as int)),
            combine(
                sha256_hex(data.subrange(block_size as int, 2 * block_size as int)),
                sha256_hex(data.skip(2 * block_size as int)),
            ),
        ),
{
    let bs = block_size as int;
    let r1 = data.skip(bs);
    let r2 = r1.skip(bs);
    assert(r2 =~= data.skip(2 * bs));
    assert(r1.take(bs) =~= data.subrange(bs, 2 * bs));
    assert(blocks_of(r2, block_size) == seq![r2]);
    assert(blocks_of(r1, block_size) =~= seq![r1.take(bs), r2]);
    let hs = leaf_hashes(data, block_size);
    let (a, b, c) = (
        sha256_hex(data.take(bs)),
        sha256_hex(data.subrange(bs, 2 * bs)),
        sha256_hex(data.skip(2 * bs)),
    );
    assert(hs =~= seq![a, b, c]);
    assert(hs.take(1) =~= seq![a]);
    let right = hs.skip(1);
    assert(right =~= seq![b, c]);
    assert(right.take(1) =~= seq![b]);
    assert(right.skip(1) =~= seq![c]);
    assert(root_of(right.take(1)) == b);
    assert(root_of(right.skip(1)) == c);
    assert(root_of(right) == combine(b, c));
    assert(root_of(hs.take(1)) == a);
    assert(root_of(hs) == combine(root_of(hs.take(1)), root_of(hs.skip(1))));
}

} // verus!
