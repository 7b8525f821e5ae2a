//! The merkle tree over an ordered list of leaf hashes.
use vstd::prelude::*;
use vstd::utf8::encode_utf8;
use crate::hashing::{hash_input_limit, leaf_hash, sha256_hex};

verus! {

/// A merkle tree. Its shape depends only on its leaf count: a tree of
/// `n > 1` leaves has `n / 2` leaves on the left and the rest on the right.
pub enum MerkleTree {
    /// The tree of no leaves (an empty stream).
    Empty,
    Leaf { hash: String },
    Node { left: Box<MerkleTree>, right: Box<MerkleTree> },
}

/// The hash of an internal node: the digest of the UTF-8 bytes of the left
/// child's hash followed by those of the right child's.
pub open spec fn combine(left: Seq<char>, right: Seq<char>) -> Seq<char> {
    sha256_hex(encode_utf8(left) + encode_utf8(right))
}

/// The root hash of the empty tree: the digest of no bytes.
pub open spec fn empty_root() -> Seq<char> {
    sha256_hex(Seq::<u8>::empty())
}

/// The root hash of the tree built from `hs` by the size-splitting rule.
pub open spec fn root_of(hs: Seq<Seq<char>>) -> Seq<char>
    decreases hs.len(),
{
    if hs.len() == 0 {
        empty_root()
    } else if hs.len() == 1 {
        hs[0]
    } else {
        let m = hs.len() / 2;
        combine(root_of(hs.take(m as int)), root_of(hs.skip(m as int)))
    }
}

/// The views of a sequence of strings.
pub open spec fn string_views(v: Seq<String>) -> Seq<Seq<char>> {
    v.map_values(|s: String| s@)
}

impl MerkleTree {
    /// The leaf hashes, left to right.
    pub open spec fn leaves(self) -> Seq<Seq<char>>
        decreases self,
    {
        match self {
            MerkleTree::Empty => Seq::empty(),
            MerkleTree::Leaf { hash } => seq![hash@],
            MerkleTree::Node { left, right } => left.leaves() + right.leaves(),
        }
    }

    /// Every leaf hash is short enough to be hashed together with another:
    /// under half the digest's input limit in UTF-8 bytes.
    pub open spec fn leaves_hashable(self) -> bool {
        forall|i: int|
            0 <= i < self.leaves().len() ==> encode_utf8(#[trigger] self.leaves()[i]).len()
                < hash_input_limit() / 2
    }

    /// The number of leaves.
    pub open spec fn leaf_count(self) -> nat {
        self.leaves().len()
    }

    /// The tree has no empty part and every node splits by the size rule.
    pub open spec fn shaped(self) -> bool
        decreases self,
    {
        match self {
            MerkleTree::Empty => false,
            MerkleTree::Leaf { .. } => true,
            MerkleTree::Node { left, right } => {
                &&& left.shaped()
                &&& right.shaped()
                &&& left.leaf_count() == (left.leaf_count() + right.leaf_count()) / 2
            },
        }
    }

    /// Well-formed: the empty tree, or a tree shaped by the size rule.
    pub open spec fn wf(self) -> bool {
        self is Empty || self.shaped()
    }

    /// The root hash.
    pub open spec fn root(self) -> Seq<char>
        decreases self,
    {
        match self {
            MerkleTree::Empty => empty_root(),
            MerkleTree::Leaf { hash } => hash@,
            MerkleTree::Node { left, right } => combine(left.root(), right.root()),
        }
    }

    /// A tree of `leafs` leaves, shaped by the size rule, every leaf hash
    /// empty; no leaves gives the empty tree.
    pub fn with_size(leafs: usize) -> (r: MerkleTree)
        ensures
            r.wf(),
            r.leaf_count() == leafs,
            forall|i: int| 0 <= i < leafs ==> (#[trigger] r.leaves()[i]).len() == 0,
        decreases leafs,
    {
        if leafs == 0 {
            MerkleTree::Empty
        } else if leafs == 1 {
            MerkleTree::Leaf { hash: String::new() }
        } else {
            let left = Box::new(MerkleTree::with_size(leafs / 2));
            let right = Box::new(MerkleTree::with_size(leafs - (leafs / 2)));
            let r = MerkleTree::Node { left, right };
            assert forall|i: int| 0 <= i < leafs implies (#[trigger] r.leaves()[i]).len() == 0 by {
                if i >= (leafs / 2) as int {
                    assert(r.leaves()[i] == right.leaves()[i - (leafs / 2) as int]);
                }
            }
            r
        }
    }

    /// The tree whose leaves are `hashes`, in order, built bottom-up by the
    /// size rule.
    pub fn from_hashes(hashes: Vec<String>) -> (r: MerkleTree)
        ensures
            r.wf(),
            r.leaves() == string_views(hashes@),
            hashes@.len() == 0 <==> r is Empty,
        decreases hashes@.len(),
    {
        let mut hashes = hashes;
        let n = hashes.len();
        if n == 0 {
            assert(string_views(hashes@) =~= Seq::<Seq<char>>::empty());
            MerkleTree::Empty
        } else if n == 1 {
            let hash = hashes.pop().unwrap();
            assert(string_views(seq![hash]) =~= seq![hash@]);
            MerkleTree::Leaf { hash }
        } else {
            let ghost all = hashes@;
            let tail = hashes.split_off(n / 2);
            let left = MerkleTree::from_hashes(hashes);
            let right = MerkleTree::from_hashes(tail);
            proof {
                assert(all =~= hashes@ + tail@);
                assert(string_views(all) =~= string_views(hashes@) + string_views(tail@));
            }
            MerkleTree::Node { left: Box::new(left), right: Box::new(right) }
        }
    }

    /// The number of leaves.
    pub fn count(&self) -> (r: usize)
        requires
            self.leaf_count() <= usize::MAX,
        ensures
            r == self.leaf_count(),
        decreases self,
    {
        match self {
            MerkleTree::Empty => 0,
            MerkleTree::Leaf { .. } => 1,
            MerkleTree::Node { left, right } => left.count() + right.count(),
        }
    }

    /// The root hash: a leaf's own hash, or for a node the digest of its
    /// children's hashes, computed bottom-up.
    pub fn merkle_hash(&self) -> (r: String)
        requires
            self.leaves_hashable(),
        ensures
            r@ == self.root(),
            encode_utf8(r@).len() < hash_input_limit() / 2,
        decreases self,
    {
        match self {
            MerkleTree::Empty => {
                let none: Vec<u8> = Vec::new();
                leaf_hash(none.as_slice())
            },
            MerkleTree::Leaf { hash } => {
                assert(self.leaves()[0] == hash@);
                hash.clone()
            },
            MerkleTree::Node { left, right } => {
                let ghost n = left.leaves().len() as int;
                assert forall|i: int| 0 <= i < left.leaves().len() implies encode_utf8(
                    #[trigger] left.leaves()[i],
                ).len() < hash_input_limit() / 2 by {
                    assert(left.leaves()[i] == self.leaves()[i]);
                }
                assert forall|i: int| 0 <= i < right.leaves().len() implies encode_utf8(
                    #[trigger] right.leaves()[i],
                ).len() < hash_input_limit() / 2 by {
                    assert(right.leaves()[i] == self.leaves()[n + i]);
                }
                let left_hash = left.merkle_hash();
                let right_hash = right.merkle_hash();
                combine_hashes(&left_hash, &right_hash)
            },
        }
    }

    /// All leaf hashes, left to right.
    pub fn hashes(&self) -> (r: Vec<String>)
        ensures
            string_views(r@) == self.leaves(),
        decreases self,
    {
        match self {
            MerkleTree::Empty => {
                let r: Vec<String> = Vec::new();
                assert(string_views(r@) =~= self.leaves());
                r
            },
            MerkleTree::Leaf { hash } => {
                let r = vec![hash.clone()];
                assert(string_views(r@) =~= self.leaves());
                r
            },
            MerkleTree::Node { left, right } => {
                let mut r = left.hashes();
                let mut rest = right.hashes();
                let ghost l = r@;
                let ghost t = rest@;
                r.append(&mut rest);
                assert(string_views(r@) =~= string_views(l) + string_views(t));
                r
            },
        }
    }

    /// A shaped tree has at least one leaf.
    pub proof fn lemma_shaped_nonempty(self)
        requires
            self.shaped(),
        ensures
            self.leaf_count() >= 1,
        decreases self,
    {
        match self {
            MerkleTree::Node { left, right } => {
                left.lemma_shaped_nonempty();
            },
            _ => {},
        }
    }

    /// The root of a well-formed tree is determined by its leaves alone.
    pub proof fn lemma_root_from_leaves(self)
        requires
            self.wf(),
        ensures
            self.root() == root_of(self.leaves()),
        decreases self,
    {
        match self {
            MerkleTree::Node { left, right } => {
                left.lemma_shaped_nonempty();
                right.lemma_shaped_nonempty();
                left.lemma_root_from_leaves();
                right.lemma_root_from_leaves();
                let hs = self.leaves();
                let m = (hs.len() / 2) as int;
                assert(hs.take(m) =~= left.leaves());
                assert(hs.skip(m) =~= right.leaves());
            },
            _ => {},
        }
    }
}

/// Building a tree from a list of hashes and listing its hashes gives the
/// list back: as many hashes, in the same order.
pub proof fn lemma_hashes_round_trip(input: Seq<String>, tree: MerkleTree, output: Seq<String>)
    requires
        tree.leaves() == string_views(input),
        string_views(output) == tree.leaves(),
    ensures
        tree.leaf_count() == input.len(),
        output.len() == input.len(),
        forall|i: int| 0 <= i < input.len() ==> (#[trigger] output[i])@ == input[i]@,
{
    assert(string_views(output).len() == output.len());
    assert(string_views(input).len() == input.len());
    assert forall|i: int| 0 <= i < input.len() implies (#[trigger] output[i])@ == input[i]@ by {
        assert(string_views(output)[i] == string_views(input)[i]);
    }
}

/// The hash of an internal node whose children have hashes `left` and
/// `right`.
pub fn combine_hashes(left: &String, right: &String) -> (r: String)
    requires
        encode_utf8(left@).len() + encode_utf8(right@).len() < hash_input_limit(),
    ensures
        r@ == combine(left@, right@),
        encode_utf8(r@).len() == 64,
{
    let a = left.as_str().as_bytes();
    let b = right.as_str().as_bytes();
    let mut bytes: Vec<u8> = Vec::new();
    let mut i: usize = 0;
    while i < a.len()
        invariant
            i <= a@.len(),
            bytes@ == a@.take(i as int),
        decreases a@.len() - i,
    {
        bytes.push(a[i]);
        i += 1;
        assert(bytes@ =~= a@.take(i as int));
    }
    let mut j: usize = 0;
    while j < b.len()
        invariant
            j <= b@.len(),
            bytes@ == a@ + b@.take(j as int),
        decreases b@.len() - j,
    {
        bytes.push(b[j]);
        j += 1;
        assert(bytes@ =~= a@ + b@.take(j as int));
    }
    assert(a@.take(a@.len() as int) =~= a@);
    assert(b@.take(b@.len() as int) =~= b@);
    leaf_hash(bytes.as_slice())
}

} // verus!
