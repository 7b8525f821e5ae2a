use merkle_hasher::{combine_hashes, MerkleTree};

fn strings(v: &[&str]) -> Vec<String> {
    v.iter().map(|s| s.to_string()).collect()
}

#[test]
fn with_size_counts_leaves() {
    for n in 0..20usize {
        let t = MerkleTree::with_size(n);
        assert_eq!(t.count(), n);
        assert_eq!(t.hashes().len(), n);
        assert!(t.hashes().iter().all(|h| h.is_empty()));
    }
}

#[test]
fn with_size_zero_is_empty() {
    assert!(matches!(MerkleTree::with_size(0), MerkleTree::Empty));
}

#[test]
fn with_size_three_is_left_aligned() {
    match MerkleTree::with_size(3) {
        MerkleTree::Node { left, right } => {
            assert!(matches!(*left, MerkleTree::Leaf { .. }));
            assert_eq!(right.count(), 2);
        }
        _ => panic!("expected a node"),
    }
}

#[test]
fn with_size_five_splits_two_three() {
    match MerkleTree::with_size(5) {
        MerkleTree::Node { left, right } => {
            assert_eq!(left.count(), 2);
            assert_eq!(right.count(), 3);
        }
        _ => panic!("expected a node"),
    }
}

#[test]
fn from_hashes_keeps_order() {
    let hs = strings(&["h0", "h1", "h2", "h3", "h4", "h5", "h6"]);
    let t = MerkleTree::from_hashes(hs.clone());
    assert_eq!(t.count(), 7);
    assert_eq!(t.hashes(), hs);
}

#[test]
fn single_leaf_root_is_leaf() {
    let t = MerkleTree::from_hashes(strings(&["only"]));
    assert!(matches!(t, MerkleTree::Leaf { .. }));
    assert_eq!(t.merkle_hash(), "only");
}

#[test]
fn empty_tree_root_is_digest_of_nothing() {
    let t = MerkleTree::from_hashes(vec![]);
    assert!(matches!(t, MerkleTree::Empty));
    assert_eq!(t.count(), 0);
    assert!(t.hashes().is_empty());
    assert_eq!(
        t.merkle_hash(),
        "e3b0c44298fc1c149afbf4c8996fb92427ae41e4649b934ca495991b7852b855"
    );
}

#[test]
fn combine_hashes_digests_concatenation() {
    let r = combine_hashes(&"x".to_string(), &"y".to_string());
    assert_eq!(r, "769a4e6d0003189c7e96c5d9b7e810a0d11c3a12832527ec94b0f86d277f51ca");
}

#[test]
fn five_leaf_root() {
    let t = MerkleTree::from_hashes(strings(&["l0", "l1", "l2", "l3", "l4"]));
    assert_eq!(
        t.merkle_hash(),
        "4fbd1020f6d9b32d29c382ed2d25ccbdbf726eca3669c473becab99c156d5b41"
    );
}
