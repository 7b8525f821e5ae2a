use merkle_hasher::{
    digest_bytes, leaf_hash, next_step, split_blocks, BlockStep, CliArgs, MerkleTree,
    StreamProcessor, Window, BLOCK_SIZE, CONCURRENCY_LIMIT,
};

const EMPTY: &str = "e3b0c44298fc1c149afbf4c8996fb92427ae41e4649b934ca495991b7852b855";
const ABCD: &str = "88d4266fd4e6338d13b845fcf289579d209c897823b9217da3e161936f031589";
const EFGH: &str = "e5e088a0b66163a0a26a5e053d2a4496dc16ab6e0e3dd1adf2d16aa84a078c9d";

#[test]
fn leaf_hash_is_sha256_hex() {
    assert_eq!(
        leaf_hash(b"abc"),
        "ba7816bf8f01cfea414140de5dae2223b00361a396177a9cb410ff61f20015ad"
    );
}

#[test]
fn empty_stream_has_sentinel_root() {
    let t = digest_bytes(&[], 4, 2);
    assert!(matches!(t, MerkleTree::Empty));
    assert!(t.hashes().is_empty());
    assert_eq!(t.merkle_hash(), EMPTY);
}

#[test]
fn one_byte_stream() {
    let t = digest_bytes(b"a", 4, 2);
    let a = "ca978112ca1bbdcafac231b39a23dc4da786eff8147c4e72b9807785afee48bb";
    assert_eq!(t.hashes(), vec![a.to_string()]);
    assert_eq!(t.merkle_hash(), a);
}

#[test]
fn two_full_blocks() {
    let t = digest_bytes(b"abcdefgh", 4, 2);
    assert_eq!(t.hashes(), vec![ABCD.to_string(), EFGH.to_string()]);
    assert_eq!(
        t.merkle_hash(),
        "ba1865d6bf7da2a3d766cd7adfdda5ef51e0720da6a4769c3cae56e4dfaaa627"
    );
}

#[test]
fn one_block_and_one_byte() {
    let t = digest_bytes(b"abcde", 4, 32);
    let e = "3f79bb7b435b05321651daefd374cdc681dc06faa65e374e38337b88ca046dea";
    assert_eq!(t.hashes(), vec![ABCD.to_string(), e.to_string()]);
    assert_eq!(
        t.merkle_hash(),
        "a3f23566aba40634f0ad6d508569123aa0979b709f67582e2f544e71577c76fd"
    );
}

#[test]
fn three_blocks_shape_and_root() {
    let t = digest_bytes(b"abcdefghij", 4, 1);
    let ij = "c9df9c3f2963b19b9b95f58c4d33b053fa9f8586dd6ee04126e52a868f882108";
    assert_eq!(t.hashes(), vec![ABCD.to_string(), EFGH.to_string(), ij.to_string()]);
    match &t {
        MerkleTree::Node { left, right } => {
            assert!(matches!(**left, MerkleTree::Leaf { .. }));
            match &**right {
                MerkleTree::Node { left, right } => {
                    assert!(matches!(**left, MerkleTree::Leaf { .. }));
                    assert!(matches!(**right, MerkleTree::Leaf { .. }));
                }
                _ => panic!("expected a node on the right"),
            }
        }
        _ => panic!("expected a node"),
    }
    assert_eq!(
        t.merkle_hash(),
        "e7834e87b0f12101ed64ca1b3568f8f68356c2da4da40b889b47df93c133a917"
    );
}

#[test]
fn concurrency_limit_does_not_change_digest() {
    let data: Vec<u8> = (0..100_000u32).map(|i| (i * 7 % 251) as u8).collect();
    let one = digest_bytes(&data, 1000, 1);
    let many = digest_bytes(&data, 1000, 32);
    assert_eq!(one.count(), 100);
    assert_eq!(one.hashes(), many.hashes());
    assert_eq!(one.merkle_hash(), many.merkle_hash());
}

#[test]
fn digesting_twice_is_the_same() {
    let data: Vec<u8> = (0..5000u32).map(|i| (i % 256) as u8).collect();
    let a = digest_bytes(&data, 64, 4);
    let b = digest_bytes(&data, 64, 4);
    assert_eq!(a.hashes(), b.hashes());
    assert_eq!(a.merkle_hash(), b.merkle_hash());
}

#[test]
fn leaves_follow_block_order() {
    let data: Vec<u8> = (0..50u8).collect();
    let t = digest_bytes(&data, 8, 3);
    let want: Vec<String> = data.chunks(8).map(leaf_hash).collect();
    assert_eq!(want.len(), 7);
    assert_eq!(t.hashes(), want);
}

#[test]
fn split_blocks_cuts_evenly() {
    let blocks = split_blocks(b"abcdefghij", 4);
    assert_eq!(blocks, vec![b"abcd".to_vec(), b"efgh".to_vec(), b"ij".to_vec()]);
    assert!(split_blocks(b"", 4).is_empty());
    assert_eq!(split_blocks(b"abcd", 4), vec![b"abcd".to_vec()]);
}

#[test]
fn next_step_decisions() {
    assert!(matches!(next_step(0, 0, 4), BlockStep::End));
    assert!(matches!(next_step(0, 2, 4), BlockStep::Continue { filled: 2 }));
    assert!(matches!(next_step(2, 2, 4), BlockStep::Emit { len: 4 }));
    assert!(matches!(next_step(3, 0, 4), BlockStep::Emit { len: 3 }));
    assert!(matches!(next_step(0, 4, 4), BlockStep::Emit { len: 4 }));
}

#[test]
fn window_is_first_in_first_out() {
    let mut w: Window<u32> = Window::new(2);
    assert!(w.take_if_full().is_none());
    w.submit(1);
    assert!(!w.is_full());
    w.submit(2);
    assert!(w.is_full());
    assert_eq!(w.take_if_full(), Some(1));
    w.submit(3);
    assert_eq!(w.len(), 2);
    assert_eq!(w.take_oldest(), Some(2));
    assert_eq!(w.take_oldest(), Some(3));
    assert_eq!(w.take_oldest(), None);
}

#[test]
fn processor_defaults() {
    let p = StreamProcessor::new(7u8);
    assert_eq!(p.stream, 7);
    assert_eq!(p.block_size, 1 << 24);
    assert_eq!(BLOCK_SIZE, 16 * 1024 * 1024);
    assert_eq!(p.concurrency_limit, 32);
    assert_eq!(CONCURRENCY_LIMIT, 32);
    let q = StreamProcessor::with_config((), 4, 1);
    assert_eq!((q.block_size, q.concurrency_limit), (4, 1));
}

#[test]
fn print_live_unless_hidden() {
    let mk = |hide_tree| CliArgs { hide_tree, files: vec![] };
    assert!(mk(None).print_live());
    assert!(mk(Some(false)).print_live());
    assert!(!mk(Some(true)).print_live());
}
