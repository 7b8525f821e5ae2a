//! Content digests of byte streams: fixed-size blocks, each hashed with
//! SHA-256, combined into a left-aligned binary merkle tree.
use vstd::prelude::*;

pub mod args;
pub mod block_source;
pub mod hashing;
pub mod merkle_tree;
pub mod stream_processor;
pub mod window;

pub use args::CliArgs;
pub use block_source::{next_step, split_blocks, BlockStep};
pub use hashing::leaf_hash;
pub use merkle_tree::{combine_hashes, MerkleTree};
pub use stream_processor::{digest_bytes, StreamProcessor, BLOCK_SIZE, CONCURRENCY_LIMIT};
pub use window::Window;

verus! {

} // verus!
