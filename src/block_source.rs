//! Cutting a byte stream into fixed-size blocks.
use vstd::prelude::*;

verus! {

/// The blocks of `data`: consecutive runs of `block_size` bytes, the last one
/// possibly shorter and never empty; no blocks for no bytes.
pub open spec fn blocks_of(data: Seq<u8>, block_size: nat) -> Seq<Seq<u8>>
    recommends
        block_size > 0,
    decreases data.len(),
{
    if data.len() == 0 || block_size == 0 {
        Seq::empty()
    } else if data.len() <= block_size {
        seq![data]
    } else {
        seq![data.take(block_size as int)] + blocks_of(data.skip(block_size as int), block_size)
    }
}

/// Block `i` of `data` is the run of bytes from `i * block_size` up to the
/// next multiple of `block_size` or the end; there are just enough blocks to
/// cover every byte.
pub proof fn lemma_blocks_of(data: Seq<u8>, block_size: nat)
    requires
        block_size > 0,
    ensures
        (blocks_of(data, block_size).len() as int - 1) * block_size < data.len() as int
            <= blocks_of(data, block_size).len() * block_size,
        forall|i: int|
            0 <= i < blocks_of(data, block_size).len() ==> #[trigger] blocks_of(data, block_size)[i]
                == data.subrange(
                i * block_size,
                if (i + 1) * block_size <= data.len() {
                    (i + 1) * block_size
                } else {
                    data.len() as int
                },
            ),
    decreases data.len(),
{
    let bs = block_size as int;
    let bl = blocks_of(data, block_size);
    if data.len() == 0 {
        assert((0 - 1) * bs < 0) by (nonlinear_arith)
            requires
                bs > 0,
        ;
    } else if data.len() <= block_size {
        assert(bl =~= seq![data]);
        assert(1 * bs == bs) by (nonlinear_arith);
        assert((bl.len() as int - 1) * bs < data.len() as int <= bl.len() * bs);
        assert((1 - 1) * bs == 0) by (nonlinear_arith);
        assert(data.subrange(0, data.len() as int) =~= data);
        assert(0 * bs == 0) by (nonlinear_arith);
        assert(1 * bs == bs) by (nonlinear_arith);
    } else {
        let rest = data.skip(bs);
        lemma_blocks_of(rest, block_size);
        let rl = blocks_of(rest, block_size);
        let n = rl.len() as int;
        assert(bl.len() == n + 1);
        assert((n + 1 - 1) * bs == n * bs);
        assert((n + 1) * bs == n * bs + bs) by (nonlinear_arith);
        assert((n - 1) * bs + bs == n * bs) by (nonlinear_arith);
        assert(rest.len() == data.len() - bs);
        assert((bl.len() as int - 1) * bs < data.len() as int <= bl.len() * bs);
        assert forall|i: int| 0 <= i < bl.len() implies #[trigger] bl[i] == data.subrange(
            i * bs,
            if (i + 1) * bs <= data.len() {
                (i + 1) * bs
            } else {
                data.len() as int
            },
        ) by {
            if i == 0 {
                assert(0 * bs == 0) by (nonlinear_arith);
                assert(1 * bs == bs) by (nonlinear_arith);
                assert(bl[0] =~= data.subrange(0, bs));
            } else {
                assert(bl[i] == rl[i - 1]);
                assert(i * bs == (i - 1) * bs + bs) by (nonlinear_arith);
                assert((i - 1) * bs <= (n - 1) * bs) by (nonlinear_arith)
                    requires
                        i - 1 <= n - 1,
                        bs > 0,
                ;
                assert((i + 1) * bs == i * bs + bs) by (nonlinear_arith);
                let end = if (i + 1) * bs <= data.len() {
                    (i + 1) * bs
                } else {
                    data.len() as int
                };
                let rend = if i * bs <= rest.len() {
                    i * bs
                } else {
                    rest.len() as int
                };
                assert(rl[i - 1] == rest.subrange((i - 1) * bs, rend));
                assert(rend + bs == end);
                assert(rest.subrange((i - 1) * bs, rend) =~= data.subrange(i * bs, end));
            }
        }
    }
}

/// Every block holds between 1 and `block_size` bytes, and no more than the
/// whole stream.
pub proof fn lemma_block_lengths(data: Seq<u8>, block_size: nat)
    requires
        block_size > 0,
    ensures
        forall|i: int|
            0 <= i < blocks_of(data, block_size).len() ==> 1 <= (#[trigger] blocks_of(
                data,
                block_size,
            )[i]).len() <= block_size && blocks_of(data, block_size)[i].len() <= data.len(),
    decreases data.len(),
{
    if data.len() > block_size {
        let rest = data.skip(block_size as int);
        lemma_block_lengths(rest, block_size);
        let bl = blocks_of(data, block_size);
        assert forall|i: int| 0 < i < bl.len() implies bl[i] == blocks_of(rest, block_size)[i - 1] by {}
    }
}

/// What the assembly of a block does after one read of `n` bytes.
pub enum BlockStep {
    /// The block is not full yet: read again, `filled` bytes are held.
    Continue { filled: usize },
    /// The block is done and holds `len` bytes: hand it on, start a new one.
    Emit { len: usize },
    /// The stream is exhausted and no byte is held: no more blocks.
    End,
}

/// Decides the next step of block assembly: `filled` bytes are held, a read
/// into the rest of the block returned `n` bytes (0 at the end of the stream).
pub fn next_step(filled: usize, n: usize, block_size: usize) -> (r: BlockStep)
    requires
        filled < block_size,
        n <= block_size - filled,
    ensures
        n == 0 && filled == 0 ==> r == BlockStep::End,
        n > 0 && filled + n < block_size ==> r == (BlockStep::Continue { filled: (filled + n) as usize }),
        (n == 0 && filled > 0) || filled + n == block_size ==> r == (BlockStep::Emit { len: (filled + n) as usize }),
{
    if n == 0 && filled == 0 {
        BlockStep::End
    } else if n > 0 && filled + n < block_size {
        BlockStep::Continue { filled: filled + n }
    } else {
        BlockStep::Emit { len: filled + n }
    }
}

/// Cuts `data` into its blocks of `block_size` bytes.
pub fn split_blocks(data: &[u8], block_size: usize) -> (r: Vec<Vec<u8>>)
    requires
        block_size > 0,
    ensures
        r@.map_values(|b: Vec<u8>| b@) == blocks_of(data@, block_size as nat),
{
    let mut r: Vec<Vec<u8>> = Vec::new();
    let mut start: usize = 0;
    assert(data@.skip(0) =~= data@);
    assert(r@.map_values(|b: Vec<u8>| b@) + blocks_of(data@, block_size as nat) =~= blocks_of(data@, block_size as nat));
    while start < data.len()
        invariant
            block_size > 0,
            start <= data@.len(),
            r@.map_values(|b: Vec<u8>| b@) + blocks_of(data@.skip(start as int), block_size as nat)
                == blocks_of(data@, block_size as nat),
        decreases data@.len() - start,
    {
        let rest = data.len() - start;
        let len: usize = if rest < block_size { rest } else { block_size };
        let mut block: Vec<u8> = Vec::with_capacity(len);
        let end: usize = start + len;
        let mut k: usize = 0;
        while k < len
            invariant
                start + len == end,
                end <= data@.len(),
                k <= len,
                block@ == data@.subrange(start as int, start + k),
            decreases len - k,
        {
            block.push(data[start + k]);
            k += 1;
            assert(block@ =~= data@.subrange(start as int, start + k));
        }
        let ghost tail = data@.skip(start as int);
        proof {
            if rest <= block_size {
                assert(block@ =~= tail);
                assert(data@.skip(start + len) =~= Seq::<u8>::empty());
            } else {
                assert(block@ =~= tail.take(block_size as int));
                assert(tail.skip(block_size as int) =~= data@.skip(start + len));
            }
        }
        let ghost before = r@;
        r.push(block);
        assert(r@.map_values(|b: Vec<u8>| b@) =~= before.map_values(|b: Vec<u8>| b@) + seq![block@]);
        start = start + len;
    }
    assert(data@.skip(start as int) =~= Seq::<u8>::empty());
    assert(r@.map_values(|b: Vec<u8>| b@) + Seq::<Seq<u8>>::empty() =~= r@.map_values(|b: Vec<u8>| b@));
    r
}

} // verus!
