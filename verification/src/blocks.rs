//! Cutting the body of a reply into whole blocks.

use vstd::prelude::*;
use vstd::slice::slice_subrange;
use crate::range::BLOCK;

verus! {

/// How many whole blocks the front of `body` holds.
pub open spec fn whole_block_count(body: Seq<u8>) -> nat {
    body.len() / BLOCK as nat
}

/// The `i`-th stretch of `BLOCK` bytes of `body`.
pub open spec fn block_at(body: Seq<u8>, i: int) -> Seq<u8> {
    body.subrange(i * BLOCK as int, (i + 1) * BLOCK as int)
}

/// The whole blocks at the front of `body`, in the order in which they stand
/// there. What follows the last whole block, fewer than `BLOCK` bytes, is left out.
pub open spec fn whole_blocks(body: Seq<u8>) -> Seq<Seq<u8>> {
    Seq::new(whole_block_count(body), |i: int| block_at(body, i))
}

/// The bytes of `blocks`, one block after the other.
pub open spec fn joined(blocks: Seq<Seq<u8>>) -> Seq<u8>
    decreases blocks.len(),
{
    if blocks.len() == 0 {
        Seq::empty()
    } else {
        joined(blocks.drop_last()) + blocks.last()
    }
}

/// Whether every item of `blocks` has the size of a block.
pub open spec fn all_block_sized(blocks: Seq<Seq<u8>>) -> bool {
    forall|i: int| 0 <= i < blocks.len() ==> (#[trigger] blocks[i]).len() == BLOCK as nat
}

/// The `i`-th whole block of a body lies inside the body and has the size of a
/// block.
pub proof fn lemma_block_in_body(body: Seq<u8>, i: int)
    requires
        0 <= i < whole_block_count(body),
    ensures
        0 <= i * BLOCK as int,
        (i + 1) * BLOCK as int <= body.len(),
        (i + 1) * BLOCK as int - i * BLOCK as int == BLOCK as int,
        block_at(body, i).len() == BLOCK as nat,
{
    let k = body.len() / BLOCK as nat;
    assert(body.len() == 4069 * (body.len() / 4069) + body.len() % 4069) by (nonlinear_arith);
    assert(0 <= i * 4069 && (i + 1) * 4069 <= k * 4069) by (nonlinear_arith)
        requires
            0 <= i < k,
    ;
    assert((i + 1) * 4069 - i * 4069 == 4069) by (nonlinear_arith);
}

/// A body holds as many whole blocks as `BLOCK` goes into its length, and each
/// of them has the size of a block.
pub proof fn lemma_whole_blocks_fit(body: Seq<u8>)
    ensures
        whole_blocks(body).len() == body.len() / BLOCK as nat,
        whole_blocks(body).len() * BLOCK as nat <= body.len(),
        body.len() - whole_blocks(body).len() * BLOCK as nat == body.len() % BLOCK as nat,
        all_block_sized(whole_blocks(body)),
{
    assert(body.len() == 4069 * (body.len() / 4069) + body.len() % 4069) by (nonlinear_arith);
    assert forall|i: int| 0 <= i < whole_blocks(body).len() implies (#[trigger] whole_blocks(
        body,
    )[i]).len() == BLOCK as nat by {
        lemma_block_in_body(body, i);
    }
}

/// Blocks joined together take `BLOCK` bytes each.
pub proof fn lemma_joined_len(blocks: Seq<Seq<u8>>)
    requires
        all_block_sized(blocks),
    ensures
        joined(blocks).len() == blocks.len() * BLOCK as nat,
    decreases blocks.len(),
{
    if blocks.len() > 0 {
        lemma_joined_len(blocks.drop_last());
        assert(blocks.len() * 4069 == (blocks.len() - 1) * 4069 + 4069) by (nonlinear_arith);
    }
}

/// Inside joined blocks, the `i`-th stretch of `BLOCK` bytes is the `i`-th block,
/// whatever follows the blocks.
pub proof fn lemma_block_at_joined(blocks: Seq<Seq<u8>>, extra: Seq<u8>, i: int)
    requires
        all_block_sized(blocks),
        0 <= i < blocks.len(),
    ensures
        block_at(joined(blocks) + extra, i) == blocks[i],
    decreases blocks.len(),
{
    let front = blocks.drop_last();
    lemma_joined_len(front);
    lemma_joined_len(blocks);
    assert(0 <= i * 4069 && (i + 1) * 4069 <= blocks.len() * 4069) by (nonlinear_arith)
        requires
            0 <= i < blocks.len(),
    ;
    if i == blocks.len() - 1 {
        assert(block_at(joined(blocks) + extra, i) =~= blocks[i]);
    } else {
        lemma_block_at_joined(front, blocks.last() + extra, i);
        assert(joined(blocks) + extra =~= joined(front) + (blocks.last() + extra));
    }
}

/// Cutting takes back exactly the blocks that were joined: a rest of fewer than
/// `BLOCK` bytes behind them adds no block and changes none.
pub proof fn lemma_remainder_is_discarded(blocks: Seq<Seq<u8>>, extra: Seq<u8>)
    requires
        all_block_sized(blocks),
        extra.len() < BLOCK,
    ensures
        whole_blocks(joined(blocks) + extra) == blocks,
        whole_block_count(joined(blocks) + extra) == blocks.len(),
{
    let body = joined(blocks) + extra;
    lemma_joined_len(blocks);
    assert((blocks.len() * 4069 + extra.len()) / 4069 == blocks.len()) by (nonlinear_arith)
        requires
            extra.len() < 4069,
    ;
    assert forall|i: int| 0 <= i < blocks.len() implies #[trigger] whole_blocks(body)[i]
        == blocks[i] by {
        lemma_block_at_joined(blocks, extra, i);
    }
    assert(whole_blocks(body) =~= blocks);
}

/// The number of whole blocks at the front of `body`.
pub fn count_whole_blocks(body: &[u8]) -> (count: usize)
    ensures
        count as nat == whole_block_count(body@),
        count as nat == whole_blocks(body@).len(),
{
    body.len() / BLOCK
}

/// The `i`-th whole block of `body`.
pub fn nth_block(body: &[u8], i: usize) -> (block: &[u8])
    requires
        (i as nat) < whole_block_count(body@),
    ensures
        block@ == whole_blocks(body@)[i as int],
        block@ == block_at(body@, i as int),
        block@.len() == BLOCK as nat,
{
    let len: usize = body.len();
    proof {
        lemma_block_in_body(body@, i as int);
    }
    let from: usize = i * BLOCK;
    let to: usize = from + BLOCK;
    slice_subrange(body, from, to)
}

} // verus!
