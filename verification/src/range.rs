//! Byte ranges over a chain of fixed-size blocks, and their wire form.

use vstd::prelude::*;
use vstd::string::StringExecFns;
use crate::decimal::{decimal, push_decimal};
use crate::error::SyncError;

verus! {

/// Size of one block of a chain, in bytes.
pub const BLOCK: usize = 4069;

/// A request for a part of the remote chain, in bytes.
///
/// Offsets have 128 bits, so that the range of any block whose index has 64 bits
/// can be written down.
#[derive(Clone, Copy, Debug, PartialEq, Eq, Structural)]
pub enum ByteRange {
    /// The bytes from `start` to `end`, both included.
    Bounded { start: u128, end: u128 },
    /// The bytes from `start` to wherever the chain ends.
    Open { start: u128 },
}

/// The range of the one block at `index`: from `index * BLOCK` to
/// `(index + 1) * BLOCK - 1`.
pub open spec fn spec_single_block_range(index: u64) -> ByteRange {
    ByteRange::Bounded {
        start: (index * BLOCK) as u128,
        end: ((index + 1) * BLOCK - 1) as u128,
    }
}

/// The range of `count` blocks from the block at `index` on: from
/// `index * BLOCK` to `(index + count) * BLOCK - 1`. It is meant for a `count`
/// above zero.
pub open spec fn spec_bulk_range(index: u64, count: u64) -> ByteRange {
    ByteRange::Bounded {
        start: (index * BLOCK) as u128,
        end: ((index + count) * BLOCK - 1) as u128,
    }
}

/// The open range of everything past the first `block_count` blocks: from
/// `block_count * BLOCK` on.
pub open spec fn spec_tail_range(block_count: nat) -> ByteRange {
    ByteRange::Open { start: (block_count * BLOCK) as u128 }
}

impl ByteRange {
    /// The first byte of the range.
    pub open spec fn first(self) -> nat {
        match self {
            ByteRange::Bounded { start, .. } => start as nat,
            ByteRange::Open { start } => start as nat,
        }
    }

    /// How many bytes a bounded range asks for; an open range has no such number.
    pub open spec fn span(self) -> Option<nat> {
        match self {
            ByteRange::Bounded { start, end } => Some((end - start + 1) as nat),
            ByteRange::Open { .. } => None,
        }
    }

    /// A range starts at a block boundary, and a bounded one holds one or more
    /// whole blocks.
    pub open spec fn wf(self) -> bool {
        match self {
            ByteRange::Bounded { start, end } => {
                &&& start as nat % BLOCK as nat == 0
                &&& end >= start
                &&& (end - start + 1) % BLOCK as int == 0
            },
            ByteRange::Open { start } => start as nat % BLOCK as nat == 0,
        }
    }

    /// The wire form: `bytes=<start>-<end>` with the last byte included, or
    /// `bytes=<start>-` for an open range. Both numbers are decimal numerals.
    pub open spec fn wire(self) -> Seq<char> {
        match self {
            ByteRange::Bounded { start, end } => "bytes="@ + decimal(start as nat) + "-"@ + decimal(
                end as nat,
            ),
            ByteRange::Open { start } => "bytes="@ + decimal(start as nat) + "-"@,
        }
    }

    /// Whether the range has no upper end.
    pub fn is_open(&self) -> (open: bool)
        ensures
            open == (*self is Open),
    {
        match self {
            ByteRange::Bounded { .. } => false,
            ByteRange::Open { .. } => true,
        }
    }

    /// The first byte of the range.
    pub fn start(&self) -> (start: u128)
        ensures
            start as nat == self.first(),
    {
        match self {
            ByteRange::Bounded { start, .. } => *start,
            ByteRange::Open { start } => *start,
        }
    }

    /// The number of bytes that a bounded range asks for.
    pub fn byte_len(&self) -> (len: Option<u128>)
        requires
            self.wf(),
        ensures
            match len {
                Some(n) => self.span() == Some(n as nat),
                None => self.span() is None,
            },
    {
        match self {
            ByteRange::Bounded { start, end } => Some(*end - *start + 1),
            ByteRange::Open { .. } => None,
        }
    }

    /// Writes the range as the value of a `Range` header.
    pub fn to_wire(&self) -> (text: String)
        ensures
            text@ == self.wire(),
    {
        let mut text = String::from_str("bytes=");
        match self {
            ByteRange::Bounded { start, end } => {
                push_decimal(&mut text, *start);
                text.append("-");
                push_decimal(&mut text, *end);
            },
            ByteRange::Open { start } => {
                push_decimal(&mut text, *start);
                text.append("-");
            },
        }
        text
    }
}

/// The range of the one block at `index`.
pub fn single_block_range(index: u64) -> (range: ByteRange)
    ensures
        range == spec_single_block_range(index),
{
    proof {
        lemma_block_offsets(index, 1);
    }
    let block: u128 = BLOCK as u128;
    let first: u128 = index as u128 * block;
    ByteRange::Bounded { start: first, end: first + (block - 1) }
}

/// The range of `count` blocks from the block at `index` on. No range holds
/// zero blocks: a `count` of zero is refused.
pub fn bulk_range(index: u64, count: u64) -> (result: Result<ByteRange, SyncError>)
    ensures
        match result {
            Ok(range) => count > 0 && range == spec_bulk_range(index, count),
            Err(e) => count == 0 && e == SyncError::Argument,
        },
{
    if count == 0 {
        return Err(SyncError::Argument);
    }
    proof {
        lemma_block_offsets(index, count);
    }
    let block: u128 = BLOCK as u128;
    let first: u128 = index as u128 * block;
    let past: u128 = (index as u128 + count as u128) * block;
    Ok(ByteRange::Bounded { start: first, end: past - 1 })
}

/// The open range of everything past the first `block_count` blocks.
pub fn tail_range(block_count: u64) -> (range: ByteRange)
    ensures
        range == spec_tail_range(block_count as nat),
{
    proof {
        lemma_block_offsets(block_count, 1);
    }
    let block: u128 = BLOCK as u128;
    ByteRange::Open { start: block_count as u128 * block }
}

/// The offsets of `count` blocks from the block at `index` on fit in 128 bits.
pub proof fn lemma_block_offsets(index: u64, count: u64)
    requires
        count > 0,
    ensures
        index * BLOCK <= (index + 1) * BLOCK - 1 <= (index + count) * BLOCK - 1 <= u128::MAX,
        (index + 1) * BLOCK - 1 == index * BLOCK + (BLOCK - 1),
        (index + count) * BLOCK - index * BLOCK == count * BLOCK,
        (index * BLOCK) % BLOCK as int == 0,
        (count * BLOCK) % BLOCK as int == 0,
{
    assert((index * 4069) % 4069 == 0) by (nonlinear_arith);
    assert((count * 4069) % 4069 == 0) by (nonlinear_arith);
    assert((index + count) * 4069 == index * 4069 + count * 4069) by (nonlinear_arith);
    assert((index + 1) * 4069 == index * 4069 + 4069) by (nonlinear_arith);
    assert(count * 4069 >= 4069) by (nonlinear_arith)
        requires
            count > 0,
    ;
    assert((index + count) * 4069 <= 0x2_0000_0000_0000_0000 * 4069) by (nonlinear_arith)
        requires
            index + count <= 0x2_0000_0000_0000_0000,
    ;
}

/// The range of one block is the bulk range of a single block, and so the two
/// have the same wire form.
pub proof fn lemma_single_is_bulk_of_one(index: u64)
    ensures
        spec_single_block_range(index) == spec_bulk_range(index, 1),
        spec_single_block_range(index).wire() == spec_bulk_range(index, 1).wire(),
{
}

/// A bulk range of `count` blocks starts at the first byte of the block at
/// `index` and asks for exactly `count * BLOCK` bytes.
pub proof fn lemma_bulk_spans_whole_blocks(index: u64, count: u64)
    requires
        count > 0,
    ensures
        spec_bulk_range(index, count).first() == index * BLOCK,
        spec_bulk_range(index, count).span() == Some((count * BLOCK) as nat),
        spec_bulk_range(index, count).wf(),
{
    lemma_block_offsets(index, count);
}

/// A tail range starts at the first byte past the blocks held, which is a block
/// boundary.
pub proof fn lemma_tail_starts_past_blocks(block_count: u64)
    ensures
        spec_tail_range(block_count as nat).first() == block_count * BLOCK,
        spec_tail_range(block_count as nat).wf(),
{
    lemma_block_offsets(block_count, 1);
}

} // verus!
