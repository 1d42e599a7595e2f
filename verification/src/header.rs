//! Block numbers, hashes and headers.

use vstd::prelude::*;

use crate::felt::Felt;

verus! {

/// The largest block number: numbers are counted in a signed 64-bit column.
pub const MAX_BLOCK_NUMBER: u64 = 0x7fff_ffff_ffff_ffff;

/// The height of a block: a number from zero up to [`MAX_BLOCK_NUMBER`].
#[derive(Clone, Copy, Debug, PartialEq, Eq, Hash)]
pub struct BlockNumber {
    number: u64,
}

impl View for BlockNumber {
    type V = u64;

    closed spec fn view(&self) -> u64 {
        self.number
    }
}

impl BlockNumber {
    #[verifier::type_invariant]
    spec fn in_range(self) -> bool {
        self.number <= MAX_BLOCK_NUMBER
    }

    /// Two block numbers of the same height are the same.
    pub proof fn lemma_view_injective(a: BlockNumber, b: BlockNumber)
        requires
            a@ == b@,
        ensures
            a == b,
    {
    }

    /// The block number `number`, where it is not above the largest.
    pub fn new(number: u64) -> (block: Option<BlockNumber>)
        ensures
            block is Some <==> number <= MAX_BLOCK_NUMBER,
            block is Some ==> block->Some_0@ == number,
    {
        if number <= MAX_BLOCK_NUMBER {
            Some(BlockNumber { number })
        } else {
            None
        }
    }

    /// The first block.
    pub fn genesis() -> (block: BlockNumber)
        ensures
            block@ == 0,
    {
        BlockNumber { number: 0 }
    }

    /// The height as a plain number.
    pub fn get(&self) -> (number: u64)
        ensures
            number == self@,
            number <= MAX_BLOCK_NUMBER,
    {
        proof {
            use_type_invariant(self);
        }
        self.number
    }
}

/// The hash of a block.
#[derive(Clone, Copy, Debug, PartialEq, Eq, Hash)]
pub struct BlockHash(pub Felt);

/// What a block's proposer signed over its commitments.
#[derive(Clone, Copy, Debug, PartialEq, Eq)]
pub struct BlockCommitmentSignature {
    pub r: Felt,
    pub s: Felt,
}

/// What a peer announces of a block.
#[derive(Clone, Copy, Debug, PartialEq, Eq)]
pub struct BlockHeader {
    pub hash: BlockHash,
    pub parent_hash: BlockHash,
    pub number: BlockNumber,
    /// The number of transactions in the block.
    pub transaction_count: usize,
    /// The number of events that the block's transactions emitted: exactly
    /// as many are read for it.
    pub event_count: usize,
    pub transaction_commitment: Felt,
    pub event_commitment: Felt,
    pub state_commitment: Felt,
}

/// A header with its proposer's signature.
#[derive(Clone, Copy, Debug, PartialEq, Eq)]
pub struct SignedBlockHeader {
    pub header: BlockHeader,
    pub signature: BlockCommitmentSignature,
}

} // verus!
