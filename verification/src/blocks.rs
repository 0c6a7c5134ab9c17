//! Blocks on their way to import.

use vstd::prelude::*;

use crate::link::NodeIndex;
use crate::message;
use crate::message::BlockT;

verus! {

/// A block and the peer that sent it.
#[derive(Clone, Debug)]
pub struct BlockData<B: BlockT> {
    /// What the peer sent.
    pub block: message::BlockData<B>,
    /// The peer.
    pub origin: NodeIndex,
}

impl<B: BlockT> BlockData<B> {
    /// Whether the block comes with all that the client needs to import it.
    pub open spec fn importable(self) -> bool {
        self.block.header is Some && self.block.justification is Some
    }
}

/// The hashes under which `blocks` were announced, in order.
pub open spec fn announced_hashes<B: BlockT>(blocks: Seq<BlockData<B>>) -> Seq<B::Hash> {
    Seq::new(blocks.len(), |i: int| blocks[i].block.hash)
}

/// Returns the hashes under which `blocks` were announced, in order.
pub fn block_hashes<B: BlockT>(blocks: &Vec<BlockData<B>>) -> (hashes: Vec<B::Hash>)
    ensures
        hashes@ == announced_hashes(blocks@),
{
    let mut hashes: Vec<B::Hash> = Vec::new();
    for i in 0..blocks.len()
        invariant
            hashes@ == announced_hashes(blocks@.take(i as int)),
    {
        hashes.push(blocks[i].block.hash);
        assert(hashes@ =~= announced_hashes(blocks@.take(i + 1)));
    }
    assert(blocks@.take(blocks.len() as int) =~= blocks@);
    hashes
}

/// Returns the numbers of the first and the last of `blocks`, where both have a header.
pub fn blocks_range<B: BlockT>(blocks: &Vec<BlockData<B>>) -> (range: Option<(B::Number, B::Number)>)
    ensures
        range == (if blocks@.len() > 0 {
            match (blocks@.first().block.header, blocks@.last().block.header) {
                (Some(first), Some(last)) => Some((first.number, last.number)),
                _ => None,
            }
        } else {
            None
        }),
{
    if blocks.len() == 0 {
        return None;
    }
    match (&blocks[0].block.header, &blocks[blocks.len() - 1].block.header) {
        (Some(first), Some(last)) => Some((first.number, last.number)),
        _ => None,
    }
}

} // verus!
