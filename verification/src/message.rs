//! Blocks as peers send them.

use vstd::prelude::*;

verus! {

/// A block number: a natural number of some machine width.
pub trait BlockNumber: Copy + Eq + std::fmt::Debug {
    /// The number's mathematical value.
    spec fn as_nat(self) -> nat;

    /// The number zero.
    spec fn zero_number() -> Self;

    /// The number zero has the value zero.
    proof fn lemma_zero()
        ensures
            Self::zero_number().as_nat() == 0,
    ;

    /// Returns the number zero.
    fn zero() -> (number: Self)
        ensures
            number == Self::zero_number(),
    ;

    /// Returns whether this number is greater than `other`.
    fn exceeds(self, other: Self) -> (greater: bool)
        ensures
            greater == (self.as_nat() > other.as_nat()),
    ;
}

impl BlockNumber for u32 {
    open spec fn as_nat(self) -> nat {
        self as nat
    }

    open spec fn zero_number() -> Self {
        0
    }

    proof fn lemma_zero() {
    }

    fn zero() -> (number: Self) {
        0
    }

    fn exceeds(self, other: Self) -> (greater: bool) {
        self > other
    }
}

impl BlockNumber for u64 {
    open spec fn as_nat(self) -> nat {
        self as nat
    }

    open spec fn zero_number() -> Self {
        0
    }

    proof fn lemma_zero() {
    }

    fn zero() -> (number: Self) {
        0
    }

    fn exceeds(self, other: Self) -> (greater: bool) {
        self > other
    }
}

/// The types that the blocks of one chain are made of.
pub trait BlockT {
    /// What identifies a block.
    type Hash: Copy + Eq + std::hash::Hash + std::fmt::Debug;

    /// A block's height.
    type Number: BlockNumber;

    /// What a header holds besides its number.
    type Header: Clone + std::fmt::Debug;

    /// An item of a block's body.
    type Extrinsic: Clone + std::fmt::Debug;
}

/// The encoded proof that consensus was reached on a block.
pub type Justification = Vec<u8>;

/// A block header, with its hash.
#[derive(Clone, Debug)]
pub struct Header<B: BlockT> {
    /// The block's height.
    pub number: B::Number,
    /// The hash of this header. A peer may have announced the block under another.
    pub hash: B::Hash,
    /// The rest of the header.
    pub content: B::Header,
}

/// What a peer sent of one block.
#[derive(Clone, Debug)]
pub struct BlockData<B: BlockT> {
    /// The hash under which the peer announced the block.
    pub hash: B::Hash,
    /// The header, if it was requested.
    pub header: Option<Header<B>>,
    /// The body, if it was requested.
    pub body: Option<Vec<B::Extrinsic>>,
    /// The receipt, if it was requested.
    pub receipt: Option<Vec<u8>>,
    /// The message queue, if it was requested.
    pub message_queue: Option<Vec<u8>>,
    /// The justification, if it was requested.
    pub justification: Option<Justification>,
}

} // verus!
