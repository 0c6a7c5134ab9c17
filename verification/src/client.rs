//! The client, which verifies blocks and adds them to the chain.

use vstd::prelude::*;

use crate::message::{BlockT, Header, Justification};

verus! {

/// Where a block comes from.
#[derive(Clone, Copy, Debug, PartialEq, Eq, Structural)]
pub enum BlockOrigin {
    /// The genesis block, built into the client.
    Genesis,
    /// The initial synchronization with the network.
    NetworkInitialSync,
    /// A broadcast on the network.
    NetworkBroadcast,
    /// The network, and the consensus process has validated the block.
    ConsensusBroadcast,
    /// This node has collated the block.
    Own,
    /// A file.
    File,
}

/// What the client made of a block that it was handed.
#[derive(Clone, Copy, Debug, PartialEq, Eq, Structural)]
pub enum ImportResult {
    /// The block was added to the import queue.
    Queued,
    /// The block was in the import queue before.
    AlreadyQueued,
    /// The block was in the chain before.
    AlreadyInChain,
    /// The block, or a parent of it, is known to be bad.
    KnownBad,
    /// The block's parent is not in the chain.
    UnknownParent,
}

/// The public key of an authority.
#[derive(Clone, Copy, Debug, PartialEq, Eq)]
pub struct AuthorityId(pub [u8; 32]);

/// A block in the form in which the client takes it.
#[derive(Clone, Debug)]
pub struct ImportBlock<B: BlockT> {
    /// Where the block comes from.
    pub origin: BlockOrigin,
    /// The header.
    pub header: Header<B>,
    /// The justification that came with the block.
    pub external_justification: Justification,
    /// The justification that was found inside the block.
    pub internal_justification: Justification,
    /// The body.
    pub body: Option<Vec<B::Extrinsic>>,
    /// Whether the block is final as soon as it is imported.
    pub finalized: bool,
    /// What to write to the auxiliary store, or to delete from it, with the block.
    pub auxiliary: Vec<(Vec<u8>, Option<Vec<u8>>)>,
}

/// A call that was made on a client: what it was handed, and what it replied.
pub struct ImportCall<B: BlockT, E> {
    /// The block.
    pub block: ImportBlock<B>,
    /// The authorities that were to take over after it, if any.
    pub new_authorities: Option<Vec<AuthorityId>>,
    /// The reply.
    pub reply: Result<ImportResult, E>,
}

/// A client that imports blocks. What it has been handed is known of a client that keeps a
/// log.
pub trait Client<B: BlockT> {
    /// What goes wrong in the client itself.
    type Error;

    /// Whether the client keeps a log of the calls that are made on it.
    open spec fn keeps_log(&self) -> bool {
        false
    }

    /// The calls that have been made on the client so far, oldest first.
    open spec fn imports(&self) -> Seq<ImportCall<B, Self::Error>> {
        Seq::empty()
    }

    /// Imports `block`, after which `new_authorities`, if given, take over.
    fn import(
        &mut self,
        block: ImportBlock<B>,
        new_authorities: Option<Vec<AuthorityId>>,
    ) -> (reply: Result<ImportResult, Self::Error>)
        ensures
            final(self).keeps_log() == old(self).keeps_log(),
            old(self).keeps_log() ==> final(self).imports() == old(self).imports().push(
                (ImportCall { block, new_authorities, reply }),
            ),
    ;
}

/// A client that hands what it gets to another client, and keeps a log of it.
pub struct LoggedClient<B: BlockT, C: Client<B>> {
    /// The other client.
    pub client: C,
    /// The calls that have been made, oldest first.
    pub log: Ghost<Seq<ImportCall<B, C::Error>>>,
}

impl<B: BlockT, C: Client<B>> LoggedClient<B, C> {
    /// Keeps a log for `client`, in which nothing stands yet.
    pub fn new(client: C) -> (logged: Self)
        ensures
            logged.client == client,
            logged.log@.len() == 0,
    {
        LoggedClient { client, log: Ghost(Seq::empty()) }
    }
}

impl<B: BlockT, C: Client<B>> Client<B> for LoggedClient<B, C> {
    type Error = C::Error;

    open spec fn keeps_log(&self) -> bool {
        true
    }

    open spec fn imports(&self) -> Seq<ImportCall<B, C::Error>> {
        self.log@
    }

    fn import(
        &mut self,
        block: ImportBlock<B>,
        new_authorities: Option<Vec<AuthorityId>>,
    ) -> (reply: Result<ImportResult, C::Error>)
        ensures
            old(self).client.keeps_log() ==> final(self).client.imports() == old(
                self,
            ).client.imports().push((ImportCall { block, new_authorities, reply })),
    {
        let reply = self.client.import(block, new_authorities);
        self.log = Ghost(self.log@.push(ImportCall { block, new_authorities, reply }));
        reply
    }
}

} // verus!
