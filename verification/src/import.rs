//! The import of blocks, and what synchronization is told of it.

use vstd::prelude::*;

use crate::blocks::{announced_hashes, block_hashes, BlockData};
use crate::client::{BlockOrigin, Client, ImportBlock, ImportCall, ImportResult};
use crate::data::{Batch, QueueHandle};
use crate::link::{LinkEvent, NodeIndex, SyncEvent, SyncLinkApi};
use crate::message::BlockT;

verus! {

/// Block import successful result.
#[derive(Debug, PartialEq)]
pub enum BlockImportResult<H, N> {
    /// Imported known block.
    ImportedKnown(H, N),
    /// Imported unknown block.
    ImportedUnknown(H, N),
}

/// Block import error.
#[derive(Debug, PartialEq)]
pub enum BlockImportError {
    /// Disconnect from peer and continue import of next bunch of blocks.
    Disconnect(NodeIndex),
    /// Disconnect from peer and restart sync.
    DisconnectAndRestart(NodeIndex),
    /// Restart sync.
    Restart,
}

/// What became of one block.
pub type ImportOutcome<B> = Result<
    BlockImportResult<<B as BlockT>::Hash, <B as BlockT>::Number>,
    BlockImportError,
>;

/// What goes wrong in the client behind a link.
pub type LinkError<B, L> = <<L as SyncLinkApi<B>>::Chain as Client<B>>::Error;

/// Whether `request` is `block` in the form in which the client takes it.
pub open spec fn is_request_for<B: BlockT>(
    request: ImportBlock<B>,
    origin: BlockOrigin,
    block: BlockData<B>,
    instant_finality: bool,
) -> bool {
    &&& request.origin == origin
    &&& Some(request.header) == block.block.header
    &&& Some(request.external_justification) == block.block.justification
    &&& request.internal_justification@.len() == 0
    &&& request.body == block.block.body
    &&& request.finalized == instant_finality
    &&& request.auxiliary@.len() == 0
}

/// What the client's reply means for the block with this hash and number, which
/// `who` has sent.
pub open spec fn outcome_of_reply<H, N, E>(
    reply: Result<ImportResult, E>,
    hash: H,
    number: N,
    who: NodeIndex,
) -> Result<BlockImportResult<H, N>, BlockImportError> {
    match reply {
        Ok(ImportResult::AlreadyInChain) => Ok(BlockImportResult::ImportedKnown(hash, number)),
        Ok(ImportResult::AlreadyQueued) => Ok(BlockImportResult::ImportedKnown(hash, number)),
        Ok(ImportResult::Queued) => Ok(BlockImportResult::ImportedUnknown(hash, number)),
        Ok(ImportResult::UnknownParent) => Err(BlockImportError::Restart),
        Ok(ImportResult::KnownBad) => Err(BlockImportError::DisconnectAndRestart(who)),
        Err(_) => Err(BlockImportError::Restart),
    }
}

/// The import of one block: the calls that were made on the client, and what became of the
/// block.
pub struct ImportStep<B: BlockT, E> {
    /// The calls on the client, oldest first.
    pub calls: Seq<ImportCall<B, E>>,
    /// What became of the block.
    pub outcome: ImportOutcome<B>,
}

/// Whether `step` is an import of `block`. Where the block is not complete, the client is
/// not called, and the sender is to be disconnected. Else the client is called once, with
/// exactly this block, and its reply decides.
pub open spec fn is_step<B: BlockT, E>(
    origin: BlockOrigin,
    block: BlockData<B>,
    instant_finality: bool,
    step: ImportStep<B, E>,
) -> bool {
    if block.importable() {
        &&& step.calls.len() == 1
        &&& is_request_for(step.calls[0].block, origin, block, instant_finality)
        &&& step.calls[0].new_authorities is None
        &&& step.outcome == outcome_of_reply(
            step.calls[0].reply,
            block.block.header->0.hash,
            block.block.header->0.number,
            block.origin,
        )
    } else {
        &&& step.calls.len() == 0
        &&& step.outcome matches Err(error)
        &&& error == BlockImportError::Disconnect(block.origin)
    }
}

/// Puts `block` into the form in which the client takes it.
pub fn prepare_import<B: BlockT>(
    block_origin: BlockOrigin,
    block: BlockData<B>,
    instant_finality: bool,
) -> (request: Result<ImportBlock<B>, BlockImportError>)
    ensures
        request is Ok <==> block.importable(),
        request matches Ok(request) ==> is_request_for(
            request,
            block_origin,
            block,
            instant_finality,
        ),
        request matches Err(error) ==> error == BlockImportError::Disconnect(block.origin),
{
    let origin = block.origin;
    let block = block.block;
    match (block.header, block.justification) {
        (Some(header), Some(justification)) => Ok(
            ImportBlock {
                origin: block_origin,
                header,
                external_justification: justification,
                internal_justification: Vec::new(),
                body: block.body,
                finalized: instant_finality,
                auxiliary: Vec::new(),
            },
        ),
        (None, _) => Err(BlockImportError::Disconnect(origin)),
        (_, None) => Err(BlockImportError::Disconnect(origin)),
    }
}

/// Says what the client's reply means for the block with this hash and number,
/// which `who` has sent.
pub fn import_outcome<H, N, E>(
    reply: Result<ImportResult, E>,
    hash: H,
    number: N,
    who: NodeIndex,
) -> (outcome: Result<BlockImportResult<H, N>, BlockImportError>)
    ensures
        outcome == outcome_of_reply(reply, hash, number, who),
{
    match reply {
        Ok(ImportResult::AlreadyInChain) => Ok(BlockImportResult::ImportedKnown(hash, number)),
        Ok(ImportResult::AlreadyQueued) => Ok(BlockImportResult::ImportedKnown(hash, number)),
        Ok(ImportResult::Queued) => Ok(BlockImportResult::ImportedUnknown(hash, number)),
        Ok(ImportResult::UnknownParent) => Err(BlockImportError::Restart),
        Ok(ImportResult::KnownBad) => Err(BlockImportError::DisconnectAndRestart(who)),
        Err(_) => Err(BlockImportError::Restart),
    }
}

/// Single block import function.
pub fn import_single_block<B: BlockT, C: Client<B>>(
    chain: &mut C,
    block_origin: BlockOrigin,
    block: BlockData<B>,
    instant_finality: bool,
) -> (outcome: ImportOutcome<B>)
    ensures
        exists|step: ImportStep<B, C::Error>|
            {
                &&& #[trigger] is_step(block_origin, block, instant_finality, step)
                &&& step.outcome == outcome
                &&& old(chain).keeps_log() ==> final(chain).imports() == old(chain).imports()
                    + step.calls
            },
        final(chain).keeps_log() == old(chain).keeps_log(),
{
    let who = block.origin;
    match prepare_import(block_origin, block, instant_finality) {
        Ok(request) => {
            let number = request.header.number;
            let hash = request.header.hash;
            let ghost handed = request;
            let reply = chain.import(request, None);
            let ghost call = ImportCall { block: handed, new_authorities: None, reply };
            let outcome = import_outcome(reply, hash, number, who);
            proof {
                let step = ImportStep { calls: seq![call], outcome };
                assert(is_step(block_origin, block, instant_finality, step));
                assert(old(chain).imports().push(call) =~= old(chain).imports() + step.calls);
            }
            outcome
        },
        Err(error) => {
            let outcome: ImportOutcome<B> = Err(error);
            proof {
                let step = ImportStep { calls: Seq::<ImportCall<B, C::Error>>::empty(), outcome };
                assert(is_step(block_origin, block, instant_finality, step));
                assert(old(chain).imports() =~= old(chain).imports() + step.calls);
            }
            outcome
        },
    }
}

/// What synchronization is told of an outcome: one thing.
pub open spec fn outcome_event<B: BlockT>(outcome: ImportOutcome<B>) -> SyncEvent<B> {
    match outcome {
        Ok(BlockImportResult::ImportedKnown(hash, number)) => SyncEvent::BlockImported(
            hash,
            number,
        ),
        Ok(BlockImportResult::ImportedUnknown(hash, number)) => SyncEvent::BlockImported(
            hash,
            number,
        ),
        Err(BlockImportError::Disconnect(who)) => SyncEvent::UselessPeer(
            who,
            "Import result was stated Disconnect"@,
        ),
        Err(BlockImportError::DisconnectAndRestart(who)) => SyncEvent::UselessPeerAndRestart(
            who,
            "Import result was stated DisconnectAndRestart"@,
        ),
        Err(BlockImportError::Restart) => SyncEvent::Restart,
    }
}

/// Process single block import result: tells synchronization of it, and returns how
/// many blocks were imported.
pub fn process_import_result<B: BlockT, L: SyncLinkApi<B>>(
    link: &mut L,
    result: ImportOutcome<B>,
) -> (imported: usize)
    ensures
        imported == (if result is Ok {
            1int
        } else {
            0
        }),
        final(link).keeps_log() == old(link).keeps_log(),
        old(link).keeps_log() ==> {
            &&& final(link).client() == old(link).client()
            &&& final(link).events() == old(link).events().push(
                (LinkEvent {
                    after: old(link).client().imports().len(),
                    event: outcome_event(result),
                }),
            )
        },
{
    match result {
        Ok(BlockImportResult::ImportedKnown(hash, number)) => {
            link.block_imported(&hash, number);
            1
        },
        Ok(BlockImportResult::ImportedUnknown(hash, number)) => {
            link.block_imported(&hash, number);
            1
        },
        Err(BlockImportError::Disconnect(who)) => {
            link.useless_peer(who, "Import result was stated Disconnect");
            0
        },
        Err(BlockImportError::DisconnectAndRestart(who)) => {
            link.note_useless_and_restart_sync(
                who,
                "Import result was stated DisconnectAndRestart",
            );
            0
        },
        Err(BlockImportError::Restart) => {
            link.restart();
            0
        },
    }
}

/// The calls that a run makes on the client, oldest first.
pub open spec fn run_calls<B: BlockT, E>(steps: Seq<ImportStep<B, E>>) -> Seq<ImportCall<B, E>>
    decreases steps.len(),
{
    if steps.len() == 0 {
        Seq::empty()
    } else {
        run_calls(steps.drop_last()) + steps.last().calls
    }
}

/// What a run tells synchronization of its blocks, one by one, where `before` calls had
/// been made on the client before it. A block is told of right after the calls for it.
pub open spec fn run_events<B: BlockT, E>(
    before: nat,
    steps: Seq<ImportStep<B, E>>,
) -> Seq<LinkEvent<B>>
    decreases steps.len(),
{
    if steps.len() == 0 {
        Seq::empty()
    } else {
        run_events(before, steps.drop_last()).push(
            LinkEvent {
                after: before + run_calls(steps).len(),
                event: outcome_event(steps.last().outcome),
            },
        )
    }
}

/// Whether `steps` are imports of the first of `blocks`, one by one. No block is tried
/// after one that failed.
pub open spec fn is_run<B: BlockT, E>(
    origin: BlockOrigin,
    blocks: Seq<BlockData<B>>,
    instant_finality: bool,
    steps: Seq<ImportStep<B, E>>,
) -> bool {
    &&& steps.len() <= blocks.len()
    &&& forall|i: int|
        0 <= i < steps.len() ==> is_step(origin, blocks[i], instant_finality, #[trigger] steps[i])
    &&& forall|i: int| 0 <= i < steps.len() - 1 ==> (#[trigger] steps[i]).outcome is Ok
}

/// Whether the last block of a run failed.
pub open spec fn run_failed<B: BlockT, E>(steps: Seq<ImportStep<B, E>>) -> bool {
    steps.len() > 0 && steps.last().outcome is Err
}

/// What goes over the link in a run: what became of each block, and, once all of
/// them are imported and unless the run was stopped, that synchronization may go on.
pub open spec fn batch_events<B: BlockT, E>(
    before: nat,
    steps: Seq<ImportStep<B, E>>,
    go_on: bool,
) -> Seq<LinkEvent<B>> {
    if go_on && !run_failed(steps) {
        run_events(before, steps).push(
            LinkEvent { after: before + run_calls(steps).len(), event: SyncEvent::MaintainSync },
        )
    } else {
        run_events(before, steps)
    }
}

/// Whether a link and the client behind it both keep a log.
pub open spec fn is_logged<B: BlockT, L: SyncLinkApi<B>>(link: L) -> bool {
    link.keeps_log() && link.client().keeps_log()
}

/// Whether a run makes `after` out of the link `before`: the calls of its steps, and no
/// others, have been made on the client, and what the run tells, and nothing else, has gone
/// over the link.
pub open spec fn is_link_after_run<B: BlockT, L: SyncLinkApi<B>>(
    before: L,
    after: L,
    steps: Seq<ImportStep<B, LinkError<B, L>>>,
    go_on: bool,
) -> bool {
    is_logged(before) ==> {
        &&& is_logged(after)
        &&& after.client().imports() == before.client().imports() + run_calls(steps)
        &&& after.events() == before.events() + batch_events(
            before.client().imports().len(),
            steps,
            go_on,
        )
    }
}

/// Whether a run over `count` blocks may end after `steps` with `go_on`: all blocks are
/// imported, or one failed, or the run was stopped after a block that was imported.
pub open spec fn may_end<B: BlockT, E>(
    count: nat,
    steps: Seq<ImportStep<B, E>>,
    go_on: bool,
) -> bool {
    &&& go_on ==> run_failed(steps) || steps.len() == count
    &&& !go_on ==> steps.len() > 0 && !run_failed(steps)
}

/// Whether `seen` is what becomes of a queue by the looks of a run whether it is being
/// stopped: one look after each block that was imported. None but the last gives that it is,
/// and the last does if and only if the run was stopped.
pub open spec fn are_looks<B: BlockT, E, Q: QueueHandle<B>>(
    seen: Seq<Q>,
    steps: Seq<ImportStep<B, E>>,
    go_on: bool,
) -> bool {
    &&& seen.len() == 1 + steps.len() - (if run_failed(steps) {
        1int
    } else {
        0
    })
    &&& forall|i: int|
        0 < i < seen.len() ==> (#[trigger] seen[i]).is_look_of(
            &seen[i - 1],
            !go_on && i == seen.len() - 1,
        )
}

/// Whether the end of a run makes `after` out of the queue `before`: the best number is set
/// to zero if a block failed.
pub open spec fn is_after_run<B: BlockT, E, Q: QueueHandle<B>>(
    after: Q,
    before: Q,
    steps: Seq<ImportStep<B, E>>,
) -> bool {
    if run_failed(steps) {
        after.is_reset_of(&before)
    } else {
        after == before
    }
}

/// Import a bunch of blocks. Returns whether the import thread is to go on with the
/// next bunch.
pub fn import_many_blocks<B: BlockT, L: SyncLinkApi<B>, Q: QueueHandle<B>>(
    link: &mut L,
    qdata: Option<&mut Q>,
    blocks: Batch<B>,
    instant_finality: bool,
) -> (go_on: bool)
    requires
        qdata matches Some(qdata) ==> qdata.wf(),
    ensures
        qdata is None ==> go_on && exists|steps: Seq<ImportStep<B, LinkError<B, L>>>|
            {
                &&& #[trigger] is_run(blocks.0, blocks.1@, instant_finality, steps)
                &&& may_end(blocks.1@.len(), steps, go_on)
                &&& is_link_after_run(*old(link), *final(link), steps, go_on)
            },
        qdata matches Some(qdata) ==> exists|
            steps: Seq<ImportStep<B, LinkError<B, L>>>,
            seen: Seq<Q>,
        |
            {
                &&& #[trigger] is_run(blocks.0, blocks.1@, instant_finality, steps)
                &&& may_end(blocks.1@.len(), steps, go_on)
                &&& is_link_after_run(*old(link), *final(link), steps, go_on)
                &&& seen[0] == *qdata
                &&& #[trigger] are_looks(seen, steps, go_on)
                &&& is_after_run(*final(qdata), seen.last(), steps)
            },
        qdata matches Some(qdata) ==> final(qdata).wf(),
{
    let ghost batch = blocks.1@;
    let ghost logged = is_logged(*link);
    let ghost made = link.client().imports();
    let ghost told = link.events();
    let ghost mut steps: Seq<ImportStep<B, LinkError<B, L>>> = Seq::empty();
    assert(made + run_calls(steps) =~= made);
    assert(told + run_events(made.len(), steps) =~= told);
    let ghost mut seen: Seq<Q> = seq![*qdata->0];
    let (blocks_origin, bunch) = blocks;
    let mut handle = qdata;
    // Blocks in the response/drain should be in ascending order.
    for block in iter: bunch
        invariant
            blocks_origin == blocks.0,
            batch == blocks.1@,
            logged == is_logged(*old(link)),
            made == old(link).client().imports(),
            told == old(link).events(),
            iter.seq() == batch,
            steps.len() == iter.index(),
            is_run(blocks_origin, batch, instant_finality, steps),
            !run_failed(steps),
            logged ==> is_logged(*link),
            logged ==> link.client().imports() == made + run_calls(steps),
            logged ==> link.events() == told + run_events(made.len(), steps),
            handle is Some == qdata is Some,
            handle matches Some(handle) ==> {
                &&& handle.wf()
                &&& are_looks(seen, steps, true)
                &&& seen[0] == *qdata->0
                &&& seen.last() == *handle
                &&& *final(handle) == *final(qdata->0)
            },
    {
        let ghost before = *link;
        let import_result = import_single_block(
            link.chain(),
            blocks_origin,
            block,
            instant_finality,
        );
        let is_import_failed = import_result.is_err();
        proof {
            let step = choose|step: ImportStep<B, LinkError<B, L>>|
                {
                    &&& #[trigger] is_step(blocks_origin, block, instant_finality, step)
                    &&& step.outcome == import_result
                    &&& logged ==> link.client().imports() == before.client().imports()
                        + step.calls
                };
            let earlier = steps;
            steps = steps.push(step);
            assert(steps.drop_last() =~= earlier);
            assert(is_run(blocks_origin, batch, instant_finality, steps));
            assert(made + run_calls(earlier) + step.calls =~= made + run_calls(steps));
        }
        process_import_result(link, import_result);
        assert(logged ==> link.events() =~= told + run_events(made.len(), steps));
        if is_import_failed {
            assert(qdata is Some ==> are_looks(seen, steps, true));
            if let Some(handle) = handle {
                handle.reset_best_importing_number();
            }
            return true;
        }
        let is_stopping = match &mut handle {
            Some(handle) => handle.is_stopping(),
            None => false,
        };
        proof {
            seen = seen.push(*handle->0);
        }
        if is_stopping {
            assert(are_looks(seen, steps, false));
            return false;
        }
    }
    link.maintain_sync();
    assert(qdata is Some ==> are_looks(seen, steps, true));
    assert(logged ==> link.events() =~= told + batch_events(made.len(), steps, true));
    true
}

/// Blocks import thread: what it does with a batch that it has taken from the queue.
/// `link` is what leads to synchronization, as long as the node keeps that up. Returns
/// whether the thread is to go on with the next batch.
pub fn import_thread_round<B: BlockT, L: SyncLinkApi<B>, Q: QueueHandle<B>>(
    link: Option<&mut L>,
    qdata: &mut Q,
    new_blocks: Batch<B>,
    instant_finality: bool,
) -> (go_on: bool)
    requires
        old(qdata).wf(),
    ensures
        link is None ==> !go_on && *final(qdata) == *old(qdata),
        link matches Some(link) ==> exists|
            steps: Seq<ImportStep<B, LinkError<B, L>>>,
            seen: Seq<Q>,
            imported: Q,
        |
            {
                &&& #[trigger] is_run(new_blocks.0, new_blocks.1@, instant_finality, steps)
                &&& may_end(new_blocks.1@.len(), steps, go_on)
                &&& is_link_after_run(*link, *final(link), steps, go_on)
                &&& #[trigger] are_looks(seen, steps, go_on)
                &&& seen[0] == *old(qdata)
                &&& #[trigger] is_after_run(imported, seen.last(), steps)
                &&& if go_on {
                    final(qdata).is_finish_of(&imported, announced_hashes(new_blocks.1@))
                } else {
                    *final(qdata) == imported
                }
            },
        final(qdata).wf(),
{
    match link {
        Some(link) => {
            let blocks_hashes = block_hashes(&new_blocks.1);
            if !import_many_blocks(link, Some(&mut *qdata), new_blocks, instant_finality) {
                return false;
            }
            qdata.finish_blocks(&blocks_hashes);
            true
        },
        None => false,
    }
}

} // verus!
