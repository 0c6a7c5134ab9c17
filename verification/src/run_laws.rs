//! What holds of every call that imports blocks, over a link that keeps what goes over it to
//! a client that keeps a log. Each law speaks of a call by its arguments and its result.

use vstd::prelude::*;

use crate::blocks::{announced_hashes, BlockData};
use crate::client::{BlockOrigin, Client, ImportBlock, ImportCall, ImportResult, LoggedClient};
use crate::data::{AsyncImportQueueData, Batch, QueueHandle};
use crate::data_laws::lemma_waiting_blocks;
use crate::import::{
    are_looks, batch_events, import_many_blocks, import_outcome, import_single_block,
    import_thread_round, is_after_run, is_link_after_run, is_run, is_step, may_end,
    prepare_import, process_import_result, run_calls, run_events, run_failed, BlockImportError,
    BlockImportResult, ImportOutcome, ImportStep,
};
use crate::import_laws::{
    law_block_is_told_of_before_the_next, law_client_is_handed_the_first_blocks,
    lemma_looks_change_nothing, lemma_run_without_last,
};
use crate::link::{LinkEvent, NodeIndex, SyncEvent, SyncLink, SyncLinkApi};
use crate::message::{BlockNumber, BlockT};
use crate::queue::{ImportQueue, ImportQueueStatus};
use crate::sync_queue::{import_at_once, ImportCB, ImportCallback, SyncCallback, SyncImportQueue};

verus! {

/// The calls of a run are those of its steps, one for one.
proof fn lemma_calls_of_steps<B: BlockT, E>(
    origin: BlockOrigin,
    blocks: Seq<BlockData<B>>,
    instant_finality: bool,
    steps: Seq<ImportStep<B, E>>,
)
    requires
        is_run(origin, blocks, instant_finality, steps),
    ensures
        forall|i: int|
            0 <= i < run_calls(steps).len() ==> {
                &&& i < steps.len()
                &&& steps[i].calls.len() == 1
                &&& #[trigger] run_calls(steps)[i] == steps[i].calls[0]
                &&& blocks[i].importable()
            },
    decreases steps.len(),
{
    law_client_is_handed_the_first_blocks(origin, blocks, instant_finality, steps);
    if steps.len() > 0 {
        let earlier = steps.drop_last();
        let last = steps.len() - 1;
        lemma_run_without_last(origin, blocks, instant_finality, steps);
        lemma_calls_of_steps(origin, blocks, instant_finality, earlier);
        law_client_is_handed_the_first_blocks(origin, blocks, instant_finality, earlier);
        assert(is_step(origin, blocks[last], instant_finality, steps[last]));
        if last > 0 {
            assert(is_step(origin, blocks[last - 1], instant_finality, steps[last - 1]));
            assert(steps[last - 1].outcome is Ok);
        }
        let some = run_calls(earlier);
        let all = run_calls(steps);
        assert forall|i: int| 0 <= i < all.len() implies {
            &&& i < steps.len()
            &&& steps[i].calls.len() == 1
            &&& #[trigger] all[i] == steps[i].calls[0]
            &&& blocks[i].importable()
        } by {
            if i < some.len() {
                assert(all[i] == some[i]);
                assert(earlier[i] == steps[i]);
            }
        }
    }
}

/// What a run over a link comes to, call by call and event by event.
proof fn lemma_run_in_detail<B: BlockT, C: Client<B>>(
    start: SyncLink<B, LoggedClient<B, C>>,
    end: SyncLink<B, LoggedClient<B, C>>,
    origin: BlockOrigin,
    batch: Seq<BlockData<B>>,
    instant_finality: bool,
    steps: Seq<ImportStep<B, C::Error>>,
    go_on: bool,
)
    requires
        is_run(origin, batch, instant_finality, steps),
        may_end(batch.len(), steps, go_on),
        is_link_after_run(start, end, steps, go_on),
    ensures
        ({
            let log = end.client.log@;
            let count = log.len() - start.client.log@.len();
            let refused = count > 0 && !(log.last().reply matches Ok(reply) && (reply is Queued
                || reply is AlreadyQueued || reply is AlreadyInChain));
            &&& run_failed(steps) <==> go_on && (refused || count < batch.len())
            &&& steps.len() == count + (if run_failed(steps) && !refused {
                1int
            } else {
                0
            })
        }),
        ({
            let before = start.client.log@;
            let log = end.client.log@;
            let blocks = batch;
            &&& before.is_prefix_of(log)
            &&& log.len() - before.len() <= blocks.len()
            &&& forall|i: int|
                before.len() <= i < log.len() ==> {
                    let block = blocks[i - before.len()].block;
                    let call = #[trigger] log[i];
                    &&& block.header == Some(call.block.header)
                    &&& block.justification == Some(call.block.external_justification)
                    &&& call.block.body == block.body
                    &&& call.block.origin == origin
                    &&& call.block.finalized == instant_finality
                    &&& call.block.internal_justification@.len() == 0
                    &&& call.block.auxiliary@.len() == 0
                    &&& call.new_authorities is None
                }
        }),
        ({
            let before = start.client.log@;
            let log = end.client.log@;
            let blocks = batch;
            let failed = log.len() > before.len() && !(log.last().reply matches Ok(reply) && (
            reply is Queued || reply is AlreadyQueued || reply is AlreadyInChain));
            let count = log.len() - before.len();
            &&& forall|i: int|
                before.len() <= i < log.len() - 1 ==> ((#[trigger] log[i]).reply matches Ok(reply) && (
                reply is Queued || reply is AlreadyQueued || reply is AlreadyInChain))
            &&& go_on && !failed && count < blocks.len() ==> blocks[count].block.header is None
                || blocks[count].block.justification is None
            &&& !go_on ==> count > 0 && !failed
        }),
        ({
            let before = start.client.log@;
            let log = end.client.log@;
            let blocks = batch;
            let failed = log.len() > before.len() && !(log.last().reply matches Ok(reply) && (
            reply is Queued || reply is AlreadyQueued || reply is AlreadyInChain));
            let old_tasks = start.tasks@;
            let tasks = end.tasks@;
            let count = log.len() - before.len();
            &&& tasks.len() == old_tasks.len() + count + (if failed || !go_on {
                0int
            } else {
                1
            })
            &&& forall|j: int|
                0 <= j < old_tasks.len() ==> (#[trigger] tasks[j]).event() == old_tasks[j].event()
            &&& forall|j: int|
                old_tasks.len() <= j < old_tasks.len() + count ==> {
                    let i = j - old_tasks.len();
                    let header = blocks[i].block.header->0;
                    &&& (#[trigger] tasks[j]).event().after == before.len() + i + 1
                    &&& tasks[j].event().event == match log[before.len() + i].reply {
                        Ok(
                            ImportResult::Queued
                            | ImportResult::AlreadyQueued
                            | ImportResult::AlreadyInChain,
                        ) => SyncEvent::<B>::BlockImported(header.hash, header.number),
                        Ok(ImportResult::KnownBad) => SyncEvent::UselessPeerAndRestart(
                            blocks[i].origin,
                            "Import result was stated DisconnectAndRestart"@,
                        ),
                        Ok(ImportResult::UnknownParent) => SyncEvent::Restart,
                        Err(_) => SyncEvent::Restart,
                    }
                }
            &&& go_on && !failed && count == blocks.len() ==> tasks.last().event() == (LinkEvent::<B> {
                after: log.len(),
                event: SyncEvent::MaintainSync,
            })
            &&& go_on && !failed && count < blocks.len() ==> tasks.last().event() == (LinkEvent::<B> {
                after: log.len(),
                event: SyncEvent::UselessPeer(
                    blocks[count].origin,
                    "Import result was stated Disconnect"@,
                ),
            })
        }),
{
    let before = start.client.log@;
    let log = end.client.log@;
    let calls = run_calls(steps);
    let count = calls.len() as int;
    let told = run_events(before.len(), steps);
    let all = batch_events(before.len(), steps, go_on);
    let old_tasks = start.tasks@;
    let tasks = end.tasks@;
    law_client_is_handed_the_first_blocks(origin, batch, instant_finality, steps);
    law_block_is_told_of_before_the_next(origin, batch, instant_finality, before.len(), steps);
    lemma_calls_of_steps(origin, batch, instant_finality, steps);
    assert(log == before + calls);
    assert(start.events().len() == old_tasks.len());
    assert(end.events().len() == tasks.len());
    assert(end.events() == start.events() + all);
    assert forall|i: int| before.len() <= i < log.len() implies #[trigger] log[i] == calls[i
        - before.len()] by {
    }
    assert forall|i: int| 0 <= i < steps.len() implies is_step(
        origin,
        batch[i],
        instant_finality,
        #[trigger] steps[i],
    ) by {
    }
    assert forall|j: int| 0 <= j < tasks.len() implies (#[trigger] tasks[j]).event()
        == end.events()[j] by {
    }
    assert forall|j: int| 0 <= j < old_tasks.len() implies (#[trigger] tasks[j]).event()
        == old_tasks[j].event() by {
        assert(start.events()[j] == old_tasks[j].event());
    }
    if steps.len() > 0 {
        let last = steps.len() - 1;
        assert(is_step(origin, batch[last], instant_finality, steps[last]));
        assert(run_failed(steps) <==> steps[last].outcome is Err);
    }
    assert forall|i: int| before.len() <= i < log.len() - 1 implies ((
    #[trigger] log[i]).reply matches Ok(reply) && (reply is Queued || reply is AlreadyQueued
        || reply is AlreadyInChain)) by {
        let step = steps[i - before.len()];
        assert(log[i] == calls[i - before.len()]);
        assert(step.outcome is Ok);
    }
    assert forall|j: int| old_tasks.len() <= j < old_tasks.len() + count implies {
        let i = j - old_tasks.len();
        &&& (#[trigger] tasks[j]).event() == told[i]
        &&& log[before.len() + i] == steps[i].calls[0]
        &&& is_step(origin, batch[i], instant_finality, steps[i])
    } by {
        let i = j - old_tasks.len();
        assert(log[before.len() + i] == calls[i]);
        assert(all[i] == told[i]);
        assert(steps[i] == steps[i]);
    }
    if count < steps.len() {
        let j = old_tasks.len() + count;
        assert(tasks[j].event() == told[count]);
    }
}

/// A block is put into the form that the client takes if and only if it has a header and a
/// justification, and then with all its parts as they came, whatever finality is asked for.
/// Else its sender is to be disconnected.
pub proof fn law_block_is_prepared_as_it_came<B: BlockT>(
    origin: BlockOrigin,
    block: BlockData<B>,
    instant_finality: bool,
    request: Result<ImportBlock<B>, BlockImportError>,
)
    requires
        call_ensures(prepare_import::<B>, (origin, block, instant_finality), request),
    ensures
        request is Ok <==> block.block.header is Some && block.block.justification is Some,
        match request {
            Ok(request) => {
                &&& Some(request.header) == block.block.header
                &&& Some(request.external_justification) == block.block.justification
                &&& request.body == block.block.body
                &&& request.origin == origin
                &&& request.finalized == instant_finality
                &&& request.internal_justification@.len() == 0
                &&& request.auxiliary@.len() == 0
            },
            Err(error) => error == BlockImportError::Disconnect(block.origin),
        },
{
}

/// Each reply of the client has its meaning for the block that it was asked about and for
/// the peer that sent that.
pub proof fn law_reply_decides<H, N, E>(
    reply: Result<ImportResult, E>,
    hash: H,
    number: N,
    who: NodeIndex,
    outcome: Result<BlockImportResult<H, N>, BlockImportError>,
)
    requires
        call_ensures(import_outcome::<H, N, E>, (reply, hash, number, who), outcome),
    ensures
        match reply {
            Ok(ImportResult::Queued) => outcome == Ok::<_, BlockImportError>(
                BlockImportResult::ImportedUnknown(hash, number),
            ),
            Ok(ImportResult::AlreadyQueued) => outcome == Ok::<_, BlockImportError>(
                BlockImportResult::ImportedKnown(hash, number),
            ),
            Ok(ImportResult::AlreadyInChain) => outcome == Ok::<_, BlockImportError>(
                BlockImportResult::ImportedKnown(hash, number),
            ),
            Ok(ImportResult::KnownBad) => outcome == Err::<BlockImportResult<H, N>, _>(
                BlockImportError::DisconnectAndRestart(who),
            ),
            Ok(ImportResult::UnknownParent) => outcome == Err::<BlockImportResult<H, N>, _>(
                BlockImportError::Restart,
            ),
            Err(_) => outcome == Err::<BlockImportResult<H, N>, _>(BlockImportError::Restart),
        },
{
}

/// A block with header and justification is handed to the client once, with all its parts as
/// they came, and the reply decides what becomes of it, under the hash and number of its
/// header. Any other block is not handed over, and its sender is to be disconnected.
pub proof fn law_single_block_is_handed_over_whole<B: BlockT, C: Client<B>>(
    chain: &mut LoggedClient<B, C>,
    origin: BlockOrigin,
    block: BlockData<B>,
    instant_finality: bool,
    outcome: ImportOutcome<B>,
)
    requires
        call_ensures(
            import_single_block::<B, LoggedClient<B, C>>,
            (chain, origin, block, instant_finality),
            outcome,
        ),
    ensures
        old(chain).log@.is_prefix_of(final(chain).log@),
        block.block.header is None || block.block.justification is None ==> {
            &&& final(chain).log@.len() == old(chain).log@.len()
            &&& outcome == Err::<BlockImportResult<B::Hash, B::Number>, _>(
                BlockImportError::Disconnect(block.origin),
            )
        },
        block.block.header is Some && block.block.justification is Some ==> {
            let call = final(chain).log@.last();
            let header = block.block.header->0;
            &&& final(chain).log@.len() == old(chain).log@.len() + 1
            &&& call.block.header == header
            &&& call.block.external_justification == block.block.justification->0
            &&& call.block.body == block.block.body
            &&& call.block.origin == origin
            &&& call.block.finalized == instant_finality
            &&& call.block.internal_justification@.len() == 0
            &&& call.block.auxiliary@.len() == 0
            &&& call.new_authorities is None
            &&& match call.reply {
                Ok(ImportResult::Queued) => outcome == Ok::<_, BlockImportError>(
                    BlockImportResult::ImportedUnknown(header.hash, header.number),
                ),
                Ok(ImportResult::AlreadyQueued) => outcome == Ok::<_, BlockImportError>(
                    BlockImportResult::ImportedKnown(header.hash, header.number),
                ),
                Ok(ImportResult::AlreadyInChain) => outcome == Ok::<_, BlockImportError>(
                    BlockImportResult::ImportedKnown(header.hash, header.number),
                ),
                Ok(ImportResult::KnownBad) => outcome == Err::<
                    BlockImportResult<B::Hash, B::Number>,
                    _,
                >(BlockImportError::DisconnectAndRestart(block.origin)),
                Ok(ImportResult::UnknownParent) => outcome == Err::<
                    BlockImportResult<B::Hash, B::Number>,
                    _,
                >(BlockImportError::Restart),
                Err(_) => outcome == Err::<BlockImportResult<B::Hash, B::Number>, _>(
                    BlockImportError::Restart,
                ),
            }
        },
{
    let step = choose|step: ImportStep<B, C::Error>|
        {
            &&& #[trigger] is_step(origin, block, instant_finality, step)
            &&& step.outcome == outcome
            &&& final(chain).imports() == old(chain).imports() + step.calls
        };
    assert(final(chain).log@ == old(chain).log@ + step.calls);
}

/// Whether a block is final as soon as it is imported is all that the asked finality decides:
/// the same block is handed over with the same parts.
pub proof fn law_finality_changes_no_part<B: BlockT>(
    origin: BlockOrigin,
    block: BlockData<B>,
    with: Result<ImportBlock<B>, BlockImportError>,
    without: Result<ImportBlock<B>, BlockImportError>,
)
    requires
        call_ensures(prepare_import::<B>, (origin, block, true), with),
        call_ensures(prepare_import::<B>, (origin, block, false), without),
    ensures
        with is Ok <==> without is Ok,
        with is Err ==> with == without,
        with is Ok ==> {
            &&& with->Ok_0.header == without->Ok_0.header
            &&& with->Ok_0.external_justification == without->Ok_0.external_justification
            &&& with->Ok_0.body == without->Ok_0.body
            &&& with->Ok_0.origin == without->Ok_0.origin
            &&& with->Ok_0.finalized
            &&& !without->Ok_0.finalized
        },
{
}

/// One thing is told of an outcome, after what was told before: an imported block under its
/// hash and number, a peer to be disconnected with the reason, and a restart. Only an
/// imported block counts.
pub proof fn law_outcome_is_told_as_it_is<B: BlockT, C: Client<B>>(
    link: &mut SyncLink<B, LoggedClient<B, C>>,
    result: ImportOutcome<B>,
    imported: usize,
)
    requires
        call_ensures(
            process_import_result::<B, SyncLink<B, LoggedClient<B, C>>>,
            (link, result),
            imported,
        ),
    ensures
        imported == (if result is Ok {
            1int
        } else {
            0
        }),
        final(link).client == old(link).client,
        final(link).tasks@.len() == old(link).tasks@.len() + 1,
        forall|j: int|
            0 <= j < old(link).tasks@.len() ==> (#[trigger] final(link).tasks@[j]).event() == old(
                link,
            ).tasks@[j].event(),
        final(link).tasks@.last().event() == (LinkEvent::<B> {
            after: old(link).client.log@.len(),
            event: match result {
                Ok(BlockImportResult::ImportedKnown(hash, number)) => SyncEvent::BlockImported(
                    hash,
                    number,
                ),
                Ok(BlockImportResult::ImportedUnknown(hash, number)) => SyncEvent::BlockImported(
                    hash,
                    number,
                ),
                Err(BlockImportError::Disconnect(who)) => SyncEvent::UselessPeer(
                    who,
                    "Import result was stated Disconnect"@,
                ),
                Err(BlockImportError::DisconnectAndRestart(who)) => {
                    SyncEvent::UselessPeerAndRestart(
                        who,
                        "Import result was stated DisconnectAndRestart"@,
                    )
                },
                Err(BlockImportError::Restart) => SyncEvent::Restart,
            },
        }),
{
    let before = *old(link);
    let after = *final(link);
    assert(after.events().len() == after.tasks@.len());
    assert(before.events().len() == before.tasks@.len());
    assert forall|j: int| 0 <= j < before.tasks@.len() implies (
    #[trigger] after.tasks@[j]).event() == before.tasks@[j].event() by {
        assert(after.events()[j] == after.tasks@[j].event());
        assert(before.events()[j] == before.tasks@[j].event());
    }
    let last = before.tasks@.len() as int;
    assert(after.events()[last] == after.tasks@[last].event());
}

/// The client is handed the blocks of the batch from the first on, in order and each once,
/// with all their parts as they came, with the origin of the batch and with the finality
/// that is asked for. What it was handed before stays as it was.
pub proof fn law_batch_is_handed_over_in_order<B: BlockT, C: Client<B>, Q: QueueHandle<B>>(
    link: &mut SyncLink<B, LoggedClient<B, C>>,
    qdata: Option<&mut Q>,
    batch: Batch<B>,
    instant_finality: bool,
    go_on: bool,
)
    requires
        call_ensures(
            import_many_blocks::<B, SyncLink<B, LoggedClient<B, C>>, Q>,
            (link, qdata, batch, instant_finality),
            go_on,
        ),
    ensures
        ({
            let before = old(link).client.log@;
            let log = final(link).client.log@;
            let blocks = batch.1@;
            &&& before.is_prefix_of(log)
            &&& log.len() - before.len() <= blocks.len()
            &&& forall|i: int|
                before.len() <= i < log.len() ==> {
                    let block = blocks[i - before.len()].block;
                    let call = #[trigger] log[i];
                    &&& block.header == Some(call.block.header)
                    &&& block.justification == Some(call.block.external_justification)
                    &&& call.block.body == block.body
                    &&& call.block.origin == batch.0
                    &&& call.block.finalized == instant_finality
                    &&& call.block.internal_justification@.len() == 0
                    &&& call.block.auxiliary@.len() == 0
                    &&& call.new_authorities is None
                }
        }),
{
    let steps = if qdata is Some {
        let (steps, seen) = choose|steps: Seq<ImportStep<B, C::Error>>, seen: Seq<Q>|
            {
                &&& #[trigger] is_run(batch.0, batch.1@, instant_finality, steps)
                &&& may_end(batch.1@.len(), steps, go_on)
                &&& is_link_after_run(*old(link), *final(link), steps, go_on)
                &&& seen[0] == *qdata->0
                &&& #[trigger] are_looks(seen, steps, go_on)
                &&& is_after_run(*final(qdata->0), seen.last(), steps)
            };
        steps
    } else {
        choose|steps: Seq<ImportStep<B, C::Error>>|
            {
                &&& #[trigger] is_run(batch.0, batch.1@, instant_finality, steps)
                &&& may_end(batch.1@.len(), steps, go_on)
                &&& is_link_after_run(*old(link), *final(link), steps, go_on)
            }
    };
    lemma_run_in_detail(
        *old(link),
        *final(link),
        batch.0,
        batch.1@,
        instant_finality,
        steps,
        go_on,
    );
}

/// The import of a batch ends at the first block that the client does not take or that is
/// not complete, at the end of the batch, or where it was stopped after a block that was
/// imported, and nowhere else.
pub proof fn law_import_ends_where_it_must<B: BlockT, C: Client<B>, Q: QueueHandle<B>>(
    link: &mut SyncLink<B, LoggedClient<B, C>>,
    qdata: Option<&mut Q>,
    batch: Batch<B>,
    instant_finality: bool,
    go_on: bool,
)
    requires
        call_ensures(
            import_many_blocks::<B, SyncLink<B, LoggedClient<B, C>>, Q>,
            (link, qdata, batch, instant_finality),
            go_on,
        ),
    ensures
        ({
            let before = old(link).client.log@;
            let log = final(link).client.log@;
            let blocks = batch.1@;
            let failed = log.len() > before.len() && !(log.last().reply matches Ok(reply) && (
            reply is Queued || reply is AlreadyQueued || reply is AlreadyInChain));
            let count = log.len() - before.len();
            &&& forall|i: int|
                before.len() <= i < log.len() - 1 ==> ((#[trigger] log[i]).reply matches Ok(reply) && (
                reply is Queued || reply is AlreadyQueued || reply is AlreadyInChain))
            &&& go_on && !failed && count < blocks.len() ==> blocks[count].block.header is None
                || blocks[count].block.justification is None
            &&& !go_on ==> count > 0 && !failed
        }),
        qdata is None ==> go_on,
{
    let steps = if qdata is Some {
        let (steps, seen) = choose|steps: Seq<ImportStep<B, C::Error>>, seen: Seq<Q>|
            {
                &&& #[trigger] is_run(batch.0, batch.1@, instant_finality, steps)
                &&& may_end(batch.1@.len(), steps, go_on)
                &&& is_link_after_run(*old(link), *final(link), steps, go_on)
                &&& seen[0] == *qdata->0
                &&& #[trigger] are_looks(seen, steps, go_on)
                &&& is_after_run(*final(qdata->0), seen.last(), steps)
            };
        steps
    } else {
        choose|steps: Seq<ImportStep<B, C::Error>>|
            {
                &&& #[trigger] is_run(batch.0, batch.1@, instant_finality, steps)
                &&& may_end(batch.1@.len(), steps, go_on)
                &&& is_link_after_run(*old(link), *final(link), steps, go_on)
            }
    };
    lemma_run_in_detail(
        *old(link),
        *final(link),
        batch.0,
        batch.1@,
        instant_finality,
        steps,
        go_on,
    );
}

/// Synchronization is told of each block that the client was handed, under the block's own
/// hash and number or with its own sender, after the call for it and before the next. Then
/// it is told that it may go on, if all blocks are imported, or that the sender of the block
/// that is not complete is of no use. Nothing else is told, and nothing of a stop.
pub proof fn law_every_block_is_told_as_its_own<B: BlockT, C: Client<B>, Q: QueueHandle<B>>(
    link: &mut SyncLink<B, LoggedClient<B, C>>,
    qdata: Option<&mut Q>,
    batch: Batch<B>,
    instant_finality: bool,
    go_on: bool,
)
    requires
        call_ensures(
            import_many_blocks::<B, SyncLink<B, LoggedClient<B, C>>, Q>,
            (link, qdata, batch, instant_finality),
            go_on,
        ),
    ensures
        ({
            let before = old(link).client.log@;
            let log = final(link).client.log@;
            let blocks = batch.1@;
            let failed = log.len() > before.len() && !(log.last().reply matches Ok(reply) && (
            reply is Queued || reply is AlreadyQueued || reply is AlreadyInChain));
            let old_tasks = old(link).tasks@;
            let tasks = final(link).tasks@;
            let count = log.len() - before.len();
            &&& tasks.len() == old_tasks.len() + count + (if failed || !go_on {
                0int
            } else {
                1
            })
            &&& forall|j: int|
                0 <= j < old_tasks.len() ==> (#[trigger] tasks[j]).event() == old_tasks[j].event()
            &&& forall|j: int|
                old_tasks.len() <= j < old_tasks.len() + count ==> {
                    let i = j - old_tasks.len();
                    let header = blocks[i].block.header->0;
                    &&& (#[trigger] tasks[j]).event().after == before.len() + i + 1
                    &&& tasks[j].event().event == match log[before.len() + i].reply {
                        Ok(
                            ImportResult::Queued
                            | ImportResult::AlreadyQueued
                            | ImportResult::AlreadyInChain,
                        ) => SyncEvent::<B>::BlockImported(header.hash, header.number),
                        Ok(ImportResult::KnownBad) => SyncEvent::UselessPeerAndRestart(
                            blocks[i].origin,
                            "Import result was stated DisconnectAndRestart"@,
                        ),
                        Ok(ImportResult::UnknownParent) => SyncEvent::Restart,
                        Err(_) => SyncEvent::Restart,
                    }
                }
            &&& go_on && !failed && count == blocks.len() ==> tasks.last().event() == (LinkEvent::<B> {
                after: log.len(),
                event: SyncEvent::MaintainSync,
            })
            &&& go_on && !failed && count < blocks.len() ==> tasks.last().event() == (LinkEvent::<B> {
                after: log.len(),
                event: SyncEvent::UselessPeer(
                    blocks[count].origin,
                    "Import result was stated Disconnect"@,
                ),
            })
        }),
{
    let steps = if qdata is Some {
        let (steps, seen) = choose|steps: Seq<ImportStep<B, C::Error>>, seen: Seq<Q>|
            {
                &&& #[trigger] is_run(batch.0, batch.1@, instant_finality, steps)
                &&& may_end(batch.1@.len(), steps, go_on)
                &&& is_link_after_run(*old(link), *final(link), steps, go_on)
                &&& seen[0] == *qdata->0
                &&& #[trigger] are_looks(seen, steps, go_on)
                &&& is_after_run(*final(qdata->0), seen.last(), steps)
            };
        steps
    } else {
        choose|steps: Seq<ImportStep<B, C::Error>>|
            {
                &&& #[trigger] is_run(batch.0, batch.1@, instant_finality, steps)
                &&& may_end(batch.1@.len(), steps, go_on)
                &&& is_link_after_run(*old(link), *final(link), steps, go_on)
            }
    };
    lemma_run_in_detail(
        *old(link),
        *final(link),
        batch.0,
        batch.1@,
        instant_finality,
        steps,
        go_on,
    );
}

/// What a run does to the queue that it looks at: it looks after each block that was
/// imported, goes on after each look that gives that the queue is not being stopped, and ends
/// with the first that gives that it is. After a block that failed, whatever the looks gave,
/// the best number is set to zero, and else the queue is left as the last look left it.
pub proof fn law_run_looks_after_each_block<B: BlockT, C: Client<B>, Q: QueueHandle<B>>(
    link: &mut SyncLink<B, LoggedClient<B, C>>,
    qdata: Option<&mut Q>,
    batch: Batch<B>,
    instant_finality: bool,
    go_on: bool,
)
    requires
        qdata is Some,
        call_ensures(
            import_many_blocks::<B, SyncLink<B, LoggedClient<B, C>>, Q>,
            (link, qdata, batch, instant_finality),
            go_on,
        ),
    ensures
        exists|seen: Seq<Q>|
            ({
                let before = old(link).client.log@;
                let log = final(link).client.log@;
                let count = log.len() - before.len();
                let refused = count > 0 && !(log.last().reply matches Ok(reply) && (
                reply is Queued || reply is AlreadyQueued || reply is AlreadyInChain));
                let failed = go_on && (refused || count < batch.1@.len());
                &&& seen.len() == 1 + count - (if refused {
                    1int
                } else {
                    0
                })
                &&& #[trigger] seen[0] == *qdata->0
                &&& forall|i: int|
                    0 < i < seen.len() ==> (#[trigger] seen[i]).is_look_of(
                        &seen[i - 1],
                        !go_on && i == seen.len() - 1,
                    )
                &&& failed ==> final(qdata->0).is_reset_of(&seen.last())
                &&& !failed ==> *final(qdata->0) == seen.last()
            }),
{
    let (steps, seen) = choose|steps: Seq<ImportStep<B, C::Error>>, seen: Seq<Q>|
        {
            &&& #[trigger] is_run(batch.0, batch.1@, instant_finality, steps)
            &&& may_end(batch.1@.len(), steps, go_on)
            &&& is_link_after_run(*old(link), *final(link), steps, go_on)
            &&& seen[0] == *qdata->0
            &&& #[trigger] are_looks(seen, steps, go_on)
            &&& is_after_run(*final(qdata->0), seen.last(), steps)
        };
    lemma_run_in_detail(
        *old(link),
        *final(link),
        batch.0,
        batch.1@,
        instant_finality,
        steps,
        go_on,
    );
    assert(seen[0] == *qdata->0);
}

/// The import of a batch leaves what waits, what counts as importing and the order to end as
/// they were, and sets the best number to zero if and only if a block failed. While the order
/// to end stands it tries one block, and else it is not stopped.
pub proof fn law_import_touches_only_the_best_number<B: BlockT, C: Client<B>>(
    link: &mut SyncLink<B, LoggedClient<B, C>>,
    qdata: Option<&mut AsyncImportQueueData<B>>,
    batch: Batch<B>,
    instant_finality: bool,
    go_on: bool,
)
    requires
        qdata is Some,
        call_ensures(
            import_many_blocks::<B, SyncLink<B, LoggedClient<B, C>>, AsyncImportQueueData<B>>,
            (link, qdata, batch, instant_finality),
            go_on,
        ),
    ensures
        final(qdata->0).queue@ == qdata->0.queue@,
        final(qdata->0).queue_blocks@ == qdata->0.queue_blocks@,
        final(qdata->0).is_stopping == qdata->0.is_stopping,
        ({
            let before = old(link).client.log@;
            let log = final(link).client.log@;
            let count = log.len() - before.len();
            let refused = count > 0 && !(log.last().reply matches Ok(reply) && (reply is Queued
                || reply is AlreadyQueued || reply is AlreadyInChain));
            let failed = go_on && (refused || count < batch.1@.len());
            &&& final(qdata->0).best_importing_number == (if failed {
                B::Number::zero_number()
            } else {
                qdata->0.best_importing_number
            })
            &&& !qdata->0.is_stopping ==> go_on
            &&& qdata->0.is_stopping && batch.1@.len() > 0 ==> {
                &&& count <= 1
                &&& go_on <==> failed
            }
        }),
{
    let (steps, seen) = choose|
        steps: Seq<ImportStep<B, C::Error>>,
        seen: Seq<AsyncImportQueueData<B>>,
    |
        {
            &&& #[trigger] is_run(batch.0, batch.1@, instant_finality, steps)
            &&& may_end(batch.1@.len(), steps, go_on)
            &&& is_link_after_run(*old(link), *final(link), steps, go_on)
            &&& seen[0] == *qdata->0
            &&& #[trigger] are_looks(seen, steps, go_on)
            &&& is_after_run(*final(qdata->0), seen.last(), steps)
        };
    lemma_run_in_detail(
        *old(link),
        *final(link),
        batch.0,
        batch.1@,
        instant_finality,
        steps,
        go_on,
    );
    lemma_stop_is_seen(seen, batch.1@.len(), steps, go_on);
    let before = seen[0]@;
    let after = final(qdata->0)@;
}

/// What looks at data that nobody else changes give, and leave.
proof fn lemma_stop_is_seen<B: BlockT, E>(
    seen: Seq<AsyncImportQueueData<B>>,
    count: nat,
    steps: Seq<ImportStep<B, E>>,
    go_on: bool,
)
    requires
        may_end(count, steps, go_on),
        are_looks(seen, steps, go_on),
    ensures
        seen.last() == seen[0],
        !seen[0].is_stopping ==> go_on,
        seen[0].is_stopping && count > 0 ==> steps.len() == 1 && go_on == run_failed(steps),
{
    lemma_looks_change_nothing(seen, steps, go_on, seen.len() - 1);
    if seen.len() > 1 {
        let last = seen.len() - 1;
        lemma_looks_change_nothing(seen, steps, go_on, last - 1);
        assert(seen[last].is_look_of(&seen[last - 1], !go_on));
        assert(seen[1].is_look_of(&seen[0], !go_on && 1 == seen.len() - 1));
    }
}

/// A round of the import thread hands the client the blocks of its batch, as
/// [`law_batch_is_handed_over_in_order`] says of the import of a batch.
pub proof fn law_round_hands_its_batch_over_in_order<B: BlockT, C: Client<B>, Q: QueueHandle<B>>(
    link: Option<&mut SyncLink<B, LoggedClient<B, C>>>,
    qdata: &mut Q,
    batch: Batch<B>,
    instant_finality: bool,
    go_on: bool,
)
    requires
        link is Some,
        call_ensures(
            import_thread_round::<B, SyncLink<B, LoggedClient<B, C>>, Q>,
            (link, qdata, batch, instant_finality),
            go_on,
        ),
    ensures
        ({
            let before = link->0.client.log@;
            let log = final(link->0).client.log@;
            let blocks = batch.1@;
            &&& before.is_prefix_of(log)
            &&& log.len() - before.len() <= blocks.len()
            &&& forall|i: int|
                before.len() <= i < log.len() ==> {
                    let block = blocks[i - before.len()].block;
                    let call = #[trigger] log[i];
                    &&& block.header == Some(call.block.header)
                    &&& block.justification == Some(call.block.external_justification)
                    &&& call.block.body == block.body
                    &&& call.block.origin == batch.0
                    &&& call.block.finalized == instant_finality
                    &&& call.block.internal_justification@.len() == 0
                    &&& call.block.auxiliary@.len() == 0
                    &&& call.new_authorities is None
                }
        }),
{
    let (steps, seen, imported) = choose|
        steps: Seq<ImportStep<B, C::Error>>,
        seen: Seq<Q>,
        imported: Q,
    |
        {
            &&& #[trigger] is_run(batch.0, batch.1@, instant_finality, steps)
            &&& may_end(batch.1@.len(), steps, go_on)
            &&& is_link_after_run(*link->0, *final(link->0), steps, go_on)
            &&& #[trigger] are_looks(seen, steps, go_on)
            &&& seen[0] == *old(qdata)
            &&& #[trigger] is_after_run(imported, seen.last(), steps)
            &&& if go_on {
                final(qdata).is_finish_of(&imported, announced_hashes(batch.1@))
            } else {
                *final(qdata) == imported
            }
        };
    lemma_run_in_detail(
        *link->0,
        *final(link->0),
        batch.0,
        batch.1@,
        instant_finality,
        steps,
        go_on,
    );
}

/// A round of the import thread ends as [`law_import_ends_where_it_must`] says of the import of
/// a batch.
pub proof fn law_round_ends_where_it_must<B: BlockT, C: Client<B>, Q: QueueHandle<B>>(
    link: Option<&mut SyncLink<B, LoggedClient<B, C>>>,
    qdata: &mut Q,
    batch: Batch<B>,
    instant_finality: bool,
    go_on: bool,
)
    requires
        link is Some,
        call_ensures(
            import_thread_round::<B, SyncLink<B, LoggedClient<B, C>>, Q>,
            (link, qdata, batch, instant_finality),
            go_on,
        ),
    ensures
        ({
            let before = link->0.client.log@;
            let log = final(link->0).client.log@;
            let blocks = batch.1@;
            let failed = log.len() > before.len() && !(log.last().reply matches Ok(reply) && (
            reply is Queued || reply is AlreadyQueued || reply is AlreadyInChain));
            let count = log.len() - before.len();
            &&& forall|i: int|
                before.len() <= i < log.len() - 1 ==> ((#[trigger] log[i]).reply matches Ok(reply) && (
                reply is Queued || reply is AlreadyQueued || reply is AlreadyInChain))
            &&& go_on && !failed && count < blocks.len() ==> blocks[count].block.header is None
                || blocks[count].block.justification is None
            &&& !go_on ==> count > 0 && !failed
        }),
{
    let (steps, seen, imported) = choose|
        steps: Seq<ImportStep<B, C::Error>>,
        seen: Seq<Q>,
        imported: Q,
    |
        {
            &&& #[trigger] is_run(batch.0, batch.1@, instant_finality, steps)
            &&& may_end(batch.1@.len(), steps, go_on)
            &&& is_link_after_run(*link->0, *final(link->0), steps, go_on)
            &&& #[trigger] are_looks(seen, steps, go_on)
            &&& seen[0] == *old(qdata)
            &&& #[trigger] is_after_run(imported, seen.last(), steps)
            &&& if go_on {
                final(qdata).is_finish_of(&imported, announced_hashes(batch.1@))
            } else {
                *final(qdata) == imported
            }
        };
    lemma_run_in_detail(
        *link->0,
        *final(link->0),
        batch.0,
        batch.1@,
        instant_finality,
        steps,
        go_on,
    );
}

/// A round of the import thread tells synchronization what
/// [`law_every_block_is_told_as_its_own`] says of the import of a batch.
pub proof fn law_round_tells_every_block_as_its_own<B: BlockT, C: Client<B>, Q: QueueHandle<B>>(
    link: Option<&mut SyncLink<B, LoggedClient<B, C>>>,
    qdata: &mut Q,
    batch: Batch<B>,
    instant_finality: bool,
    go_on: bool,
)
    requires
        link is Some,
        call_ensures(
            import_thread_round::<B, SyncLink<B, LoggedClient<B, C>>, Q>,
            (link, qdata, batch, instant_finality),
            go_on,
        ),
    ensures
        ({
            let before = link->0.client.log@;
            let log = final(link->0).client.log@;
            let blocks = batch.1@;
            let failed = log.len() > before.len() && !(log.last().reply matches Ok(reply) && (
            reply is Queued || reply is AlreadyQueued || reply is AlreadyInChain));
            let old_tasks = link->0.tasks@;
            let tasks = final(link->0).tasks@;
            let count = log.len() - before.len();
            &&& tasks.len() == old_tasks.len() + count + (if failed || !go_on {
                0int
            } else {
                1
            })
            &&& forall|j: int|
                0 <= j < old_tasks.len() ==> (#[trigger] tasks[j]).event() == old_tasks[j].event()
            &&& forall|j: int|
                old_tasks.len() <= j < old_tasks.len() + count ==> {
                    let i = j - old_tasks.len();
                    let header = blocks[i].block.header->0;
                    &&& (#[trigger] tasks[j]).event().after == before.len() + i + 1
                    &&& tasks[j].event().event == match log[before.len() + i].reply {
                        Ok(
                            ImportResult::Queued
                            | ImportResult::AlreadyQueued
                            | ImportResult::AlreadyInChain,
                        ) => SyncEvent::<B>::BlockImported(header.hash, header.number),
                        Ok(ImportResult::KnownBad) => SyncEvent::UselessPeerAndRestart(
                            blocks[i].origin,
                            "Import result was stated DisconnectAndRestart"@,
                        ),
                        Ok(ImportResult::UnknownParent) => SyncEvent::Restart,
                        Err(_) => SyncEvent::Restart,
                    }
                }
            &&& go_on && !failed && count == blocks.len() ==> tasks.last().event() == (LinkEvent::<B> {
                after: log.len(),
                event: SyncEvent::MaintainSync,
            })
            &&& go_on && !failed && count < blocks.len() ==> tasks.last().event() == (LinkEvent::<B> {
                after: log.len(),
                event: SyncEvent::UselessPeer(
                    blocks[count].origin,
                    "Import result was stated Disconnect"@,
                ),
            })
        }),
{
    let (steps, seen, imported) = choose|
        steps: Seq<ImportStep<B, C::Error>>,
        seen: Seq<Q>,
        imported: Q,
    |
        {
            &&& #[trigger] is_run(batch.0, batch.1@, instant_finality, steps)
            &&& may_end(batch.1@.len(), steps, go_on)
            &&& is_link_after_run(*link->0, *final(link->0), steps, go_on)
            &&& #[trigger] are_looks(seen, steps, go_on)
            &&& seen[0] == *old(qdata)
            &&& #[trigger] is_after_run(imported, seen.last(), steps)
            &&& if go_on {
                final(qdata).is_finish_of(&imported, announced_hashes(batch.1@))
            } else {
                *final(qdata) == imported
            }
        };
    lemma_run_in_detail(
        *link->0,
        *final(link->0),
        batch.0,
        batch.1@,
        instant_finality,
        steps,
        go_on,
    );
}

/// A round of the import thread over a link leaves what waits and the order to end as they
/// were, and sets the best number to zero if and only if a block failed. Unless it was
/// stopped, its blocks no longer count as importing, but for those that wait; all others count
/// as before.
pub proof fn law_round_finishes_its_batch<B: BlockT, C: Client<B>>(
    link: Option<&mut SyncLink<B, LoggedClient<B, C>>>,
    qdata: &mut AsyncImportQueueData<B>,
    batch: Batch<B>,
    instant_finality: bool,
    go_on: bool,
)
    requires
        link is Some,
        call_ensures(
            import_thread_round::<B, SyncLink<B, LoggedClient<B, C>>, AsyncImportQueueData<B>>,
            (link, qdata, batch, instant_finality),
            go_on,
        ),
    ensures
        final(qdata).queue@ == old(qdata).queue@,
        final(qdata).is_stopping == old(qdata).is_stopping,
        !old(qdata).is_stopping ==> go_on,
        ({
            let before = (link->0).client.log@;
            let log = final(link->0).client.log@;
            let count = log.len() - before.len();
            let refused = count > 0 && !(log.last().reply matches Ok(reply) && (reply is Queued
                || reply is AlreadyQueued || reply is AlreadyInChain));
            let failed = go_on && (refused || count < batch.1@.len());
            &&& final(qdata).best_importing_number == (if failed {
                B::Number::zero_number()
            } else {
                old(qdata).best_importing_number
            })
            &&& old(qdata).is_stopping && batch.1@.len() > 0 ==> {
                &&& count <= 1
                &&& go_on <==> failed
            }
        }),
        !go_on ==> final(qdata).queue_blocks@ == old(qdata).queue_blocks@,
        go_on ==> forall|hash: B::Hash| #[trigger]
            final(qdata).queue_blocks@.contains(hash) <==> {
                ||| exists|i: int, j: int|
                    0 <= i < old(qdata).queue@.len() && 0 <= j < old(qdata).queue@[i].1@.len()
                        && (#[trigger] old(qdata).queue@[i].1@[j]).block.hash == hash
                ||| old(qdata).queue_blocks@.contains(hash) && !exists|j: int|
                    0 <= j < batch.1@.len() && (#[trigger] batch.1@[j]).block.hash == hash
            },
{
    let (steps, seen, imported) = choose|
        steps: Seq<ImportStep<B, C::Error>>,
        seen: Seq<AsyncImportQueueData<B>>,
        imported: AsyncImportQueueData<B>,
    |
        {
            &&& #[trigger] is_run(batch.0, batch.1@, instant_finality, steps)
            &&& may_end(batch.1@.len(), steps, go_on)
            &&& is_link_after_run(*link->0, *final(link->0), steps, go_on)
            &&& #[trigger] are_looks(seen, steps, go_on)
            &&& seen[0] == *old(qdata)
            &&& #[trigger] is_after_run(imported, seen.last(), steps)
            &&& if go_on {
                final(qdata).is_finish_of(&imported, announced_hashes(batch.1@))
            } else {
                *final(qdata) == imported
            }
        };
    lemma_run_in_detail(
        *link->0,
        *final(link->0),
        batch.0,
        batch.1@,
        instant_finality,
        steps,
        go_on,
    );
    lemma_stop_is_seen(seen, batch.1@.len(), steps, go_on);
    let before = old(qdata)@;
    let mid = imported@;
    let after = final(qdata)@;
    let hashes = announced_hashes(batch.1@);
    if go_on {
        assert forall|hash: B::Hash| #[trigger]
            final(qdata).queue_blocks@.contains(hash) <==> {
                ||| exists|i: int, j: int|
                    0 <= i < old(qdata).queue@.len() && 0 <= j < old(qdata).queue@[i].1@.len()
                        && (#[trigger] old(qdata).queue@[i].1@[j]).block.hash == hash
                ||| old(qdata).queue_blocks@.contains(hash) && !exists|j: int|
                    0 <= j < batch.1@.len() && (#[trigger] batch.1@[j]).block.hash == hash
            } by {
            lemma_waiting_blocks(mid, hash);
            assert(after.queue_blocks.contains(hash) == final(qdata).queue_blocks@.contains(hash));
            if hashes.contains(hash) {
                let j = choose|j: int| 0 <= j < hashes.len() && hashes[j] == hash;
                assert(batch.1@[j].block.hash == hash);
            }
            if exists|j: int|
                0 <= j < batch.1@.len() && (#[trigger] batch.1@[j]).block.hash == hash {
                let j = choose|j: int|
                    0 <= j < batch.1@.len() && (#[trigger] batch.1@[j]).block.hash == hash;
                assert(hashes[j] == hash);
                assert(hashes.contains(hash));
            }
        }
    }
}

/// A round of the import thread looks at its queue as [`law_run_looks_after_each_block`] says
/// of the import of a batch. Unless it was stopped, it then ends the import of all blocks of
/// its batch, under the hashes with which they were announced.
pub proof fn law_round_looks_and_finishes<B: BlockT, C: Client<B>, Q: QueueHandle<B>>(
    link: Option<&mut SyncLink<B, LoggedClient<B, C>>>,
    qdata: &mut Q,
    batch: Batch<B>,
    instant_finality: bool,
    go_on: bool,
)
    requires
        link is Some,
        call_ensures(
            import_thread_round::<B, SyncLink<B, LoggedClient<B, C>>, Q>,
            (link, qdata, batch, instant_finality),
            go_on,
        ),
    ensures
        exists|seen: Seq<Q>, imported: Q, hashes: Seq<B::Hash>|
            ({
                let before = (link->0).client.log@;
                let log = final(link->0).client.log@;
                let count = log.len() - before.len();
                let refused = count > 0 && !(log.last().reply matches Ok(reply) && (
                reply is Queued || reply is AlreadyQueued || reply is AlreadyInChain));
                let failed = go_on && (refused || count < batch.1@.len());
                &&& seen.len() == 1 + count - (if refused {
                    1int
                } else {
                    0
                })
                &&& #[trigger] seen[0] == *old(qdata)
                &&& forall|i: int|
                    0 < i < seen.len() ==> (#[trigger] seen[i]).is_look_of(
                        &seen[i - 1],
                        !go_on && i == seen.len() - 1,
                    )
                &&& failed ==> imported.is_reset_of(&seen.last())
                &&& !failed ==> imported == seen.last()
                &&& hashes.len() == batch.1@.len()
                &&& forall|i: int|
                    0 <= i < hashes.len() ==> #[trigger] hashes[i] == batch.1@[i].block.hash
                &&& go_on ==> #[trigger] final(qdata).is_finish_of(&imported, hashes)
                &&& !go_on ==> *final(qdata) == imported
            }),
{
    let (steps, seen, imported) = choose|
        steps: Seq<ImportStep<B, C::Error>>,
        seen: Seq<Q>,
        imported: Q,
    |
        {
            &&& #[trigger] is_run(batch.0, batch.1@, instant_finality, steps)
            &&& may_end(batch.1@.len(), steps, go_on)
            &&& is_link_after_run(*link->0, *final(link->0), steps, go_on)
            &&& #[trigger] are_looks(seen, steps, go_on)
            &&& seen[0] == *old(qdata)
            &&& #[trigger] is_after_run(imported, seen.last(), steps)
            &&& if go_on {
                final(qdata).is_finish_of(&imported, announced_hashes(batch.1@))
            } else {
                *final(qdata) == imported
            }
        };
    lemma_run_in_detail(
        *link->0,
        *final(link->0),
        batch.0,
        batch.1@,
        instant_finality,
        steps,
        go_on,
    );
    let hashes = announced_hashes(batch.1@);
    let finished = final(qdata).is_finish_of(&imported, hashes);
    assert(go_on ==> finished);
    assert(seen[0] == *old(qdata));
}

/// Without a link a round of the import thread imports nothing, leaves the queue alone, and
/// ends the thread.
pub proof fn law_round_without_a_link_ends_the_thread<B: BlockT, C: Client<B>, Q: QueueHandle<B>>(
    link: Option<&mut SyncLink<B, LoggedClient<B, C>>>,
    qdata: &mut Q,
    batch: Batch<B>,
    instant_finality: bool,
    go_on: bool,
)
    requires
        link is None,
        call_ensures(
            import_thread_round::<B, SyncLink<B, LoggedClient<B, C>>, Q>,
            (link, qdata, batch, instant_finality),
            go_on,
        ),
    ensures
        !go_on,
        *final(qdata) == *old(qdata),
{
}

/// An import at once says whether there was a link to import over.
pub proof fn law_import_at_once_needs_a_link<B: BlockT, L: SyncLinkApi<B>>(
    finale: bool,
    link: Option<&mut L>,
    origin: BlockOrigin,
    data: Vec<BlockData<B>>,
    imported: bool,
)
    requires
        call_ensures(import_at_once::<B, L>, (finale, link, origin, data), imported),
    ensures
        imported <==> link is Some,
{
}

/// An import at once hands the client the blocks from the first on, in order and each once,
/// with all their parts as they came, and final if and only if `finale` is not set.
pub proof fn law_blocks_are_handed_over_at_once<B: BlockT, C: Client<B>>(
    finale: bool,
    link: Option<&mut SyncLink<B, LoggedClient<B, C>>>,
    origin: BlockOrigin,
    data: Vec<BlockData<B>>,
    imported: bool,
)
    requires
        link is Some,
        call_ensures(import_at_once::<B, SyncLink<B, LoggedClient<B, C>>>, (finale, link, origin, data), imported),
    ensures
        ({
            let before = link->0.client.log@;
            let log = final(link->0).client.log@;
            let blocks = data@;
            &&& before.is_prefix_of(log)
            &&& log.len() - before.len() <= blocks.len()
            &&& forall|i: int|
                before.len() <= i < log.len() ==> {
                    let block = blocks[i - before.len()].block;
                    let call = #[trigger] log[i];
                    &&& block.header == Some(call.block.header)
                    &&& block.justification == Some(call.block.external_justification)
                    &&& call.block.body == block.body
                    &&& call.block.origin == origin
                    &&& call.block.finalized == !finale
                    &&& call.block.internal_justification@.len() == 0
                    &&& call.block.auxiliary@.len() == 0
                    &&& call.new_authorities is None
                }
        }),
{
    let steps = choose|steps: Seq<ImportStep<B, C::Error>>|
        {
            &&& is_run(origin, data@, !finale, steps)
            &&& run_failed(steps) || steps.len() == data@.len()
            &&& #[trigger] is_link_after_run(*link->0, *final(link->0), steps, true)
        };
    lemma_run_in_detail(*link->0, *final(link->0), origin, data@, !finale, steps, true);
}

/// An import at once ends at the first block that the client does not take or that is not
/// complete, or else at the end.
pub proof fn law_import_at_once_ends_where_it_must<B: BlockT, C: Client<B>>(
    finale: bool,
    link: Option<&mut SyncLink<B, LoggedClient<B, C>>>,
    origin: BlockOrigin,
    data: Vec<BlockData<B>>,
    imported: bool,
)
    requires
        link is Some,
        call_ensures(import_at_once::<B, SyncLink<B, LoggedClient<B, C>>>, (finale, link, origin, data), imported),
    ensures
        ({
            let before = link->0.client.log@;
            let log = final(link->0).client.log@;
            let blocks = data@;
            let failed = log.len() > before.len() && !(log.last().reply matches Ok(reply) && (
            reply is Queued || reply is AlreadyQueued || reply is AlreadyInChain));
            let count = log.len() - before.len();
            &&& forall|i: int|
                before.len() <= i < log.len() - 1 ==> ((#[trigger] log[i]).reply matches Ok(reply) && (
                reply is Queued || reply is AlreadyQueued || reply is AlreadyInChain))
            &&& !failed && count < blocks.len() ==> blocks[count].block.header is None
                || blocks[count].block.justification is None
        }),
{
    let steps = choose|steps: Seq<ImportStep<B, C::Error>>|
        {
            &&& is_run(origin, data@, !finale, steps)
            &&& run_failed(steps) || steps.len() == data@.len()
            &&& #[trigger] is_link_after_run(*link->0, *final(link->0), steps, true)
        };
    lemma_run_in_detail(*link->0, *final(link->0), origin, data@, !finale, steps, true);
}

/// An import at once tells synchronization of each block as its own, and then that it may go
/// on or whose block is not complete.
pub proof fn law_blocks_are_told_at_once<B: BlockT, C: Client<B>>(
    finale: bool,
    link: Option<&mut SyncLink<B, LoggedClient<B, C>>>,
    origin: BlockOrigin,
    data: Vec<BlockData<B>>,
    imported: bool,
)
    requires
        link is Some,
        call_ensures(import_at_once::<B, SyncLink<B, LoggedClient<B, C>>>, (finale, link, origin, data), imported),
    ensures
        ({
            let before = link->0.client.log@;
            let log = final(link->0).client.log@;
            let blocks = data@;
            let failed = log.len() > before.len() && !(log.last().reply matches Ok(reply) && (
            reply is Queued || reply is AlreadyQueued || reply is AlreadyInChain));
            let old_tasks = link->0.tasks@;
            let tasks = final(link->0).tasks@;
            let count = log.len() - before.len();
            &&& tasks.len() == old_tasks.len() + count + (if failed {
                0int
            } else {
                1
            })
            &&& forall|j: int|
                0 <= j < old_tasks.len() ==> (#[trigger] tasks[j]).event() == old_tasks[j].event()
            &&& forall|j: int|
                old_tasks.len() <= j < old_tasks.len() + count ==> {
                    let i = j - old_tasks.len();
                    let header = blocks[i].block.header->0;
                    &&& (#[trigger] tasks[j]).event().after == before.len() + i + 1
                    &&& tasks[j].event().event == match log[before.len() + i].reply {
                        Ok(
                            ImportResult::Queued
                            | ImportResult::AlreadyQueued
                            | ImportResult::AlreadyInChain,
                        ) => SyncEvent::<B>::BlockImported(header.hash, header.number),
                        Ok(ImportResult::KnownBad) => SyncEvent::UselessPeerAndRestart(
                            blocks[i].origin,
                            "Import result was stated DisconnectAndRestart"@,
                        ),
                        Ok(ImportResult::UnknownParent) => SyncEvent::Restart,
                        Err(_) => SyncEvent::Restart,
                    }
                }
            &&& !failed && count == blocks.len() ==> tasks.last().event() == (LinkEvent::<B> {
                after: log.len(),
                event: SyncEvent::MaintainSync,
            })
            &&& !failed && count < blocks.len() ==> tasks.last().event() == (LinkEvent::<B> {
                after: log.len(),
                event: SyncEvent::UselessPeer(
                    blocks[count].origin,
                    "Import result was stated Disconnect"@,
                ),
            })
        }),
{
    let steps = choose|steps: Seq<ImportStep<B, C::Error>>|
        {
            &&& is_run(origin, data@, !finale, steps)
            &&& run_failed(steps) || steps.len() == data@.len()
            &&& #[trigger] is_link_after_run(*link->0, *final(link->0), steps, true)
        };
    lemma_run_in_detail(*link->0, *final(link->0), origin, data@, !finale, steps, true);
}

/// A queue without a thread hands the client the blocks from the first on, in order and each
/// once, with all their parts as they came, and final if and only if its boolean is not set.
pub proof fn law_sync_queue_hands_blocks_over_in_order<B: BlockT, C: Client<B>>(
    queue: &mut SyncImportQueue<Option<SyncLink<B, LoggedClient<B, C>>>>,
    origin: BlockOrigin,
    data: Vec<BlockData<B>>,
    signal: bool,
)
    requires
        old(queue).1.0 matches Some(cb) && cb.links is Some,
        call_ensures(
            <SyncImportQueue<Option<SyncLink<B, LoggedClient<B, C>>>> as ImportQueue<B>>::import_blocks,
            (queue, origin, data),
            signal,
        ),
    ensures
        final(queue).0 == old(queue).0,
        final(queue).1.0 matches Some(cb) && cb.links is Some,
        !signal,
        ({
            let before = ((old(queue).1.0->0).links->0).client.log@;
            let log = ((final(queue).1.0->0).links->0).client.log@;
            let blocks = data@;
            &&& before.is_prefix_of(log)
            &&& log.len() - before.len() <= blocks.len()
            &&& forall|i: int|
                before.len() <= i < log.len() ==> {
                    let block = blocks[i - before.len()].block;
                    let call = #[trigger] log[i];
                    &&& block.header == Some(call.block.header)
                    &&& block.justification == Some(call.block.external_justification)
                    &&& call.block.body == block.body
                    &&& call.block.origin == origin
                    &&& call.block.finalized == !old(queue).0
                    &&& call.block.internal_justification@.len() == 0
                    &&& call.block.auxiliary@.len() == 0
                    &&& call.new_authorities is None
                }
        }),
{
    let start = (old(queue).1.0->0).links->0;
    let end = (final(queue).1.0->0).links->0;
    let steps = choose|steps: Seq<ImportStep<B, C::Error>>|
        {
            &&& is_run(origin, data@, !old(queue).0, steps)
            &&& run_failed(steps) || steps.len() == data@.len()
            &&& #[trigger] is_link_after_run(start, end, steps, true)
        };
    lemma_run_in_detail(start, end, origin, data@, !old(queue).0, steps, true);
}

/// A queue without a thread imports all blocks, or all up to the first that the client does
/// not take or that is not complete.
pub proof fn law_sync_queue_ends_where_it_must<B: BlockT, C: Client<B>>(
    queue: &mut SyncImportQueue<Option<SyncLink<B, LoggedClient<B, C>>>>,
    origin: BlockOrigin,
    data: Vec<BlockData<B>>,
    signal: bool,
)
    requires
        old(queue).1.0 matches Some(cb) && cb.links is Some,
        call_ensures(
            <SyncImportQueue<Option<SyncLink<B, LoggedClient<B, C>>>> as ImportQueue<B>>::import_blocks,
            (queue, origin, data),
            signal,
        ),
    ensures
        final(queue).0 == old(queue).0,
        final(queue).1.0 matches Some(cb) && cb.links is Some,
        !signal,
        ({
            let before = ((old(queue).1.0->0).links->0).client.log@;
            let log = ((final(queue).1.0->0).links->0).client.log@;
            let blocks = data@;
            let failed = log.len() > before.len() && !(log.last().reply matches Ok(reply) && (
            reply is Queued || reply is AlreadyQueued || reply is AlreadyInChain));
            let count = log.len() - before.len();
            &&& forall|i: int|
                before.len() <= i < log.len() - 1 ==> ((#[trigger] log[i]).reply matches Ok(reply) && (
                reply is Queued || reply is AlreadyQueued || reply is AlreadyInChain))
            &&& !failed && count < blocks.len() ==> blocks[count].block.header is None
                || blocks[count].block.justification is None
        }),
{
    let start = (old(queue).1.0->0).links->0;
    let end = (final(queue).1.0->0).links->0;
    let steps = choose|steps: Seq<ImportStep<B, C::Error>>|
        {
            &&& is_run(origin, data@, !old(queue).0, steps)
            &&& run_failed(steps) || steps.len() == data@.len()
            &&& #[trigger] is_link_after_run(start, end, steps, true)
        };
    lemma_run_in_detail(start, end, origin, data@, !old(queue).0, steps, true);
}

/// A queue without a thread tells synchronization of each block as its own, and then that it
/// may go on or whose block is not complete.
pub proof fn law_sync_queue_tells_every_block_as_its_own<B: BlockT, C: Client<B>>(
    queue: &mut SyncImportQueue<Option<SyncLink<B, LoggedClient<B, C>>>>,
    origin: BlockOrigin,
    data: Vec<BlockData<B>>,
    signal: bool,
)
    requires
        old(queue).1.0 matches Some(cb) && cb.links is Some,
        call_ensures(
            <SyncImportQueue<Option<SyncLink<B, LoggedClient<B, C>>>> as ImportQueue<B>>::import_blocks,
            (queue, origin, data),
            signal,
        ),
    ensures
        final(queue).0 == old(queue).0,
        final(queue).1.0 matches Some(cb) && cb.links is Some,
        !signal,
        ({
            let before = ((old(queue).1.0->0).links->0).client.log@;
            let log = ((final(queue).1.0->0).links->0).client.log@;
            let blocks = data@;
            let failed = log.len() > before.len() && !(log.last().reply matches Ok(reply) && (
            reply is Queued || reply is AlreadyQueued || reply is AlreadyInChain));
            let old_tasks = ((old(queue).1.0->0).links->0).tasks@;
            let tasks = ((final(queue).1.0->0).links->0).tasks@;
            let count = log.len() - before.len();
            &&& tasks.len() == old_tasks.len() + count + (if failed {
                0int
            } else {
                1
            })
            &&& forall|j: int|
                0 <= j < old_tasks.len() ==> (#[trigger] tasks[j]).event() == old_tasks[j].event()
            &&& forall|j: int|
                old_tasks.len() <= j < old_tasks.len() + count ==> {
                    let i = j - old_tasks.len();
                    let header = blocks[i].block.header->0;
                    &&& (#[trigger] tasks[j]).event().after == before.len() + i + 1
                    &&& tasks[j].event().event == match log[before.len() + i].reply {
                        Ok(
                            ImportResult::Queued
                            | ImportResult::AlreadyQueued
                            | ImportResult::AlreadyInChain,
                        ) => SyncEvent::<B>::BlockImported(header.hash, header.number),
                        Ok(ImportResult::KnownBad) => SyncEvent::UselessPeerAndRestart(
                            blocks[i].origin,
                            "Import result was stated DisconnectAndRestart"@,
                        ),
                        Ok(ImportResult::UnknownParent) => SyncEvent::Restart,
                        Err(_) => SyncEvent::Restart,
                    }
                }
            &&& !failed && count == blocks.len() ==> tasks.last().event() == (LinkEvent::<B> {
                after: log.len(),
                event: SyncEvent::MaintainSync,
            })
            &&& !failed && count < blocks.len() ==> tasks.last().event() == (LinkEvent::<B> {
                after: log.len(),
                event: SyncEvent::UselessPeer(
                    blocks[count].origin,
                    "Import result was stated Disconnect"@,
                ),
            })
        }),
{
    let start = (old(queue).1.0->0).links->0;
    let end = (final(queue).1.0->0).links->0;
    let steps = choose|steps: Seq<ImportStep<B, C::Error>>|
        {
            &&& is_run(origin, data@, !old(queue).0, steps)
            &&& run_failed(steps) || steps.len() == data@.len()
            &&& #[trigger] is_link_after_run(start, end, steps, true)
        };
    lemma_run_in_detail(start, end, origin, data@, !old(queue).0, steps, true);
}

/// The callback of a queue without a thread hands over and tells of the blocks as the queue
/// does, with the boolean that it has of it, and returns that there was a link.
pub proof fn law_callback_imports_as_its_queue<B: BlockT, C: Client<B>>(
    cb: &mut SyncCallback<Option<SyncLink<B, LoggedClient<B, C>>>>,
    origin: BlockOrigin,
    data: Vec<BlockData<B>>,
    go_on: bool,
)
    requires
        old(cb).links is Some,
        call_ensures(
            <SyncCallback<Option<SyncLink<B, LoggedClient<B, C>>>> as ImportCallback<B>>::run,
            (cb, origin, data),
            go_on,
        ),
    ensures
        go_on,
        final(cb).finale == old(cb).finale,
        final(cb).links is Some,
        ({
            let before = (old(cb).links->0).client.log@;
            let log = (final(cb).links->0).client.log@;
            let blocks = data@;
            &&& before.is_prefix_of(log)
            &&& log.len() - before.len() <= blocks.len()
            &&& forall|i: int|
                before.len() <= i < log.len() ==> {
                    let block = blocks[i - before.len()].block;
                    let call = #[trigger] log[i];
                    &&& block.header == Some(call.block.header)
                    &&& block.justification == Some(call.block.external_justification)
                    &&& call.block.body == block.body
                    &&& call.block.origin == origin
                    &&& call.block.finalized == !old(cb).finale
                    &&& call.block.internal_justification@.len() == 0
                    &&& call.block.auxiliary@.len() == 0
                    &&& call.new_authorities is None
                }
        }),
        ({
            let before = (old(cb).links->0).client.log@;
            let log = (final(cb).links->0).client.log@;
            let blocks = data@;
            let failed = log.len() > before.len() && !(log.last().reply matches Ok(reply) && (
            reply is Queued || reply is AlreadyQueued || reply is AlreadyInChain));
            let count = log.len() - before.len();
            &&& forall|i: int|
                before.len() <= i < log.len() - 1 ==> ((#[trigger] log[i]).reply matches Ok(reply) && (
                reply is Queued || reply is AlreadyQueued || reply is AlreadyInChain))
            &&& !failed && count < blocks.len() ==> blocks[count].block.header is None
                || blocks[count].block.justification is None
        }),
        ({
            let before = (old(cb).links->0).client.log@;
            let log = (final(cb).links->0).client.log@;
            let blocks = data@;
            let failed = log.len() > before.len() && !(log.last().reply matches Ok(reply) && (
            reply is Queued || reply is AlreadyQueued || reply is AlreadyInChain));
            let old_tasks = (old(cb).links->0).tasks@;
            let tasks = (final(cb).links->0).tasks@;
            let count = log.len() - before.len();
            &&& tasks.len() == old_tasks.len() + count + (if failed {
                0int
            } else {
                1
            })
            &&& forall|j: int|
                0 <= j < old_tasks.len() ==> (#[trigger] tasks[j]).event() == old_tasks[j].event()
            &&& forall|j: int|
                old_tasks.len() <= j < old_tasks.len() + count ==> {
                    let i = j - old_tasks.len();
                    let header = blocks[i].block.header->0;
                    &&& (#[trigger] tasks[j]).event().after == before.len() + i + 1
                    &&& tasks[j].event().event == match log[before.len() + i].reply {
                        Ok(
                            ImportResult::Queued
                            | ImportResult::AlreadyQueued
                            | ImportResult::AlreadyInChain,
                        ) => SyncEvent::<B>::BlockImported(header.hash, header.number),
                        Ok(ImportResult::KnownBad) => SyncEvent::UselessPeerAndRestart(
                            blocks[i].origin,
                            "Import result was stated DisconnectAndRestart"@,
                        ),
                        Ok(ImportResult::UnknownParent) => SyncEvent::Restart,
                        Err(_) => SyncEvent::Restart,
                    }
                }
            &&& !failed && count == blocks.len() ==> tasks.last().event() == (LinkEvent::<B> {
                after: log.len(),
                event: SyncEvent::MaintainSync,
            })
            &&& !failed && count < blocks.len() ==> tasks.last().event() == (LinkEvent::<B> {
                after: log.len(),
                event: SyncEvent::UselessPeer(
                    blocks[count].origin,
                    "Import result was stated Disconnect"@,
                ),
            })
        }),
{
    let start = old(cb).links->0;
    let end = final(cb).links->0;
    let steps = choose|steps: Seq<ImportStep<B, C::Error>>|
        {
            &&& is_run(origin, data@, !old(cb).finale, steps)
            &&& run_failed(steps) || steps.len() == data@.len()
            &&& #[trigger] is_link_after_run(start, end, steps, true)
        };
    lemma_run_in_detail(start, end, origin, data@, !old(cb).finale, steps, true);
}

/// Without a link the callback imports nothing, and says so.
pub proof fn law_callback_without_a_link_imports_nothing<B: BlockT, C: Client<B>>(
    cb: &mut SyncCallback<Option<SyncLink<B, LoggedClient<B, C>>>>,
    origin: BlockOrigin,
    data: Vec<BlockData<B>>,
    go_on: bool,
)
    requires
        old(cb).links is None,
        call_ensures(
            <SyncCallback<Option<SyncLink<B, LoggedClient<B, C>>>> as ImportCallback<B>>::run,
            (cb, origin, data),
            go_on,
        ),
    ensures
        !go_on,
        final(cb).links is None,
        final(cb).finale == old(cb).finale,
{
}

/// A queue without a thread that has lost its link imports nothing.
pub proof fn law_sync_queue_without_a_link_imports_nothing<B: BlockT, C: Client<B>>(
    queue: &mut SyncImportQueue<Option<SyncLink<B, LoggedClient<B, C>>>>,
    origin: BlockOrigin,
    data: Vec<BlockData<B>>,
    signal: bool,
)
    requires
        old(queue).1.0 matches Some(cb) && cb.links is None,
        call_ensures(
            <SyncImportQueue<Option<SyncLink<B, LoggedClient<B, C>>>> as ImportQueue<B>>::import_blocks,
            (queue, origin, data),
            signal,
        ),
    ensures
        !signal,
        final(queue).0 == old(queue).0,
        final(queue).1.0 matches Some(cb) && cb.links is None,
{
}

/// A new queue without a thread has the boolean that it is made with, and no callback.
pub proof fn law_new_sync_queue_has_no_callback<W>(finale: bool, queue: SyncImportQueue<W>)
    requires
        call_ensures(SyncImportQueue::<W>::new, (finale,), queue),
    ensures
        queue.0 == finale,
        queue.1.0 is None,
{
}

/// A queue without a thread that is started imports over what it was started with last, and
/// with its own boolean.
pub proof fn law_started_sync_queue_has_its_links<B: BlockT, C: Client<B>>(
    queue: &mut SyncImportQueue<Option<SyncLink<B, LoggedClient<B, C>>>>,
    links: Option<SyncLink<B, LoggedClient<B, C>>>,
    done: (),
)
    requires
        call_ensures(SyncImportQueue::<Option<SyncLink<B, LoggedClient<B, C>>>>::start_with::<B>, (queue, links), done),
    ensures
        final(queue).0 == old(queue).0,
        final(queue).1.0 matches Some(cb) && cb.links == links && cb.finale == old(queue).0,
{
}

/// Nothing ever waits in a queue without a thread: neither clearing nor stopping changes it,
/// and stopping hands out nothing.
pub proof fn law_sync_queue_has_nothing_to_clear<B: BlockT, C: Client<B>>(
    cleared: &mut SyncImportQueue<Option<SyncLink<B, LoggedClient<B, C>>>>,
    stopped: &mut SyncImportQueue<Option<SyncLink<B, LoggedClient<B, C>>>>,
    done: (),
    background: Option<Option<SyncLink<B, LoggedClient<B, C>>>>,
)
    requires
        call_ensures(
            <SyncImportQueue<Option<SyncLink<B, LoggedClient<B, C>>>> as ImportQueue<B>>::clear,
            (cleared,),
            done,
        ),
        call_ensures(
            <SyncImportQueue<Option<SyncLink<B, LoggedClient<B, C>>>> as ImportQueue<B>>::stop,
            (stopped,),
            background,
        ),
    ensures
        *final(cleared) == *old(cleared),
        *final(stopped) == *old(stopped),
        background is None,
{
}

/// No block ever counts as importing in a queue without a thread.
pub proof fn law_sync_queue_is_never_importing<B: BlockT, C: Client<B>>(
    queue: &SyncImportQueue<Option<SyncLink<B, LoggedClient<B, C>>>>,
    hash: &B::Hash,
    importing: bool,
    status: ImportQueueStatus<B>,
)
    requires
        call_ensures(
            <SyncImportQueue<Option<SyncLink<B, LoggedClient<B, C>>>> as ImportQueue<B>>::is_importing,
            (queue, hash),
            importing,
        ),
        call_ensures(
            <SyncImportQueue<Option<SyncLink<B, LoggedClient<B, C>>>> as ImportQueue<B>>::status,
            (queue,),
            status,
        ),
    ensures
        !importing,
        status.importing_count == 0,
        status.best_importing_number == B::Number::zero_number(),
{
}

/// A place for a callback holds the one that was set last, and none at first.
pub proof fn law_last_callback_is_kept<F>(fresh: ImportCB<F>, place: &mut ImportCB<F>, cb: F, done: ())
    requires
        call_ensures(ImportCB::<F>::new, (), fresh),
        call_ensures(ImportCB::<F>::set, (place, cb), done),
    ensures
        fresh.0 is None,
        final(place).0 == Some(cb),
{
}

/// A callback that is a function gets the blocks as they came, what it returns is returned,
/// and it stays in its place.
pub proof fn law_callback_gets_the_blocks<
    B: BlockT,
    F: Fn(BlockOrigin, Vec<BlockData<B>>) -> bool,
>(place: &mut ImportCB<F>, origin: BlockOrigin, data: Vec<BlockData<B>>, go_on: bool)
    requires
        old(place).0 is Some,
        call_ensures(ImportCB::<F>::call::<B>, (place, origin, data), go_on),
    ensures
        final(place).0 == old(place).0,
        call_ensures(old(place).0->0, (origin, data), go_on),
{
}

} // verus!
