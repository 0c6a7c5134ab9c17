//! What holds of the import of blocks, whatever the client replies.

use vstd::prelude::*;

use crate::blocks::{announced_hashes, BlockData};
use crate::client::{BlockOrigin, Client, ImportCall, ImportResult};
use crate::data::{AsyncImportQueueData, Batch, QueueHandle, QueueView};
use crate::import::{
    are_looks, batch_events, is_after_run, is_link_after_run, is_logged, is_request_for, is_run,
    is_step, may_end, outcome_event, outcome_of_reply, run_calls, run_events, run_failed,
    BlockImportError, BlockImportResult, ImportOutcome, ImportStep, LinkError,
};
use crate::link::{
    event_calls, LinkEvent, NodeIndex, SyncCallView, SyncEvent, SyncLinkApi, WeakLink,
};
use crate::message::BlockT;
use crate::queue_laws::{
    are_places, law_first_in_first_out, law_order_survives_clearing, scheduled_by, QueueOp,
};
use crate::sync_queue::{is_import_over, SyncCallback, SyncImportQueue};

verus! {

/// A block without its header or its justification does not reach the client: its sender is
/// disconnected, and synchronization is not restarted.
pub proof fn law_incomplete_block_is_refused<B: BlockT, E>(
    origin: BlockOrigin,
    block: BlockData<B>,
    instant_finality: bool,
    step: ImportStep<B, E>,
)
    requires
        !block.importable(),
        is_step(origin, block, instant_finality, step),
    ensures
        step.calls.len() == 0,
        step.outcome matches Err(error) && error == BlockImportError::Disconnect(block.origin),
        outcome_event::<B>(step.outcome) == SyncEvent::<B>::UselessPeer(
            block.origin,
            "Import result was stated Disconnect"@,
        ),
{
}

/// A complete block is handed to the client once. If it is imported, it is known under the
/// hash and number of its header. No reply to a complete block disconnects a peer without
/// restarting synchronization.
pub proof fn law_client_decides_on_complete_block<B: BlockT, E>(
    origin: BlockOrigin,
    block: BlockData<B>,
    instant_finality: bool,
    step: ImportStep<B, E>,
)
    requires
        block.importable(),
        is_step(origin, block, instant_finality, step),
    ensures
        step.calls.len() == 1,
        step.outcome matches Ok(imported) ==> {
            let header = block.block.header->0;
            ||| imported == BlockImportResult::ImportedKnown(header.hash, header.number)
            ||| imported == BlockImportResult::ImportedUnknown(header.hash, header.number)
        },
        step.outcome matches Err(error) ==> {
            ||| error == BlockImportError::Restart
            ||| error == BlockImportError::DisconnectAndRestart(block.origin)
        },
{
}

/// The hash under which a block was announced, its receipt and its message queue make no
/// difference: blocks that agree in sender, header, justification and body are handed to
/// the client alike, and where it replies alike, the same becomes of them.
pub proof fn law_only_imported_parts_matter<B: BlockT, E>(
    origin: BlockOrigin,
    b1: BlockData<B>,
    b2: BlockData<B>,
    instant_finality: bool,
    s1: ImportStep<B, E>,
    s2: ImportStep<B, E>,
)
    requires
        b1.origin == b2.origin,
        b1.block.header == b2.block.header,
        b1.block.justification == b2.block.justification,
        b1.block.body == b2.block.body,
        is_step(origin, b1, instant_finality, s1),
        is_step(origin, b2, instant_finality, s2),
    ensures
        is_step(origin, b2, instant_finality, s1),
        s1.calls.len() == s2.calls.len() <= 1,
        s1.calls.len() == 1 ==> {
            let c1 = s1.calls[0];
            let c2 = s2.calls[0];
            &&& c1.block.origin == c2.block.origin
            &&& c1.block.header == c2.block.header
            &&& c1.block.external_justification == c2.block.external_justification
            &&& c1.block.internal_justification@ == c2.block.internal_justification@
            &&& c1.block.body == c2.block.body
            &&& c1.block.finalized == c2.block.finalized
            &&& c1.block.auxiliary@ == c2.block.auxiliary@
            &&& c1.new_authorities == c2.new_authorities
            &&& c1.reply == c2.reply ==> s1.outcome == s2.outcome
        },
        s1.calls.len() == 0 ==> s1.outcome == s2.outcome,
{
}

/// A reply counts as an import if and only if the client has queued the block or had it
/// before, and as the import of an unknown block only in the first case. The sender is
/// disconnected only for a block that is known to be bad.
pub proof fn law_meaning_of_replies<H, N, E>(
    reply: Result<ImportResult, E>,
    hash: H,
    number: N,
    who: NodeIndex,
)
    ensures
        ({
            let outcome = outcome_of_reply(reply, hash, number, who);
            &&& outcome is Ok <==> (reply matches Ok(result) && (result is Queued
                || result is AlreadyQueued || result is AlreadyInChain))
            &&& (outcome matches Ok(imported) && imported is ImportedUnknown) <==> (
            reply matches Ok(result) && result is Queued)
            &&& (outcome matches Err(error) && error is DisconnectAndRestart) <==> (
            reply matches Ok(result) && result is KnownBad)
            &&& !(outcome matches Err(error) && error is Disconnect)
        }),
{
}

/// A block is told to be imported if and only if it is, a peer is reported if and only if it
/// is to be disconnected, and synchronization is restarted if and only if the error says
/// so; no outcome lets it go on. A report comes before the restart.
pub proof fn law_every_outcome_is_told<B: BlockT>(outcome: ImportOutcome<B>)
    ensures
        ({
            let event = outcome_event::<B>(outcome);
            &&& event is BlockImported <==> outcome is Ok
            &&& (event is UselessPeer || event is UselessPeerAndRestart) <==> (
            outcome matches Err(error) && error !is Restart)
            &&& (event is Restart || event is UselessPeerAndRestart) <==> (
            outcome matches Err(error) && error !is Disconnect)
            &&& event !is MaintainSync
            &&& event is UselessPeerAndRestart ==> event_calls(event).len() == 2 && event_calls(
                event,
            )[0] is ReportUseless && event_calls(event)[1] == SyncCallView::<B>::Restart
        }),
{
}

/// A part of a run is a run, in which no block failed if it is not the whole.
pub proof fn lemma_run_without_last<B: BlockT, E>(
    origin: BlockOrigin,
    blocks: Seq<BlockData<B>>,
    instant_finality: bool,
    steps: Seq<ImportStep<B, E>>,
)
    requires
        is_run(origin, blocks, instant_finality, steps),
        steps.len() > 0,
    ensures
        is_run(origin, blocks, instant_finality, steps.drop_last()),
        !run_failed(steps.drop_last()),
{
    let earlier = steps.drop_last();
    assert(forall|i: int| 0 <= i < earlier.len() ==> #[trigger] earlier[i] == steps[i]);
    if earlier.len() > 0 {
        assert(earlier.last() == steps[steps.len() - 2]);
    }
}

/// The client is handed the first blocks of a batch, each once, in order, with the batch's
/// origin and with the finality asked for, and nothing else: there is one call for each
/// block that was tried, but none for a last one that is not complete.
pub proof fn law_client_is_handed_the_first_blocks<B: BlockT, E>(
    origin: BlockOrigin,
    blocks: Seq<BlockData<B>>,
    instant_finality: bool,
    steps: Seq<ImportStep<B, E>>,
)
    requires
        is_run(origin, blocks, instant_finality, steps),
    ensures
        run_calls(steps).len() == (if steps.len() > 0 && !blocks[steps.len() - 1].importable() {
            steps.len() - 1
        } else {
            steps.len() as int
        }),
        forall|i: int|
            0 <= i < run_calls(steps).len() ==> {
                &&& is_request_for(
                    (#[trigger] run_calls(steps)[i]).block,
                    origin,
                    blocks[i],
                    instant_finality,
                )
                &&& run_calls(steps)[i].new_authorities is None
            },
    decreases steps.len(),
{
    if steps.len() > 0 {
        let earlier = steps.drop_last();
        let last = steps.len() - 1;
        lemma_run_without_last(origin, blocks, instant_finality, steps);
        law_client_is_handed_the_first_blocks(origin, blocks, instant_finality, earlier);
        assert(is_step(origin, blocks[last], instant_finality, steps[last]));
        if last > 0 {
            assert(is_step(origin, blocks[last - 1], instant_finality, steps[last - 1]));
            assert(steps[last - 1].outcome is Ok);
        }
        let some = run_calls(earlier);
        let all = run_calls(steps);
        assert forall|i: int| 0 <= i < all.len() implies {
            &&& is_request_for((#[trigger] all[i]).block, origin, blocks[i], instant_finality)
            &&& all[i].new_authorities is None
        } by {
            if i < some.len() {
                assert(all[i] == some[i]);
            } else {
                assert(all[i] == steps.last().calls[i - some.len()]);
            }
        }
    }
}

/// A run tells one thing of each block that was tried, in order: after the call for the
/// block, and before any call for the next.
pub proof fn law_block_is_told_of_before_the_next<B: BlockT, E>(
    origin: BlockOrigin,
    blocks: Seq<BlockData<B>>,
    instant_finality: bool,
    before: nat,
    steps: Seq<ImportStep<B, E>>,
)
    requires
        is_run(origin, blocks, instant_finality, steps),
    ensures
        run_events(before, steps).len() == steps.len(),
        forall|i: int|
            0 <= i < steps.len() ==> {
                &&& (#[trigger] run_events(before, steps)[i]).event == outcome_event::<B>(
                    steps[i].outcome,
                )
                &&& run_events(before, steps)[i].after == before + (if blocks[i].importable() {
                    i + 1
                } else {
                    i
                })
            },
    decreases steps.len(),
{
    if steps.len() > 0 {
        let earlier = steps.drop_last();
        lemma_run_without_last(origin, blocks, instant_finality, steps);
        law_block_is_told_of_before_the_next(origin, blocks, instant_finality, before, earlier);
        law_client_is_handed_the_first_blocks(origin, blocks, instant_finality, steps);
        let some = run_events(before, earlier);
        let all = run_events(before, steps);
        assert forall|i: int| 0 <= i < steps.len() implies {
            &&& (#[trigger] all[i]).event == outcome_event::<B>(steps[i].outcome)
            &&& all[i].after == before + (if blocks[i].importable() {
                i + 1
            } else {
                i
            })
        } by {
            if i < some.len() {
                assert(all[i] == some[i]);
            }
        }
    }
}

/// In a run in which no block failed, every block that was tried is complete and is told to
/// be imported, under the hash and number of its header.
pub proof fn law_successful_run_tells_of_each_block<B: BlockT, E>(
    origin: BlockOrigin,
    blocks: Seq<BlockData<B>>,
    instant_finality: bool,
    before: nat,
    steps: Seq<ImportStep<B, E>>,
)
    requires
        is_run(origin, blocks, instant_finality, steps),
        !run_failed(steps),
    ensures
        run_calls(steps).len() == steps.len(),
        run_events(before, steps).len() == steps.len(),
        forall|i: int|
            0 <= i < steps.len() ==> {
                &&& blocks[i].importable()
                &&& #[trigger] run_events(before, steps)[i] == (LinkEvent::<B> {
                    after: (before + i + 1) as nat,
                    event: SyncEvent::BlockImported(
                        blocks[i].block.header->0.hash,
                        blocks[i].block.header->0.number,
                    ),
                })
            },
{
    law_client_is_handed_the_first_blocks(origin, blocks, instant_finality, steps);
    law_block_is_told_of_before_the_next(origin, blocks, instant_finality, before, steps);
    assert forall|i: int| 0 <= i < steps.len() implies {
        &&& blocks[i].importable()
        &&& #[trigger] run_events(before, steps)[i] == (LinkEvent::<B> {
            after: (before + i + 1) as nat,
            event: SyncEvent::BlockImported(
                blocks[i].block.header->0.hash,
                blocks[i].block.header->0.number,
            ),
        })
    } by {
        assert(is_step(origin, blocks[i], instant_finality, steps[i]));
        if i == steps.len() - 1 {
            assert(steps.last().outcome is Ok);
        } else {
            assert(steps[i].outcome is Ok);
        }
    }
    if steps.len() > 0 {
        let last = steps.len() - 1;
        assert(is_step(origin, blocks[last], instant_finality, steps[last]));
    }
}

/// A run in which a block failed has imported all blocks before it, and tells of them and
/// then of the failure, and of nothing else.
pub proof fn law_failed_run_tells_of_the_failure_last<B: BlockT, E>(
    origin: BlockOrigin,
    blocks: Seq<BlockData<B>>,
    instant_finality: bool,
    before: nat,
    steps: Seq<ImportStep<B, E>>,
    go_on: bool,
)
    requires
        is_run(origin, blocks, instant_finality, steps),
        run_failed(steps),
    ensures
        is_run(origin, blocks, instant_finality, steps.drop_last()),
        !run_failed(steps.drop_last()),
        batch_events(before, steps, go_on) == run_events(before, steps.drop_last()).push(
            (LinkEvent {
                after: before + run_calls(steps).len(),
                event: outcome_event::<B>(steps.last().outcome),
            }),
        ),
{
    lemma_run_without_last(origin, blocks, instant_finality, steps);
}

/// Synchronization goes on once a whole batch is imported, and only then: this is told at
/// most once for a batch, after everything else, and not where a block failed or the run
/// was stopped.
pub proof fn law_sync_goes_on_after_whole_batch_only<B: BlockT, E>(
    origin: BlockOrigin,
    blocks: Seq<BlockData<B>>,
    instant_finality: bool,
    before: nat,
    steps: Seq<ImportStep<B, E>>,
    go_on: bool,
)
    requires
        is_run(origin, blocks, instant_finality, steps),
    ensures
        forall|i: int|
            0 <= i < batch_events(before, steps, go_on).len() ==> ((#[trigger] batch_events(
                before,
                steps,
                go_on,
            )[i]).event is MaintainSync <==> i == steps.len()),
        batch_events(before, steps, go_on).len() == steps.len() + (if go_on && !run_failed(steps) {
            1int
        } else {
            0
        }),
{
    law_block_is_told_of_before_the_next(origin, blocks, instant_finality, before, steps);
    let some = run_events(before, steps);
    let all = batch_events(before, steps, go_on);
    assert forall|i: int| 0 <= i < all.len() implies ((#[trigger] all[i]).event is MaintainSync
        <==> i == steps.len()) by {
        if i < some.len() {
            assert(all[i] == some[i]);
            law_every_outcome_is_told::<B>(steps[i].outcome);
        }
    }
}

/// A run ends with the first look that gives that the queue is being stopped, and goes on
/// after every other, whatever other threads do to the queue meanwhile. `answers` are what
/// the looks gave, one after each block that was imported: only the last can be that the
/// queue is being stopped, and it is if and only if the run was stopped.
pub proof fn law_run_ends_at_the_first_stop_seen<B: BlockT, E, Q: QueueHandle<B>>(
    seen: Seq<Q>,
    answers: Seq<bool>,
    count: nat,
    steps: Seq<ImportStep<B, E>>,
    go_on: bool,
)
    requires
        may_end(count, steps, go_on),
        are_looks(seen, steps, go_on),
        answers.len() == seen.len() - 1,
        forall|i: int|
            0 < i < seen.len() ==> !(#[trigger] seen[i]).is_look_of(&seen[i - 1], !answers[i - 1]),
    ensures
        answers.len() == steps.len() - (if run_failed(steps) {
            1int
        } else {
            0
        }),
        forall|i: int|
            0 <= i < answers.len() ==> (#[trigger] answers[i] <==> !go_on && i == answers.len()
                - 1),
        !go_on <==> answers.contains(true),
        !answers.contains(true) ==> run_failed(steps) || steps.len() == count,
{
    assert forall|i: int| 0 <= i < answers.len() implies (#[trigger] answers[i] <==> !go_on && i
        == answers.len() - 1) by {
        let after = seen[i + 1];
        assert(after.is_look_of(&seen[i], !go_on && i + 1 == seen.len() - 1));
    }
    if !go_on {
        assert(answers[answers.len() - 1]);
    }
}

/// Looks alone do not change the data of a queue.
pub proof fn lemma_looks_change_nothing<B: BlockT, E>(
    seen: Seq<AsyncImportQueueData<B>>,
    steps: Seq<ImportStep<B, E>>,
    go_on: bool,
    i: int,
)
    requires
        are_looks(seen, steps, go_on),
        0 <= i < seen.len(),
    ensures
        seen[i] == seen[0],
    decreases i,
{
    if i > 0 {
        lemma_looks_change_nothing(seen, steps, go_on, i - 1);
        assert(seen[i].is_look_of(&seen[i - 1], !go_on && i == seen.len() - 1));
    }
}

/// While the queue is being stopped, a run ends after its first block, and the import
/// thread with it, unless that block failed. The client is called at most once.
pub proof fn law_stopping_queue_imports_one_block<B: BlockT, E>(
    seen: Seq<AsyncImportQueueData<B>>,
    batch: Batch<B>,
    instant_finality: bool,
    steps: Seq<ImportStep<B, E>>,
    go_on: bool,
)
    requires
        seen[0]@.is_stopping,
        batch.1@.len() > 0,
        is_run(batch.0, batch.1@, instant_finality, steps),
        may_end(batch.1@.len(), steps, go_on),
        are_looks(seen, steps, go_on),
    ensures
        steps.len() == 1,
        go_on == run_failed(steps),
        run_calls(steps).len() <= 1,
{
    law_client_is_handed_the_first_blocks(batch.0, batch.1@, instant_finality, steps);
    if seen.len() > 1 {
        assert(seen[1].is_look_of(&seen[0], !go_on && 1 == seen.len() - 1));
    }
}

/// Unless the queue is being stopped, a run ends only when all blocks are imported or one
/// has failed, and the import thread goes on.
pub proof fn law_running_queue_goes_on<B: BlockT, E>(
    seen: Seq<AsyncImportQueueData<B>>,
    count: nat,
    steps: Seq<ImportStep<B, E>>,
    go_on: bool,
)
    requires
        !seen[0]@.is_stopping,
        may_end(count, steps, go_on),
        are_looks(seen, steps, go_on),
    ensures
        go_on,
        run_failed(steps) || steps.len() == count,
{
    if !go_on {
        let last = seen.len() - 1;
        lemma_looks_change_nothing(seen, steps, go_on, last - 1);
        assert(seen[last].is_look_of(&seen[last - 1], true));
    }
}

/// A run over no blocks does not call the client, and only lets synchronization go on.
pub proof fn law_run_over_no_blocks<B: BlockT, E>(
    origin: BlockOrigin,
    instant_finality: bool,
    before: nat,
    steps: Seq<ImportStep<B, E>>,
    go_on: bool,
)
    requires
        is_run(origin, Seq::<BlockData<B>>::empty(), instant_finality, steps),
        may_end(0, steps, go_on),
    ensures
        go_on,
        run_calls(steps).len() == 0,
        batch_events(before, steps, go_on) == seq![
            LinkEvent::<B> { after: before, event: SyncEvent::MaintainSync },
        ],
{
    assert(batch_events(before, steps, go_on) =~= seq![
        LinkEvent::<B> { after: before, event: SyncEvent::MaintainSync },
    ]);
}

/// A batch that the import thread is done with no longer counts as importing, but for
/// blocks of it that wait for import once more; the rest of the queue is as before, and the
/// best number is zero if a block failed.
pub proof fn law_finished_batch_leaves_the_queue<B: BlockT, E>(
    seen: Seq<AsyncImportQueueData<B>>,
    imported: AsyncImportQueueData<B>,
    after: AsyncImportQueueData<B>,
    blocks: Seq<BlockData<B>>,
    steps: Seq<ImportStep<B, E>>,
)
    requires
        are_looks(seen, steps, true),
        is_after_run(imported, seen.last(), steps),
        after.is_finish_of(&imported, announced_hashes(blocks)),
    ensures
        after@ == (if run_failed(steps) {
            seen[0]@.reset().finished(announced_hashes(blocks))
        } else {
            seen[0]@.finished(announced_hashes(blocks))
        }),
        forall|i: int|
            0 <= i < blocks.len() ==> (after@.queue_blocks.contains(
                (#[trigger] blocks[i]).block.hash,
            ) <==> seen[0]@.waiting().contains(blocks[i].block.hash)),
{
    let before = seen[0];
    lemma_looks_change_nothing(seen, steps, true, seen.len() - 1);
    let hashes = announced_hashes(blocks);
    assert forall|i: int| 0 <= i < blocks.len() implies (after@.queue_blocks.contains(
        (#[trigger] blocks[i]).block.hash,
    ) <==> before@.waiting().contains(blocks[i].block.hash)) by {
        assert(hashes[i] == blocks[i].block.hash);
        assert(hashes.to_set().contains(hashes[i]));
        assert(imported@.waiting() == before@.waiting());
    }
}

/// A queue without a thread hands the client final blocks if and only if its boolean is not
/// set, and with the origin that they came with: `started` is a new queue with the boolean
/// `finale` that was started with `links`, which lead to a link, and `after` is what it is
/// after an import of `blocks`. What the client was handed before stays as it was.
pub proof fn law_boolean_of_the_queue_decides_finality<B: BlockT, W: WeakLink<B>>(
    finale: bool,
    links: W,
    started: SyncImportQueue<W>,
    after: SyncImportQueue<W>,
    origin: BlockOrigin,
    blocks: Seq<BlockData<B>>,
)
    requires
        started.0 == finale,
        started.1.0 == Some(SyncCallback { finale, links }),
        links.is_known(),
        links.link() matches Some(link) && is_logged(link),
        after.1.0 is Some,
        is_import_over(started.0, (started.1.0->0).links, (after.1.0->0).links, origin, blocks),
    ensures
        (after.1.0->0).links.link() is Some,
        ({
            let before = (links.link()->0).client().imports();
            let handed = ((after.1.0->0).links.link()->0).client().imports();
            &&& before.is_prefix_of(handed)
            &&& handed.len() <= before.len() + blocks.len()
            &&& forall|i: int|
                before.len() <= i < handed.len() ==> (#[trigger] handed[i]).block.finalized
                    == !finale && handed[i].block.origin == origin
        }),
{
    let link = links.link()->0;
    let end = (after.1.0->0).links.link()->0;
    let before = link.client().imports();
    let handed = end.client().imports();
    let steps = choose|steps: Seq<ImportStep<B, LinkError<B, W::Link>>>|
        {
            &&& is_run(origin, blocks, !finale, steps)
            &&& run_failed(steps) || steps.len() == blocks.len()
            &&& #[trigger] is_link_after_run(link, end, steps, true)
        };
    law_client_is_handed_the_first_blocks(origin, blocks, !finale, steps);
    assert forall|i: int| before.len() <= i < handed.len() implies (
    #[trigger] handed[i]).block.finalized == !finale && handed[i].block.origin == origin by {
        assert(handed[i] == run_calls(steps)[i - before.len()]);
    }
}

/// What the import thread has done with one batch.
pub struct Round<B: BlockT, E> {
    /// The batch.
    pub batch: Batch<B>,
    /// The imports of its blocks.
    pub steps: Seq<ImportStep<B, E>>,
}

/// The batches that rounds are over, in order.
pub open spec fn round_batches<B: BlockT, E>(rounds: Seq<Round<B, E>>) -> Seq<Batch<B>> {
    Seq::new(rounds.len(), |i: int| rounds[i].batch)
}

/// The calls that rounds make on the client, oldest first.
pub open spec fn rounds_calls<B: BlockT, E>(rounds: Seq<Round<B, E>>) -> Seq<ImportCall<B, E>>
    decreases rounds.len(),
{
    if rounds.len() == 0 {
        Seq::empty()
    } else {
        rounds_calls(rounds.drop_last()) + run_calls(rounds.last().steps)
    }
}

/// Whether each of `logs` is what the client's log was before one of the `rounds`, and the
/// last is what it is after all of them.
pub open spec fn are_logs_of<B: BlockT, E>(
    logs: Seq<Seq<ImportCall<B, E>>>,
    rounds: Seq<Round<B, E>>,
) -> bool {
    &&& logs.len() == rounds.len() + 1
    &&& forall|i: int|
        0 <= i < rounds.len() ==> logs[i + 1] == logs[i] + run_calls(
            (#[trigger] rounds[i]).steps,
        )
}

/// The part of the last of `logs` in which the calls of round `i` stand.
pub open spec fn segment<B: BlockT, E>(
    logs: Seq<Seq<ImportCall<B, E>>>,
    rounds: Seq<Round<B, E>>,
    i: int,
) -> Seq<ImportCall<B, E>> {
    logs.last().subrange(
        logs[i].len() as int,
        (logs[i].len() + run_calls(rounds[i].steps).len()) as int,
    )
}

/// The log of the client after rounds is what it was before them, followed by the calls of
/// the rounds; the calls of one round stand together in it.
proof fn lemma_rounds_add_up<B: BlockT, E>(
    logs: Seq<Seq<ImportCall<B, E>>>,
    rounds: Seq<Round<B, E>>,
)
    requires
        are_logs_of(logs, rounds),
    ensures
        logs.last() == logs[0] + rounds_calls(rounds),
        forall|i: int|
            0 <= i < rounds.len() ==> {
                &&& logs[i].len() + run_calls((#[trigger] rounds[i]).steps).len() <= logs.last().len()
                &&& segment(logs, rounds, i) == run_calls(rounds[i].steps)
            },
    decreases rounds.len(),
{
    if rounds.len() == 0 {
        assert(logs[0] + rounds_calls(rounds) =~= logs[0]);
    } else {
        let earlier = rounds.drop_last();
        let last = rounds.len() - 1;
        let before = logs.drop_last();
        let calls = run_calls(rounds[last].steps);
        assert forall|i: int| 0 <= i < earlier.len() implies before[i + 1] == before[i] + run_calls(
            (#[trigger] earlier[i]).steps,
        ) by {
            assert(earlier[i] == rounds[i]);
        }
        lemma_rounds_add_up(before, earlier);
        assert(logs.last() == before.last() + calls);
        assert(logs[0] + rounds_calls(earlier) + calls =~= logs[0] + rounds_calls(rounds));
        assert forall|i: int| 0 <= i < rounds.len() implies {
            &&& logs[i].len() + run_calls((#[trigger] rounds[i]).steps).len() <= logs.last().len()
            &&& segment(logs, rounds, i) == run_calls(rounds[i].steps)
        } by {
            if i < last {
                assert(earlier[i] == rounds[i]);
                assert(before[i] == logs[i]);
                assert(segment(logs, rounds, i) =~= segment(before, earlier, i));
            } else {
                assert(segment(logs, rounds, i) =~= calls);
            }
        }
    }
}

/// Batches reach the client in the order in which they were scheduled, one at a time, and
/// each with the origin it was scheduled with: the import thread's rounds are over batches
/// that waited at first or were scheduled since, in order and none twice, and over all of
/// them from the first on unless the queue is cleared; the client is handed what the rounds
/// hand it and nothing else; and the calls of a round stand together, those for the first
/// blocks of its batch, in order.
pub proof fn law_batches_reach_the_client_in_order<B: BlockT, E>(
    start: QueueView<B>,
    ops: Seq<QueueOp<B>>,
    instant_finality: bool,
    rounds: Seq<Round<B, E>>,
    logs: Seq<Seq<ImportCall<B, E>>>,
)
    requires
        rounds.len() <= start.taken_by(ops).len(),
        forall|i: int|
            0 <= i < rounds.len() ==> {
                &&& (#[trigger] rounds[i]).batch == start.taken_by(ops)[i]
                &&& is_run(
                    rounds[i].batch.0,
                    rounds[i].batch.1@,
                    instant_finality,
                    rounds[i].steps,
                )
            },
        are_logs_of(logs, rounds),
    ensures
        exists|places: Seq<int>| #[trigger]
            are_places(places, round_batches(rounds), start.queue + scheduled_by(ops)),
        (forall|k: int| 0 <= k < ops.len() ==> #[trigger] ops[k] !is Clear) ==> forall|i: int|
            0 <= i < rounds.len() ==> (#[trigger] rounds[i]).batch == (start.queue + scheduled_by(
                ops,
            ))[i],
        logs.last() == logs[0] + rounds_calls(rounds),
        forall|i: int|
            0 <= i < rounds.len() ==> {
                &&& logs[i].len() + run_calls((#[trigger] rounds[i]).steps).len()
                    <= logs.last().len()
                &&& segment(logs, rounds, i) == run_calls(rounds[i].steps)
                &&& segment(logs, rounds, i).len() <= rounds[i].batch.1@.len()
            },
        forall|i: int, c: int|
            0 <= i < rounds.len() && 0 <= c < segment(logs, rounds, i).len() ==> is_request_for(
                (#[trigger] segment(logs, rounds, i)[c]).block,
                rounds[i].batch.0,
                rounds[i].batch.1@[c],
                instant_finality,
            ),
{
    let taken = start.taken_by(ops);
    let all = start.queue + scheduled_by(ops);
    law_order_survives_clearing(start, ops);
    let places = choose|places: Seq<int>| #[trigger] are_places(places, taken, all);
    assert(are_places(places.take(rounds.len() as int), round_batches(rounds), all));
    if forall|k: int| 0 <= k < ops.len() ==> #[trigger] ops[k] !is Clear {
        law_first_in_first_out(start, ops);
        assert forall|i: int| 0 <= i < rounds.len() implies (#[trigger] rounds[i]).batch
            == all[i] by {
            assert((taken + start.apply_all(ops).queue)[i] == taken[i]);
        }
    }
    lemma_rounds_add_up(logs, rounds);
    assert forall|i: int| 0 <= i < rounds.len() implies segment(logs, rounds, i).len() <= (
    #[trigger] rounds[i]).batch.1@.len() && forall|c: int|
        0 <= c < segment(logs, rounds, i).len() ==> is_request_for(
            (#[trigger] segment(logs, rounds, i)[c]).block,
            rounds[i].batch.0,
            rounds[i].batch.1@[c],
            instant_finality,
        ) by {
        law_client_is_handed_the_first_blocks(
            rounds[i].batch.0,
            rounds[i].batch.1@,
            instant_finality,
            rounds[i].steps,
        );
    }
}

} // verus!
