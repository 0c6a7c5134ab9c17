//! What holds of every operation on the data of an import queue and on the queue that owns
//! it, field by field. Each law speaks of a call by its arguments and its result.

use vstd::prelude::*;

use crate::blocks::{announced_hashes, block_hashes, blocks_range, BlockData};
use crate::client::BlockOrigin;
use crate::data::{
    batch_number, AsyncImportQueueData, Batch, QueueHandle, QueueView, ThreadAction,
};
use crate::message::{BlockNumber, BlockT};
use crate::queue::{BasicQueue, ImportQueue, ImportQueueStatus};
use crate::queue_laws::{has_number, law_batch_number_is_the_greatest, QueueOp};

verus! {

/// Block numbers compare as the machine numbers that they are.
pub proof fn law_numbers_compare_by_value(
    a: u64,
    b: u64,
    c: u32,
    d: u32,
    more: bool,
    greater: bool,
)
    requires
        call_ensures(<u64 as BlockNumber>::exceeds, (a, b), more),
        call_ensures(<u32 as BlockNumber>::exceeds, (c, d), greater),
    ensures
        more == (a > b),
        greater == (c > d),
        a.as_nat() == a,
        c.as_nat() == c,
{
}

/// The number zero is the machine number zero.
pub proof fn law_zero_is_zero(a: u64, b: u32)
    requires
        call_ensures(<u64 as BlockNumber>::zero, (), a),
        call_ensures(<u32 as BlockNumber>::zero, (), b),
    ensures
        a == 0,
        b == 0,
        <u64 as BlockNumber>::zero_number() == 0,
        <u32 as BlockNumber>::zero_number() == 0,
{
}

/// The hashes of blocks are those under which they were announced, one for each block and in
/// order.
pub proof fn law_hashes_are_those_announced<B: BlockT>(
    blocks: &Vec<BlockData<B>>,
    hashes: Vec<B::Hash>,
)
    requires
        call_ensures(block_hashes::<B>, (blocks,), hashes),
    ensures
        hashes@.len() == blocks@.len(),
        forall|i: int| 0 <= i < blocks@.len() ==> #[trigger] hashes@[i] == blocks@[i].block.hash,
{
}

/// The range of blocks goes from the number of the first to that of the last, and is unknown
/// where one of the two has no header.
pub proof fn law_range_is_that_of_the_outer_blocks<B: BlockT>(
    blocks: &Vec<BlockData<B>>,
    range: Option<(B::Number, B::Number)>,
)
    requires
        call_ensures(blocks_range::<B>, (blocks,), range),
    ensures
        range is Some <==> blocks@.len() > 0 && blocks@[0].block.header is Some
            && blocks@[blocks@.len() - 1].block.header is Some,
        range matches Some((first, last)) ==> {
            &&& first == blocks@[0].block.header->0.number
            &&& last == blocks@[blocks@.len() - 1].block.header->0.number
        },
{
}

/// Nothing waits in new data, nothing counts as importing, the best number is zero, and the
/// import thread is not told to end.
pub proof fn law_new_data_is_empty<B: BlockT>(data: AsyncImportQueueData<B>)
    requires
        call_ensures(AsyncImportQueueData::<B>::new, (), data),
    ensures
        data.queue@.len() == 0,
        forall|hash: B::Hash| !(#[trigger] data.queue_blocks@.contains(hash)),
        data.best_importing_number == B::Number::zero_number(),
        !data.is_stopping,
{
    let view = data@;
}

/// Clearing leaves what is in new data, and does not touch the order to end.
pub proof fn law_clearing_drops_everything<B: BlockT>(data: &mut AsyncImportQueueData<B>, done: ())
    requires
        call_ensures(AsyncImportQueueData::<B>::clear, (data,), done),
    ensures
        final(data).queue@.len() == 0,
        forall|hash: B::Hash| !(#[trigger] final(data).queue_blocks@.contains(hash)),
        final(data).best_importing_number == B::Number::zero_number(),
        final(data).is_stopping == old(data).is_stopping,
{
    let view = final(data)@;
}

/// A batch that is scheduled waits, whole and with its origin, behind all others. Its blocks
/// count as importing besides those that did before. The best number is the greatest of what
/// it was and of the numbers of the batch. A batch without blocks changes nothing, and nobody
/// is woken for it.
pub proof fn law_scheduled_batch_waits<B: BlockT>(
    data: &mut AsyncImportQueueData<B>,
    origin: BlockOrigin,
    blocks: Vec<BlockData<B>>,
    signal: bool,
)
    requires
        call_ensures(AsyncImportQueueData::<B>::import_blocks, (data, origin, blocks), signal),
    ensures
        signal == (blocks@.len() > 0),
        blocks@.len() == 0 ==> {
            &&& final(data).queue@ == old(data).queue@
            &&& final(data).queue_blocks@ == old(data).queue_blocks@
            &&& final(data).best_importing_number == old(data).best_importing_number
        },
        blocks@.len() > 0 ==> final(data).queue@ == old(data).queue@.push((origin, blocks)),
        forall|hash: B::Hash| #[trigger]
            final(data).queue_blocks@.contains(hash) <==> old(data).queue_blocks@.contains(hash)
                || exists|i: int|
                0 <= i < blocks@.len() && (#[trigger] blocks@[i]).block.hash == hash,
        old(data).best_importing_number.as_nat() <= final(data).best_importing_number.as_nat(),
        forall|i: int|
            0 <= i < blocks@.len() && (#[trigger] blocks@[i]).block.header is Some
                ==> blocks@[i].block.header->0.number.as_nat()
                <= final(data).best_importing_number.as_nat(),
        final(data).best_importing_number == old(data).best_importing_number || exists|i: int|
            0 <= i < blocks@.len() && (#[trigger] blocks@[i]).block.header is Some
                && blocks@[i].block.header->0.number == final(data).best_importing_number,
        final(data).is_stopping == old(data).is_stopping,
{
    let before = old(data)@;
    let after = final(data)@;
    if blocks@.len() > 0 {
        lemma_scheduled(before, after, origin, blocks);
    }
    assert forall|hash: B::Hash| #[trigger]
        final(data).queue_blocks@.contains(hash) <==> old(data).queue_blocks@.contains(hash)
            || exists|i: int|
            0 <= i < blocks@.len() && (#[trigger] blocks@[i]).block.hash == hash by {
        assert(after.queue_blocks.contains(hash) == final(data).queue_blocks@.contains(hash));
    }
}

/// The oldest batch is taken out, whole, and the others keep their order; nothing else
/// changes. From an empty queue nothing is taken.
pub proof fn law_oldest_batch_is_taken<B: BlockT>(
    data: &mut AsyncImportQueueData<B>,
    batch: Option<Batch<B>>,
)
    requires
        call_ensures(AsyncImportQueueData::<B>::take_batch, (data,), batch),
    ensures
        batch is Some <==> old(data).queue@.len() > 0,
        batch is None ==> final(data).queue@ == old(data).queue@,
        batch matches Some(batch) ==> old(data).queue@ == seq![batch] + final(data).queue@,
        final(data).queue_blocks@ == old(data).queue_blocks@,
        final(data).best_importing_number == old(data).best_importing_number,
        final(data).is_stopping == old(data).is_stopping,
{
    let before = old(data)@;
    let after = final(data)@;
    if before.queue.len() > 0 {
        assert(before.queue =~= seq![before.queue[0]] + after.queue);
    }
}

/// The import thread imports the oldest batch, which leaves the queue, unless it comes back
/// from an import while the queue is being stopped. Where there is no batch it waits, but
/// ends if it has just been woken from that. Nothing else changes by asking.
pub proof fn law_thread_takes_the_oldest_batch<B: BlockT>(
    data: &mut AsyncImportQueueData<B>,
    woken: bool,
    action: ThreadAction<B>,
)
    requires
        call_ensures(AsyncImportQueueData::<B>::thread_action, (data, woken), action),
    ensures
        action is Import <==> old(data).queue@.len() > 0 && (woken || !old(data).is_stopping),
        action is Wait <==> old(data).queue@.len() == 0 && !woken && !old(data).is_stopping,
        action is End <==> (if woken {
            old(data).queue@.len() == 0
        } else {
            old(data).is_stopping
        }),
        match action {
            ThreadAction::Import(batch) => old(data).queue@ == seq![batch] + final(data).queue@,
            _ => final(data).queue@ == old(data).queue@,
        },
        final(data).queue_blocks@ == old(data).queue_blocks@,
        final(data).best_importing_number == old(data).best_importing_number,
        final(data).is_stopping == old(data).is_stopping,
{
    let before = old(data)@;
    let after = final(data)@;
    if before.queue.len() > 0 {
        assert(before.queue =~= seq![before.queue[0]] + before.queue.drop_first());
    }
}

/// The order to end is given, and nothing else changes by it.
pub proof fn law_order_to_end_is_given<B: BlockT>(data: &mut AsyncImportQueueData<B>, done: ())
    requires
        call_ensures(AsyncImportQueueData::<B>::request_stop, (data,), done),
    ensures
        final(data).is_stopping,
        final(data).queue@ == old(data).queue@,
        final(data).queue_blocks@ == old(data).queue_blocks@,
        final(data).best_importing_number == old(data).best_importing_number,
{
    let before = old(data)@;
    let after = final(data)@;
}

/// A look whether the queue is being stopped gives whether the order to end was given, and
/// changes nothing.
pub proof fn law_look_gives_the_order<B: BlockT>(
    data: &mut AsyncImportQueueData<B>,
    stopping: bool,
)
    requires
        call_ensures(
            <AsyncImportQueueData<B> as QueueHandle<B>>::is_stopping,
            (data,),
            stopping,
        ),
    ensures
        stopping == old(data).is_stopping,
        *final(data) == *old(data),
{
}

/// A failed import sets the best number to zero, and changes nothing else.
pub proof fn law_failure_resets_the_best_number<B: BlockT>(
    data: &mut AsyncImportQueueData<B>,
    done: (),
)
    requires
        call_ensures(
            <AsyncImportQueueData<B> as QueueHandle<B>>::reset_best_importing_number,
            (data,),
            done,
        ),
    ensures
        final(data).best_importing_number == B::Number::zero_number(),
        final(data).queue@ == old(data).queue@,
        final(data).queue_blocks@ == old(data).queue_blocks@,
        final(data).is_stopping == old(data).is_stopping,
{
    let before = old(data)@;
    let after = final(data)@;
}

/// When an import ends its hashes no longer count as importing, but for those of blocks that
/// wait, which do in any case; all others count as before. Nothing else changes: what waits
/// goes on waiting, and the import thread is not told to end.
pub proof fn law_finished_hashes_stop_counting<B: BlockT>(
    data: &mut AsyncImportQueueData<B>,
    hashes: &Vec<B::Hash>,
    done: (),
)
    requires
        call_ensures(
            <AsyncImportQueueData<B> as QueueHandle<B>>::finish_blocks,
            (data, hashes),
            done,
        ),
    ensures
        forall|hash: B::Hash| #[trigger]
            final(data).queue_blocks@.contains(hash) <==> {
                ||| exists|i: int, j: int|
                    0 <= i < old(data).queue@.len() && 0 <= j < old(data).queue@[i].1@.len()
                        && (#[trigger] old(data).queue@[i].1@[j]).block.hash == hash
                ||| old(data).queue_blocks@.contains(hash) && !hashes@.contains(hash)
            },
        final(data).queue@ == old(data).queue@,
        final(data).best_importing_number == old(data).best_importing_number,
        final(data).is_stopping == old(data).is_stopping,
{
    let before = old(data)@;
    let after = final(data)@;
    assert forall|hash: B::Hash| #[trigger]
        final(data).queue_blocks@.contains(hash) <==> {
            ||| exists|i: int, j: int|
                0 <= i < old(data).queue@.len() && 0 <= j < old(data).queue@[i].1@.len()
                    && (#[trigger] old(data).queue@[i].1@[j]).block.hash == hash
            ||| old(data).queue_blocks@.contains(hash) && !hashes@.contains(hash)
        } by {
        lemma_waiting_blocks(before, hash);
        assert(after.queue_blocks.contains(hash) == final(data).queue_blocks@.contains(hash));
    }
}

/// A hash is one of those that wait if and only if a block in the queue was announced under
/// it.
pub proof fn lemma_waiting_blocks<B: BlockT>(q: QueueView<B>, hash: B::Hash)
    ensures
        q.waiting().contains(hash) <==> exists|i: int, j: int|
            0 <= i < q.queue.len() && 0 <= j < q.queue[i].1@.len() && (
            #[trigger] q.queue[i].1@[j]).block.hash == hash,
{
    if q.waiting().contains(hash) {
        let i = choose|i: int|
            0 <= i < q.queue.len() && announced_hashes(
                (#[trigger] q.queue[i]).1@,
            ).contains(hash);
        let hashes = announced_hashes(q.queue[i].1@);
        let j = choose|j: int| 0 <= j < hashes.len() && hashes[j] == hash;
        assert(q.queue[i].1@[j].block.hash == hash);
    }
    if exists|i: int, j: int|
        0 <= i < q.queue.len() && 0 <= j < q.queue[i].1@.len() && (
        #[trigger] q.queue[i].1@[j]).block.hash == hash {
        let (i, j) = choose|i: int, j: int|
            0 <= i < q.queue.len() && 0 <= j < q.queue[i].1@.len() && (
            #[trigger] q.queue[i].1@[j]).block.hash == hash;
        let hashes = announced_hashes(q.queue[i].1@);
        assert(hashes[j] == hash);
        assert(hashes.contains(hash));
    }
}

/// What scheduling does to the data of a queue.
proof fn lemma_scheduled<B: BlockT>(
    before: QueueView<B>,
    after: QueueView<B>,
    origin: BlockOrigin,
    blocks: Vec<BlockData<B>>,
)
    requires
        after == before.scheduled(origin, blocks),
        blocks@.len() > 0,
    ensures
        after.queue == before.queue.push((origin, blocks)),
        forall|hash: B::Hash| #[trigger]
            after.queue_blocks.contains(hash) <==> before.queue_blocks.contains(hash) || exists|
                i: int,
            |
                0 <= i < blocks@.len() && (#[trigger] blocks@[i]).block.hash == hash,
        before.best_importing_number.as_nat() <= after.best_importing_number.as_nat(),
        forall|i: int|
            0 <= i < blocks@.len() && (#[trigger] blocks@[i]).block.header is Some
                ==> blocks@[i].block.header->0.number.as_nat()
                <= after.best_importing_number.as_nat(),
        after.best_importing_number == before.best_importing_number || exists|i: int|
            0 <= i < blocks@.len() && (#[trigger] blocks@[i]).block.header is Some
                && blocks@[i].block.header->0.number == after.best_importing_number,
        after.is_stopping == before.is_stopping,
{
    let hashes = announced_hashes(blocks@);
    assert forall|hash: B::Hash| #[trigger]
        after.queue_blocks.contains(hash) <==> before.queue_blocks.contains(hash) || exists|i: int|
            0 <= i < blocks@.len() && (#[trigger] blocks@[i]).block.hash == hash by {
        if hashes.contains(hash) {
            let i = choose|i: int| 0 <= i < hashes.len() && hashes[i] == hash;
            assert(blocks@[i].block.hash == hash);
        }
        if exists|i: int| 0 <= i < blocks@.len() && (#[trigger] blocks@[i]).block.hash == hash {
            let i = choose|i: int|
                0 <= i < blocks@.len() && (#[trigger] blocks@[i]).block.hash == hash;
            assert(hashes[i] == hash);
            assert(hashes.contains(hash));
        }
    }
    law_batch_number_is_the_greatest(blocks@);
    B::Number::lemma_zero();
    if after.best_importing_number != before.best_importing_number {
        let i = choose|i: int|
            0 <= i < blocks@.len() && has_number(#[trigger] blocks@[i], batch_number(blocks@));
        assert(blocks@[i].block.header->0.number == after.best_importing_number);
    }
}

/// The order to end comes from nothing but itself: whatever else is done to the data of a
/// queue, and however often, the order stands if it stood, and does not if it did not.
pub proof fn law_only_the_order_ends_the_thread<B: BlockT>(
    start: QueueView<B>,
    ops: Seq<QueueOp<B>>,
)
    requires
        forall|i: int| 0 <= i < ops.len() ==> #[trigger] ops[i] !is Stop,
    ensures
        start.apply_all(ops).is_stopping == start.is_stopping,
    decreases ops.len(),
{
    if ops.len() > 0 {
        let earlier = ops.drop_last();
        assert forall|i: int| 0 <= i < earlier.len() implies #[trigger] earlier[i] !is Stop by {
            assert(earlier[i] == ops[i]);
        }
        law_only_the_order_ends_the_thread(start, earlier);
        assert(ops.last() !is Stop);
    }
}

/// A queue that was not told to end never ends its thread when that comes back from an
/// import: however many batches have been scheduled, taken and finished, it waits where
/// nothing is queued, and else imports what has waited longest.
pub proof fn law_thread_goes_on_until_told_to_end<B: BlockT>(
    start: QueueView<B>,
    ops: Seq<QueueOp<B>>,
)
    requires
        !start.is_stopping,
        forall|i: int| 0 <= i < ops.len() ==> #[trigger] ops[i] !is Stop,
    ensures
        start.apply_all(ops).queue.len() == 0 ==> start.apply_all(ops).thread_action(false)
            == ThreadAction::<B>::Wait,
        start.apply_all(ops).queue.len() > 0 ==> start.apply_all(ops).thread_action(false)
            == ThreadAction::<B>::Import(start.apply_all(ops).queue[0]),
{
    law_only_the_order_ends_the_thread(start, ops);
}

/// A new queue has no thread and empty data, and the finality that it is made with.
pub proof fn law_new_queue_is_idle<B: BlockT, T>(instant_finality: bool, queue: BasicQueue<B, T>)
    requires
        call_ensures(BasicQueue::<B, T>::new, (instant_finality,), queue),
    ensures
        queue.handle is None,
        queue.instant_finality == instant_finality,
        queue.data.queue@.len() == 0,
        forall|hash: B::Hash| !(#[trigger] queue.data.queue_blocks@.contains(hash)),
        queue.data.best_importing_number == B::Number::zero_number(),
        !queue.data.is_stopping,
{
    let view = queue.data@;
}

/// A queue that is started has the thread that it was started with last, and goes on with the
/// data that it had.
pub proof fn law_started_queue_has_its_thread<B: BlockT, T>(
    queue: &mut BasicQueue<B, T>,
    thread: T,
    done: (),
)
    requires
        call_ensures(BasicQueue::<B, T>::start_with, (queue, thread), done),
    ensures
        final(queue).handle == Some(thread),
        final(queue).instant_finality == old(queue).instant_finality,
        final(queue).data.queue@ == old(queue).data.queue@,
        final(queue).data.queue_blocks@ == old(queue).data.queue_blocks@,
        final(queue).data.best_importing_number == old(queue).data.best_importing_number,
        final(queue).data.is_stopping == old(queue).data.is_stopping,
{
}

/// Clearing a queue drops everything that waits, and leaves its thread alone.
pub proof fn law_cleared_queue_keeps_its_thread<B: BlockT, T>(
    queue: &mut BasicQueue<B, T>,
    done: (),
)
    requires
        call_ensures(<BasicQueue<B, T> as ImportQueue<B>>::clear, (queue,), done),
    ensures
        final(queue).handle == old(queue).handle,
        final(queue).instant_finality == old(queue).instant_finality,
        final(queue).data.queue@.len() == 0,
        forall|hash: B::Hash| !(#[trigger] final(queue).data.queue_blocks@.contains(hash)),
        final(queue).data.best_importing_number == B::Number::zero_number(),
        final(queue).data.is_stopping == old(queue).data.is_stopping,
{
    let view = final(queue).data@;
}

/// Stopping a queue drops everything that waits and hands out its thread, which is told to
/// end. Where there is no thread nobody is told.
pub proof fn law_stopped_queue_ends_its_thread<B: BlockT, T>(
    queue: &mut BasicQueue<B, T>,
    background: Option<T>,
)
    requires
        call_ensures(<BasicQueue<B, T> as ImportQueue<B>>::stop, (queue,), background),
    ensures
        background == old(queue).handle,
        final(queue).handle is None,
        final(queue).instant_finality == old(queue).instant_finality,
        final(queue).data.queue@.len() == 0,
        forall|hash: B::Hash| !(#[trigger] final(queue).data.queue_blocks@.contains(hash)),
        final(queue).data.best_importing_number == B::Number::zero_number(),
        final(queue).data.is_stopping == (old(queue).handle is Some || old(
            queue,
        ).data.is_stopping),
{
    let view = final(queue).data@;
}

/// The status of a queue counts the blocks that count as importing, and gives the best
/// number.
pub proof fn law_status_is_that_of_the_data<B: BlockT, T>(
    queue: &BasicQueue<B, T>,
    status: ImportQueueStatus<B>,
)
    requires
        call_ensures(<BasicQueue<B, T> as ImportQueue<B>>::status, (queue,), status),
    ensures
        status.importing_count == queue.data.queue_blocks@.len(),
        status.best_importing_number == queue.data.best_importing_number,
{
    let view = queue.data@;
}

/// A block is importing if and only if its hash counts as importing.
pub proof fn law_importing_is_what_counts<B: BlockT, T>(
    queue: &BasicQueue<B, T>,
    hash: &B::Hash,
    importing: bool,
)
    requires
        call_ensures(<BasicQueue<B, T> as ImportQueue<B>>::is_importing, (queue, hash), importing),
    ensures
        importing == queue.data.queue_blocks@.contains(*hash),
{
    let view = queue.data@;
}

/// A queue schedules a batch in its data, as that does, and leaves its thread alone.
pub proof fn law_queue_schedules_batches<B: BlockT, T>(
    queue: &mut BasicQueue<B, T>,
    origin: BlockOrigin,
    blocks: Vec<BlockData<B>>,
    signal: bool,
)
    requires
        call_ensures(
            <BasicQueue<B, T> as ImportQueue<B>>::import_blocks,
            (queue, origin, blocks),
            signal,
        ),
    ensures
        final(queue).handle == old(queue).handle,
        final(queue).instant_finality == old(queue).instant_finality,
        signal == (blocks@.len() > 0),
        blocks@.len() == 0 ==> {
            &&& final(queue).data.queue@ == old(queue).data.queue@
            &&& final(queue).data.queue_blocks@ == old(queue).data.queue_blocks@
            &&& final(queue).data.best_importing_number == old(queue).data.best_importing_number
        },
        blocks@.len() > 0 ==> final(queue).data.queue@ == old(queue).data.queue@.push((origin, blocks)),
        forall|hash: B::Hash| #[trigger]
            final(queue).data.queue_blocks@.contains(hash) <==> old(queue).data.queue_blocks@.contains(hash)
                || exists|i: int|
                0 <= i < blocks@.len() && (#[trigger] blocks@[i]).block.hash == hash,
        old(queue).data.best_importing_number.as_nat() <= final(queue).data.best_importing_number.as_nat(),
        forall|i: int|
            0 <= i < blocks@.len() && (#[trigger] blocks@[i]).block.header is Some
                ==> blocks@[i].block.header->0.number.as_nat()
                <= final(queue).data.best_importing_number.as_nat(),
        final(queue).data.best_importing_number == old(queue).data.best_importing_number || exists|i: int|
            0 <= i < blocks@.len() && (#[trigger] blocks@[i]).block.header is Some
                && blocks@[i].block.header->0.number == final(queue).data.best_importing_number,
        final(queue).data.is_stopping == old(queue).data.is_stopping,
{
    let before = old(queue).data@;
    let after = final(queue).data@;
    if blocks@.len() > 0 {
        lemma_scheduled(before, after, origin, blocks);
    }
    assert forall|hash: B::Hash| #[trigger]
        final(queue).data.queue_blocks@.contains(hash) <==> old(queue).data.queue_blocks@.contains(hash)
            || exists|i: int|
            0 <= i < blocks@.len() && (#[trigger] blocks@[i]).block.hash == hash by {
        assert(after.queue_blocks.contains(hash) == final(queue).data.queue_blocks@.contains(hash));
    }
}

} // verus!
