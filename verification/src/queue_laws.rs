//! What holds of the data of an import queue, whatever is done to it and in whatever
//! order. As each operation is done under a lock, what several threads do to a queue is
//! such a sequence of operations, however they interleave.

use vstd::prelude::*;

use crate::blocks::{announced_hashes, BlockData};
use crate::client::BlockOrigin;
use crate::data::{
    batch_number, lemma_waiting_one_more, waiting_in, Batch, QueueView, ThreadAction,
};
use crate::message::{BlockNumber, BlockT};

verus! {

/// Something that is done to the data of a queue.
pub enum QueueOp<B: BlockT> {
    /// Blocks are scheduled for import.
    Schedule(BlockOrigin, Vec<BlockData<B>>),
    /// The oldest batch is taken out.
    Take,
    /// The import of blocks with these hashes ends.
    Finish(Seq<B::Hash>),
    /// The import of a block fails.
    Reset,
    /// Everything that waits is dropped.
    Clear,
    /// The import thread is told to end.
    Stop,
}

impl<B: BlockT> QueueView<B> {
    /// The data after one operation.
    pub open spec fn apply(self, op: QueueOp<B>) -> Self {
        match op {
            QueueOp::Schedule(origin, blocks) => self.scheduled(origin, blocks),
            QueueOp::Take => self.taken(),
            QueueOp::Finish(hashes) => self.finished(hashes),
            QueueOp::Reset => self.reset(),
            QueueOp::Clear => self.cleared(),
            QueueOp::Stop => self.stopping(),
        }
    }

    /// The data after operations one after the other.
    pub open spec fn apply_all(self, ops: Seq<QueueOp<B>>) -> Self
        decreases ops.len(),
    {
        if ops.len() == 0 {
            self
        } else {
            self.apply_all(ops.drop_last()).apply(ops.last())
        }
    }

    /// The batches that operations take out, in the order in which they do.
    pub open spec fn taken_by(self, ops: Seq<QueueOp<B>>) -> Seq<Batch<B>>
        decreases ops.len(),
    {
        if ops.len() == 0 {
            Seq::empty()
        } else {
            let before = self.apply_all(ops.drop_last());
            if ops.last() is Take && before.queue.len() > 0 {
                self.taken_by(ops.drop_last()).push(before.queue[0])
            } else {
                self.taken_by(ops.drop_last())
            }
        }
    }

    /// Whether exactly the blocks that wait, and those that are being imported, which
    /// are those with the hashes `in_flight`, count as importing.
    pub open spec fn imports_exactly(self, in_flight: Seq<B::Hash>) -> bool {
        self.queue_blocks == self.waiting().union(in_flight.to_set())
    }

    /// The hashes of the batch that is being imported after operations: the one taken out
    /// last, until its import ends or the queue is cleared.
    pub open spec fn in_flight_after(self, ops: Seq<QueueOp<B>>) -> Seq<B::Hash>
        decreases ops.len(),
    {
        if ops.len() == 0 {
            Seq::empty()
        } else {
            let before = self.apply_all(ops.drop_last());
            match ops.last() {
                QueueOp::Take if before.queue.len() > 0 => announced_hashes(before.queue[0].1@),
                QueueOp::Finish(_) => Seq::empty(),
                QueueOp::Clear => Seq::empty(),
                _ => self.in_flight_after(ops.drop_last()),
            }
        }
    }

    /// Whether operations import one batch at a time: none is taken out before the import
    /// of the one before has ended, and what ends is the import of that batch.
    pub open spec fn orderly(self, ops: Seq<QueueOp<B>>) -> bool
        decreases ops.len(),
    {
        ops.len() > 0 ==> {
            let in_flight = self.in_flight_after(ops.drop_last());
            &&& self.orderly(ops.drop_last())
            &&& match ops.last() {
                QueueOp::Take => in_flight.len() == 0,
                QueueOp::Finish(hashes) => in_flight.to_set().subset_of(hashes.to_set()),
                _ => true,
            }
        }
    }
}

/// The batches that operations schedule, in order. One without blocks is no batch.
pub open spec fn scheduled_by<B: BlockT>(ops: Seq<QueueOp<B>>) -> Seq<Batch<B>>
    decreases ops.len(),
{
    if ops.len() == 0 {
        Seq::empty()
    } else {
        match ops.last() {
            QueueOp::Schedule(origin, blocks) => if blocks@.len() > 0 {
                scheduled_by(ops.drop_last()).push((origin, blocks))
            } else {
                scheduled_by(ops.drop_last())
            },
            _ => scheduled_by(ops.drop_last()),
        }
    }
}

/// Whether `places` says where in `all` the elements of `some` stand, in the same order.
pub open spec fn are_places<T>(places: Seq<int>, some: Seq<T>, all: Seq<T>) -> bool {
    &&& places.len() == some.len()
    &&& forall|i: int|
        0 <= i < places.len() ==> 0 <= #[trigger] places[i] < all.len() && some[i] == all[places[i]]
    &&& forall|i: int, j: int|
        0 <= i < j < places.len() ==> #[trigger] places[i] < #[trigger] places[j]
}

/// The number of a block that has a header.
pub open spec fn block_number<B: BlockT>(block: BlockData<B>) -> nat {
    block.block.header->0.number.as_nat()
}

/// Whether a block has a header with this number.
pub open spec fn has_number<B: BlockT>(block: BlockData<B>, number: B::Number) -> bool {
    block.block.header matches Some(header) && header.number == number
}

/// Finitely many blocks wait.
proof fn lemma_waiting_is_finite<B: BlockT>(batches: Seq<Batch<B>>)
    ensures
        waiting_in(batches).finite(),
    decreases batches.len(),
{
    let last = batches.len() - 1;
    if last < 0 {
        assert(waiting_in(batches) =~= Set::empty());
    } else {
        lemma_waiting_is_finite(batches.take(last));
        lemma_waiting_one_more(batches, last);
        vstd::seq_lib::seq_to_set_is_finite(announced_hashes(batches[last].1@));
        assert(batches.take(last + 1) =~= batches);
    }
}

/// What a queue starts with is valid, and every operation keeps it so: the blocks that
/// count as importing are finitely many, and no batch in the queue is empty.
pub proof fn law_data_stays_valid<B: BlockT>(start: QueueView<B>, ops: Seq<QueueOp<B>>)
    ensures
        QueueView::<B>::initial().valid(),
        start.valid() ==> start.apply_all(ops).valid(),
    decreases ops.len(),
{
    if ops.len() > 0 {
        law_data_stays_valid(start, ops.drop_last());
        let before = start.apply_all(ops.drop_last());
        match ops.last() {
            QueueOp::Schedule(origin, blocks) => {
                vstd::seq_lib::seq_to_set_is_finite(announced_hashes(blocks@));
            },
            QueueOp::Finish(_) => {
                lemma_waiting_is_finite(before.queue);
            },
            _ => {},
        }
    }
}

/// Once the import thread is told to end, nothing revokes that: whatever is done to the
/// queue, the thread ends when it next comes back from an import.
pub proof fn law_stopping_is_final<B: BlockT>(start: QueueView<B>, ops: Seq<QueueOp<B>>)
    requires
        start.is_stopping,
    ensures
        start.apply_all(ops).is_stopping,
        start.apply_all(ops).thread_action(false) is End,
    decreases ops.len(),
{
    if ops.len() > 0 {
        law_stopping_is_final(start, ops.drop_last());
    }
}

/// Batches are taken out whole and in the order in which they were scheduled: as long as
/// the queue is not cleared, what has been taken out, followed by what still waits, is
/// what waited at first, followed by what has been scheduled.
pub proof fn law_first_in_first_out<B: BlockT>(start: QueueView<B>, ops: Seq<QueueOp<B>>)
    requires
        forall|i: int| 0 <= i < ops.len() ==> #[trigger] ops[i] !is Clear,
    ensures
        start.taken_by(ops) + start.apply_all(ops).queue == start.queue + scheduled_by(ops),
    decreases ops.len(),
{
    if ops.len() > 0 {
        let earlier = ops.drop_last();
        assert forall|i: int| 0 <= i < earlier.len() implies #[trigger] earlier[i] !is Clear by {
            assert(earlier[i] == ops[i]);
        }
        law_first_in_first_out(start, earlier);
        let before = start.apply_all(earlier);
        let after = start.apply_all(ops);
        assert(ops.last() !is Clear);
        match ops.last() {
            QueueOp::Schedule(origin, blocks) => {
                if blocks@.len() > 0 {
                    assert(start.taken_by(ops) + after.queue =~= (start.taken_by(earlier)
                        + before.queue).push((origin, blocks)));
                    assert(start.queue + scheduled_by(ops) =~= (start.queue + scheduled_by(
                        earlier,
                    )).push((origin, blocks)));
                }
            },
            QueueOp::Take => {
                if before.queue.len() > 0 {
                    assert(start.taken_by(ops) + after.queue =~= start.taken_by(earlier)
                        + before.queue);
                }
            },
            _ => {},
        }
    } else {
        assert(start.taken_by(ops) + start.queue =~= start.queue + scheduled_by(ops));
    }
}

/// Batches that were taken out stand, in order, before those that still wait, which are the
/// last that were scheduled.
proof fn lemma_places_of_the_taken<B: BlockT>(
    start: QueueView<B>,
    ops: Seq<QueueOp<B>>,
) -> (places: Seq<int>)
    ensures
        are_places(places, start.taken_by(ops), start.queue + scheduled_by(ops)),
        ({
            let all = start.queue + scheduled_by(ops);
            let queue = start.apply_all(ops).queue;
            &&& queue.len() <= all.len()
            &&& queue == all.skip(all.len() - queue.len())
            &&& forall|i: int|
                0 <= i < places.len() ==> #[trigger] places[i] < all.len() - queue.len()
        }),
    decreases ops.len(),
{
    let all = start.queue + scheduled_by(ops);
    let queue = start.apply_all(ops).queue;
    if ops.len() == 0 {
        assert(all =~= start.queue);
        assert(queue =~= all.skip(0));
        Seq::empty()
    } else {
        let earlier = ops.drop_last();
        let places = lemma_places_of_the_taken(start, earlier);
        let known = start.queue + scheduled_by(earlier);
        let waiting = start.apply_all(earlier).queue;
        match ops.last() {
            QueueOp::Schedule(origin, blocks) => {
                if blocks@.len() > 0 {
                    assert(all =~= known.push((origin, blocks)));
                    assert(queue =~= all.skip(all.len() - queue.len()));
                }
                places
            },
            QueueOp::Take => {
                if waiting.len() > 0 {
                    assert(waiting[0] == known[known.len() - waiting.len()]);
                    assert(queue =~= all.skip(all.len() - queue.len()));
                    places.push(known.len() - waiting.len())
                } else {
                    places
                }
            },
            QueueOp::Clear => {
                assert(queue =~= all.skip(all.len() as int));
                places
            },
            _ => places,
        }
    }
}

/// Even where the queue is cleared, batches are taken out whole, none twice, and in the
/// order in which they were scheduled.
pub proof fn law_order_survives_clearing<B: BlockT>(start: QueueView<B>, ops: Seq<QueueOp<B>>)
    ensures
        exists|places: Seq<int>| #[trigger]
            are_places(places, start.taken_by(ops), start.queue + scheduled_by(ops)),
{
    let places = lemma_places_of_the_taken(start, ops);
}

/// The number that a batch is scheduled with is the greatest of its headers: none has a
/// greater one, and unless it is zero, one has it.
pub proof fn law_batch_number_is_the_greatest<B: BlockT>(blocks: Seq<BlockData<B>>)
    ensures
        forall|j: int|
            0 <= j < blocks.len() && (#[trigger] blocks[j]).block.header is Some ==> block_number(
                blocks[j],
            ) <= batch_number(blocks).as_nat(),
        batch_number(blocks) == B::Number::zero_number() || exists|j: int|
            0 <= j < blocks.len() && has_number(#[trigger] blocks[j], batch_number(blocks)),
    decreases blocks.len(),
{
    if blocks.len() > 0 {
        let earlier = blocks.drop_last();
        let last = blocks.len() - 1;
        law_batch_number_is_the_greatest(earlier);
        assert forall|j: int|
            0 <= j < blocks.len() && (#[trigger] blocks[j]).block.header is Some implies block_number(
            blocks[j],
        ) <= batch_number(blocks).as_nat() by {
            if j < last {
                assert(earlier[j] == blocks[j]);
            }
        }
        if batch_number(blocks) == batch_number(earlier) {
            if batch_number(blocks) != B::Number::zero_number() {
                let j = choose|j: int|
                    0 <= j < earlier.len() && has_number(
                        #[trigger] earlier[j],
                        batch_number(earlier),
                    );
                assert(has_number(blocks[j], batch_number(blocks)));
            }
        } else {
            assert(has_number(blocks[last], batch_number(blocks)));
        }
    }
}

/// As long as no import fails and the queue is not cleared, the best number is that of the
/// best block that was ever scheduled: no block had a greater one, and unless it is what it
/// was at first, a block had it.
pub proof fn law_best_number_is_the_highest<B: BlockT>(start: QueueView<B>, ops: Seq<QueueOp<B>>)
    requires
        forall|i: int| 0 <= i < ops.len() ==> #[trigger] ops[i] !is Clear && ops[i] !is Reset,
    ensures
        start.best_importing_number.as_nat() <= start.apply_all(
            ops,
        ).best_importing_number.as_nat(),
        forall|i: int, j: int|
            0 <= i < scheduled_by(ops).len() && 0 <= j < scheduled_by(ops)[i].1@.len()
                && scheduled_by(ops)[i].1@[j].block.header is Some ==> block_number(
                #[trigger] scheduled_by(ops)[i].1@[j],
            ) <= start.apply_all(ops).best_importing_number.as_nat(),
        start.apply_all(ops).best_importing_number == start.best_importing_number || exists|
            i: int,
            j: int,
        |
            0 <= i < scheduled_by(ops).len() && 0 <= j < scheduled_by(ops)[i].1@.len()
                && has_number(
                #[trigger] scheduled_by(ops)[i].1@[j],
                start.apply_all(ops).best_importing_number,
            ),
    decreases ops.len(),
{
    if ops.len() > 0 {
        let earlier = ops.drop_last();
        assert forall|i: int| 0 <= i < earlier.len() implies #[trigger] earlier[i] !is Clear
            && earlier[i] !is Reset by {
            assert(earlier[i] == ops[i]);
        }
        law_best_number_is_the_highest(start, earlier);
        let all = scheduled_by(ops);
        let some = scheduled_by(earlier);
        let before = start.apply_all(earlier).best_importing_number;
        let after = start.apply_all(ops).best_importing_number;
        assert(ops.last() !is Clear && ops.last() !is Reset);
        assert(before.as_nat() <= after.as_nat());
        assert(some.len() <= all.len() <= some.len() + 1);
        assert(forall|i: int| 0 <= i < some.len() ==> #[trigger] all[i] == some[i]);
        assert forall|i: int, j: int|
            0 <= i < all.len() && 0 <= j < all[i].1@.len()
                && all[i].1@[j].block.header is Some implies block_number(
            #[trigger] all[i].1@[j],
        ) <= after.as_nat() by {
            if i < some.len() {
                assert(all[i] == some[i]);
                assert(block_number(some[i].1@[j]) <= before.as_nat());
            } else {
                law_batch_number_is_the_greatest(all[i].1@);
            }
        }
        if after == before {
            if after != start.best_importing_number {
                let (i, j) = choose|i: int, j: int|
                    0 <= i < some.len() && 0 <= j < some[i].1@.len() && has_number(
                        #[trigger] some[i].1@[j],
                        before,
                    );
                assert(all[i] == some[i]);
                assert(has_number(all[i].1@[j], after));
            }
        } else {
            let i = some.len() as int;
            law_batch_number_is_the_greatest(all[i].1@);
            assert(after == batch_number(all[i].1@));
            B::Number::lemma_zero();
            let j = choose|j: int|
                0 <= j < all[i].1@.len() && has_number(#[trigger] all[i].1@[j], after);
            assert(has_number(all[i].1@[j], after));
        }
    }
}

/// No block counts as importing at first.
pub proof fn law_nothing_imports_at_first<B: BlockT>()
    ensures
        QueueView::<B>::initial().imports_exactly(Seq::empty()),
{
    let initial = QueueView::<B>::initial();
    assert(initial.queue_blocks =~= initial.waiting().union(Seq::<B::Hash>::empty().to_set()));
}

/// Scheduling adds the scheduled blocks to those that count as importing, and no other.
pub proof fn law_scheduled_blocks_import<B: BlockT>(
    q: QueueView<B>,
    origin: BlockOrigin,
    blocks: Vec<BlockData<B>>,
    in_flight: Seq<B::Hash>,
)
    ensures
        forall|hash: B::Hash|
            #[trigger] q.scheduled(origin, blocks).queue_blocks.contains(hash) <==> (
            q.queue_blocks.contains(hash) || announced_hashes(blocks@).contains(hash)),
        q.imports_exactly(in_flight) ==> q.scheduled(origin, blocks).imports_exactly(in_flight),
{
    let after = q.scheduled(origin, blocks);
    let hashes = announced_hashes(blocks@);
    if blocks@.len() > 0 {
        assert forall|hash: B::Hash| #[trigger] after.waiting().contains(hash) <==> (
        q.waiting().contains(hash) || hashes.contains(hash)) by {
            if q.waiting().contains(hash) {
                let i = choose|i: int|
                    0 <= i < q.queue.len() && announced_hashes(
                        (#[trigger] q.queue[i]).1@,
                    ).contains(hash);
                assert(after.queue[i] == q.queue[i]);
            }
            if hashes.contains(hash) {
                assert(after.queue[q.queue.len() as int] == (origin, blocks));
            }
            if after.waiting().contains(hash) {
                let i = choose|i: int|
                    0 <= i < after.queue.len() && announced_hashes(
                        (#[trigger] after.queue[i]).1@,
                    ).contains(hash);
                if i < q.queue.len() {
                    assert(after.queue[i] == q.queue[i]);
                }
            }
        }
        if q.imports_exactly(in_flight) {
            assert(after.queue_blocks =~= after.waiting().union(in_flight.to_set()));
        }
    }
}

/// A batch that is taken out goes on counting as importing, while it is imported.
pub proof fn law_taken_blocks_import<B: BlockT>(q: QueueView<B>)
    requires
        q.queue.len() > 0,
    ensures
        q.taken().queue_blocks == q.queue_blocks,
        q.imports_exactly(Seq::empty()) ==> q.taken().imports_exactly(
            announced_hashes(q.queue[0].1@),
        ),
{
    let after = q.taken();
    let hashes = announced_hashes(q.queue[0].1@);
    assert forall|hash: B::Hash| #[trigger] q.waiting().contains(hash) <==> (
    after.waiting().contains(hash) || hashes.contains(hash)) by {
        if q.waiting().contains(hash) {
            let i = choose|i: int|
                0 <= i < q.queue.len() && announced_hashes((#[trigger] q.queue[i]).1@).contains(
                    hash,
                );
            if i > 0 {
                assert(after.queue[i - 1] == q.queue[i]);
            }
        }
        if after.waiting().contains(hash) {
            let i = choose|i: int|
                0 <= i < after.queue.len() && announced_hashes(
                    (#[trigger] after.queue[i]).1@,
                ).contains(hash);
            assert(after.queue[i] == q.queue[i + 1]);
        }
    }
    if q.imports_exactly(Seq::empty()) {
        assert(after.queue_blocks =~= after.waiting().union(hashes.to_set()));
    }
}

/// When the import of blocks ends they no longer count as importing, unless they wait for
/// import, and all others are as before. Exactly the blocks that wait then count.
pub proof fn law_finished_blocks_do_not_import<B: BlockT>(
    q: QueueView<B>,
    in_flight: Seq<B::Hash>,
    hashes: Seq<B::Hash>,
)
    ensures
        forall|hash: B::Hash|
            #[trigger] q.finished(hashes).queue_blocks.contains(hash) <==> (q.waiting().contains(
                hash,
            ) || q.queue_blocks.contains(hash) && !hashes.contains(hash)),
        q.imports_exactly(in_flight) && in_flight.to_set().subset_of(hashes.to_set())
            ==> q.finished(hashes).imports_exactly(Seq::empty()),
{
    let after = q.finished(hashes);
    if q.imports_exactly(in_flight) && in_flight.to_set().subset_of(hashes.to_set()) {
        assert(after.queue_blocks =~= after.waiting().union(Seq::<B::Hash>::empty().to_set()));
    }
}

/// Neither a failed import nor the order to end changes which blocks count as importing;
/// clearing leaves none.
pub proof fn law_other_operations_and_importing<B: BlockT>(
    q: QueueView<B>,
    in_flight: Seq<B::Hash>,
)
    ensures
        q.reset().queue_blocks == q.queue_blocks,
        q.stopping().queue_blocks == q.queue_blocks,
        q.imports_exactly(in_flight) ==> q.reset().imports_exactly(in_flight),
        q.imports_exactly(in_flight) ==> q.stopping().imports_exactly(in_flight),
        q.cleared().imports_exactly(Seq::empty()),
{
    assert(q.reset().waiting() =~= q.waiting());
    assert(q.stopping().waiting() =~= q.waiting());
    assert(q.cleared().queue_blocks =~= q.cleared().waiting().union(
        Seq::<B::Hash>::empty().to_set(),
    ));
}

/// A block counts as importing if and only if it waits in the queue or is being imported,
/// unless the queue was cleared meanwhile, whatever is done to a new queue, one batch at a
/// time.
pub proof fn law_importing_is_exact<B: BlockT>(ops: Seq<QueueOp<B>>)
    requires
        QueueView::<B>::initial().orderly(ops),
    ensures
        QueueView::<B>::initial().apply_all(ops).imports_exactly(
            QueueView::<B>::initial().in_flight_after(ops),
        ),
    decreases ops.len(),
{
    let start = QueueView::<B>::initial();
    if ops.len() == 0 {
        law_nothing_imports_at_first::<B>();
    } else {
        law_importing_is_exact(ops.drop_last());
        let before = start.apply_all(ops.drop_last());
        let in_flight = start.in_flight_after(ops.drop_last());
        match ops.last() {
            QueueOp::Schedule(origin, blocks) => {
                law_scheduled_blocks_import(before, origin, blocks, in_flight);
            },
            QueueOp::Take => {
                assert(in_flight =~= Seq::empty());
                if before.queue.len() > 0 {
                    law_taken_blocks_import(before);
                }
            },
            QueueOp::Finish(hashes) => {
                law_finished_blocks_do_not_import(before, in_flight, hashes);
            },
            _ => {
                law_other_operations_and_importing(before, in_flight);
            },
        }
    }
}

/// The end of an import undoes what scheduling did: where nothing else waits and none of
/// the blocks counted as importing, the same blocks do as before they were scheduled.
pub proof fn law_import_undoes_scheduling<B: BlockT>(
    q: QueueView<B>,
    origin: BlockOrigin,
    blocks: Vec<BlockData<B>>,
)
    requires
        q.queue.len() == 0,
        announced_hashes(blocks@).to_set().disjoint(q.queue_blocks),
    ensures
        q.scheduled(origin, blocks).taken().finished(announced_hashes(blocks@)).queue_blocks
            == q.queue_blocks,
{
    let taken = q.scheduled(origin, blocks).taken();
    assert(taken.queue.len() == 0);
    assert(taken.finished(announced_hashes(blocks@)).queue_blocks =~= q.queue_blocks);
}

/// Scheduling adds at most its blocks to the count of importing blocks, and exactly that
/// many where no hash occurs twice.
pub proof fn law_importing_count<B: BlockT>(
    q: QueueView<B>,
    origin: BlockOrigin,
    blocks: Vec<BlockData<B>>,
)
    requires
        q.valid(),
    ensures
        q.queue_blocks.len() <= q.scheduled(origin, blocks).queue_blocks.len()
            <= q.queue_blocks.len() + blocks@.len(),
        announced_hashes(blocks@).no_duplicates() && announced_hashes(blocks@).to_set().disjoint(
            q.queue_blocks,
        ) ==> q.scheduled(origin, blocks).queue_blocks.len() == q.queue_blocks.len()
            + blocks@.len(),
{
    let hashes = announced_hashes(blocks@);
    vstd::seq_lib::seq_to_set_is_finite(hashes);
    hashes.lemma_cardinality_of_set();
    vstd::set_lib::lemma_len_union(q.queue_blocks, hashes.to_set());
    vstd::set_lib::lemma_len_union_ind(q.queue_blocks, hashes.to_set());
    if hashes.no_duplicates() && hashes.to_set().disjoint(q.queue_blocks) {
        hashes.unique_seq_to_set();
        vstd::set_lib::lemma_set_disjoint_lens(q.queue_blocks, hashes.to_set());
    }
}

/// Clearing leaves the data of a new queue, but for the order to end. To clear again
/// changes nothing.
pub proof fn law_cleared_is_new<B: BlockT>(q: QueueView<B>)
    ensures
        !q.is_stopping ==> q.cleared() == QueueView::<B>::initial(),
        q.is_stopping ==> q.cleared() == QueueView::<B>::initial().stopping(),
        q.cleared().cleared() == q.cleared(),
        q.cleared().queue_blocks.len() == 0,
{
}

/// The import thread waits only where nothing is queued, and never twice in a row: woken, it
/// imports or ends. It imports the oldest batch, and ends only where the queue is being
/// stopped or it has been woken for nothing.
pub proof fn law_thread_waits_for_a_batch<B: BlockT>(q: QueueView<B>, woken: bool)
    ensures
        q.thread_action(woken) is Wait <==> !woken && !q.is_stopping && q.queue.len() == 0,
        q.thread_action(woken) is End <==> (if woken {
            q.queue.len() == 0
        } else {
            q.is_stopping
        }),
        q.thread_action(woken) matches ThreadAction::Import(batch) ==> {
            &&& q.queue.len() > 0
            &&& batch == q.queue[0]
        },
{
}

/// A stopped queue holds nothing, and stays as it is when it is stopped again. Its import
/// thread ends, whether it waits or not.
pub proof fn law_stopped_holds_nothing<B: BlockT>(q: QueueView<B>)
    ensures
        q.cleared().stopping() == QueueView::<B>::initial().stopping(),
        q.cleared().stopping().cleared() == q.cleared().stopping(),
        q.cleared().stopping().cleared().stopping() == q.cleared().stopping(),
        forall|woken: bool| #[trigger] q.cleared().stopping().thread_action(woken) is End,
{
}

/// Scheduling no blocks changes nothing.
pub proof fn law_empty_batch_is_ignored<B: BlockT>(
    q: QueueView<B>,
    origin: BlockOrigin,
    blocks: Vec<BlockData<B>>,
)
    requires
        blocks@.len() == 0,
    ensures
        q.scheduled(origin, blocks) == q,
{
}

} // verus!
