//! The data of an import queue that the import thread shares with its users.

use std::collections::{HashSet, VecDeque};
use vstd::prelude::*;
use vstd::std_specs::hash::obeys_key_model;

use crate::blocks::{announced_hashes, block_hashes, BlockData};
use crate::client::BlockOrigin;
use crate::message::{BlockNumber, BlockT};

verus! {

/// A batch of blocks that were scheduled together, and where they come from.
pub type Batch<B> = (BlockOrigin, Vec<BlockData<B>>);

/// What the import thread is to do next.
#[derive(Debug)]
pub enum ThreadAction<B: BlockT> {
    /// End.
    End,
    /// Wait for a signal.
    Wait,
    /// Import this batch.
    Import(Batch<B>),
}

/// The data of an import queue.
#[verifier::ext_equal]
pub struct QueueView<B: BlockT> {
    /// The batches that wait for import, oldest first.
    pub queue: Seq<Batch<B>>,
    /// The hashes of the blocks that wait for import or are being imported.
    pub queue_blocks: Set<B::Hash>,
    /// The number of the best block that was scheduled since start or last failure.
    pub best_importing_number: B::Number,
    /// Whether the import thread is to end.
    pub is_stopping: bool,
}

/// The number that a batch is scheduled with: the greatest that a header among its blocks
/// has, or zero where none has a header.
pub open spec fn batch_number<B: BlockT>(blocks: Seq<BlockData<B>>) -> B::Number
    decreases blocks.len(),
{
    if blocks.len() == 0 {
        B::Number::zero_number()
    } else {
        let earlier = batch_number(blocks.drop_last());
        match blocks.last().block.header {
            Some(header) if header.number.as_nat() > earlier.as_nat() => header.number,
            _ => earlier,
        }
    }
}

/// The hashes under which the blocks of these batches were announced.
pub open spec fn waiting_in<B: BlockT>(batches: Seq<Batch<B>>) -> Set<B::Hash> {
    Set::new(
        |hash: B::Hash|
            exists|i: int|
                0 <= i < batches.len() && announced_hashes(
                    (#[trigger] batches[i]).1@,
                ).contains(hash),
    )
}

impl<B: BlockT> QueueView<B> {
    /// The data of a queue to which nothing has happened.
    pub open spec fn initial() -> Self {
        QueueView {
            queue: Seq::empty(),
            queue_blocks: Set::empty(),
            best_importing_number: B::Number::zero_number(),
            is_stopping: false,
        }
    }

    /// Whether this can be the data of a queue: the blocks that count as importing are
    /// finitely many, and no batch is empty.
    pub open spec fn valid(self) -> bool {
        &&& self.queue_blocks.finite()
        &&& forall|i: int| 0 <= i < self.queue.len() ==> (#[trigger] self.queue[i]).1@.len() > 0
    }

    /// The data after `blocks` have been scheduled.
    pub open spec fn scheduled(self, origin: BlockOrigin, blocks: Vec<BlockData<B>>) -> Self {
        if blocks@.len() == 0 {
            self
        } else {
            QueueView {
                queue: self.queue.push((origin, blocks)),
                queue_blocks: self.queue_blocks.union(announced_hashes(blocks@).to_set()),
                best_importing_number: if batch_number(blocks@).as_nat()
                    > self.best_importing_number.as_nat() {
                    batch_number(blocks@)
                } else {
                    self.best_importing_number
                },
                is_stopping: self.is_stopping,
            }
        }
    }

    /// The data after the oldest batch, if there is one, has been taken out.
    pub open spec fn taken(self) -> Self {
        if self.queue.len() == 0 {
            self
        } else {
            QueueView { queue: self.queue.drop_first(), ..self }
        }
    }

    /// The hashes under which the blocks that wait for import were announced.
    pub open spec fn waiting(self) -> Set<B::Hash> {
        waiting_in(self.queue)
    }

    /// The data after the import of blocks with these hashes has ended. A block that waits
    /// for import, once more or still, goes on counting as importing.
    pub open spec fn finished(self, hashes: Seq<B::Hash>) -> Self {
        QueueView {
            queue_blocks: self.queue_blocks.difference(hashes.to_set()).union(self.waiting()),
            ..self
        }
    }

    /// The data after the import of a block has failed.
    pub open spec fn reset(self) -> Self {
        QueueView { best_importing_number: B::Number::zero_number(), ..self }
    }

    /// The data after everything that waits has been dropped.
    pub open spec fn cleared(self) -> Self {
        QueueView { is_stopping: self.is_stopping, ..Self::initial() }
    }

    /// The data after the import thread has been told to end.
    pub open spec fn stopping(self) -> Self {
        QueueView { is_stopping: true, ..self }
    }

    /// What the import thread does next. A thread that comes back from an import, or has
    /// just been started, ends where the queue is being stopped, and waits where there is
    /// nothing to import. One that has been woken from that wait ends where there still is
    /// nothing.
    pub open spec fn thread_action(self, woken: bool) -> ThreadAction<B> {
        if !woken && self.is_stopping {
            ThreadAction::End
        } else if self.queue.len() > 0 {
            ThreadAction::Import(self.queue[0])
        } else if woken {
            ThreadAction::End
        } else {
            ThreadAction::Wait
        }
    }
}

/// One more element of a sequence is one more element of its set.
proof fn lemma_take_one_more<T>(s: Seq<T>, i: int)
    requires
        0 <= i < s.len(),
    ensures
        s.take(i + 1).to_set() == s.take(i).to_set().insert(s[i]),
{
    let less = s.take(i);
    let more = s.take(i + 1);
    assert(more =~= less.push(s[i]));
    assert forall|x: T| #[trigger] more.to_set().contains(x) == less.to_set().insert(
        s[i],
    ).contains(x) by {
        if less.contains(x) {
            let j = choose|j: int| 0 <= j < less.len() && less[j] == x;
            assert(more[j] == x);
        }
        assert(more[i] == s[i]);
    }
    assert(more.to_set() =~= less.to_set().insert(s[i]));
}

/// One more batch that waits adds its blocks to those that wait.
pub proof fn lemma_waiting_one_more<B: BlockT>(batches: Seq<Batch<B>>, i: int)
    requires
        0 <= i < batches.len(),
    ensures
        waiting_in(batches.take(i + 1)) == waiting_in(batches.take(i)).union(
            announced_hashes(batches[i].1@).to_set(),
        ),
{
    let less = batches.take(i);
    let more = batches.take(i + 1);
    let hashes = announced_hashes(batches[i].1@);
    assert forall|hash: B::Hash| #[trigger] waiting_in(more).contains(hash) <==> (waiting_in(
        less,
    ).contains(hash) || hashes.contains(hash)) by {
        if waiting_in(more).contains(hash) {
            let k = choose|k: int|
                0 <= k < more.len() && announced_hashes((#[trigger] more[k]).1@).contains(hash);
            if k < i {
                assert(less[k] == more[k]);
            }
        }
        if waiting_in(less).contains(hash) {
            let k = choose|k: int|
                0 <= k < less.len() && announced_hashes((#[trigger] less[k]).1@).contains(hash);
            assert(less[k] == more[k]);
        }
        if hashes.contains(hash) {
            assert(more[i] == batches[i]);
        }
    }
    assert(waiting_in(more) =~= waiting_in(less).union(hashes.to_set()));
}

/// A handle on the data of a queue. Other threads may change the data at any time, so that
/// each use of a handle makes another value of it; how the two are related, the handle says.
pub trait QueueHandle<B: BlockT> {
    /// Whether the handle can be used.
    open spec fn wf(&self) -> bool {
        true
    }

    /// Whether this is what becomes of `before` by a look whether the queue is being
    /// stopped that gives `stopping`.
    open spec fn is_look_of(&self, before: &Self, stopping: bool) -> bool {
        true
    }

    /// Whether this is what becomes of `before` when its best number is set to zero.
    open spec fn is_reset_of(&self, before: &Self) -> bool {
        true
    }

    /// Whether this is what becomes of `before` when the import of blocks with
    /// these hashes ends.
    open spec fn is_finish_of(&self, before: &Self, hashes: Seq<B::Hash>) -> bool {
        true
    }

    /// Looks whether the queue is being stopped. Other threads may have changed that since
    /// the last look.
    fn is_stopping(&mut self) -> (stopping: bool)
        requires
            old(self).wf(),
        ensures
            final(self).wf(),
            final(self).is_look_of(old(self), stopping),
    ;

    /// Sets the best importing number to zero, because an import has failed.
    fn reset_best_importing_number(&mut self)
        requires
            old(self).wf(),
        ensures
            final(self).wf(),
            final(self).is_reset_of(old(self)),
    ;

    /// Notes that the import of blocks with these hashes has ended.
    fn finish_blocks(&mut self, hashes: &Vec<B::Hash>)
        requires
            old(self).wf(),
        ensures
            final(self).wf(),
            final(self).is_finish_of(old(self), hashes@),
    ;
}

/// The data that the import thread shares with the users of its queue.
pub struct AsyncImportQueueData<B: BlockT> {
    /// The batches that wait for import, oldest first.
    pub queue: VecDeque<Batch<B>>,
    /// The hashes of the blocks that wait for import or are being imported.
    pub queue_blocks: HashSet<B::Hash>,
    /// The number of the best block that was scheduled since start or last failure.
    pub best_importing_number: B::Number,
    /// Whether the import thread is to end.
    pub is_stopping: bool,
}

impl<B: BlockT> View for AsyncImportQueueData<B> {
    type V = QueueView<B>;

    open spec fn view(&self) -> QueueView<B> {
        QueueView {
            queue: self.queue@,
            queue_blocks: self.queue_blocks@,
            best_importing_number: self.best_importing_number,
            is_stopping: self.is_stopping,
        }
    }
}

impl<B: BlockT> AsyncImportQueueData<B> {
    /// Creates the data of a queue to which nothing has happened.
    pub fn new() -> (data: Self)
        ensures
            data@ == QueueView::<B>::initial(),
    {
        AsyncImportQueueData {
            queue: VecDeque::new(),
            queue_blocks: HashSet::new(),
            best_importing_number: B::Number::zero(),
            is_stopping: false,
        }
    }

    /// Drops everything that waits for import.
    pub fn clear(&mut self)
        ensures
            final(self)@ == old(self)@.cleared(),
    {
        self.queue_blocks.clear();
        self.queue.clear();
        self.best_importing_number = B::Number::zero();
    }

    /// Schedules `blocks` for import, and returns whether there is something to
    /// signal to the import thread.
    pub fn import_blocks(&mut self, origin: BlockOrigin, blocks: Vec<BlockData<B>>) -> (signal: bool)
        requires
            obeys_key_model::<B::Hash>(),
        ensures
            final(self)@ == old(self)@.scheduled(origin, blocks),
            signal == (blocks@.len() > 0),
    {
        if blocks.len() == 0 {
            return false;
        }
        let mut new_best_importing_number = B::Number::zero();
        assert(blocks@.take(0) =~= Seq::empty());
        for i in 0..blocks.len()
            invariant
                obeys_key_model::<B::Hash>(),
                new_best_importing_number == batch_number(blocks@.take(i as int)),
                self.queue_blocks@ == old(self).queue_blocks@.union(
                    announced_hashes(blocks@).take(i as int).to_set(),
                ),
                self.queue == old(self).queue,
                self.best_importing_number == old(self).best_importing_number,
                self.is_stopping == old(self).is_stopping,
        {
            self.queue_blocks.insert(blocks[i].block.hash);
            if let Some(header) = &blocks[i].block.header {
                if header.number.exceeds(new_best_importing_number) {
                    new_best_importing_number = header.number;
                }
            }
            proof {
                assert(blocks@.take(i + 1).drop_last() =~= blocks@.take(i as int));
                lemma_take_one_more(announced_hashes(blocks@), i as int);
            }
        }
        proof {
            let hashes = announced_hashes(blocks@);
            assert(hashes.take(hashes.len() as int) =~= hashes);
            assert(blocks@.take(blocks@.len() as int) =~= blocks@);
        }
        if new_best_importing_number.exceeds(self.best_importing_number) {
            self.best_importing_number = new_best_importing_number;
        }
        self.queue.push_back((origin, blocks));
        true
    }

    /// Takes the oldest batch out of the queue.
    pub fn take_batch(&mut self) -> (batch: Option<Batch<B>>)
        ensures
            final(self)@ == old(self)@.taken(),
            batch == (if old(self)@.queue.len() == 0 {
                None
            } else {
                Some(old(self)@.queue[0])
            }),
    {
        self.queue.pop_front()
    }

    /// Returns what the import thread is to do next, where `woken` says that it has just
    /// been woken from a wait. A batch that it is to import is taken out of the queue.
    pub fn thread_action(&mut self, woken: bool) -> (action: ThreadAction<B>)
        ensures
            action == old(self)@.thread_action(woken),
            final(self)@ == (if action is Import {
                old(self)@.taken()
            } else {
                old(self)@
            }),
    {
        if !woken && self.is_stopping {
            return ThreadAction::End;
        }
        match self.take_batch() {
            Some(batch) => ThreadAction::Import(batch),
            None => if woken {
                ThreadAction::End
            } else {
                ThreadAction::Wait
            },
        }
    }

    /// Tells the import thread to end.
    pub fn request_stop(&mut self)
        ensures
            final(self)@ == old(self)@.stopping(),
    {
        self.is_stopping = true;
    }
}

impl<B: BlockT> QueueHandle<B> for AsyncImportQueueData<B> {
    open spec fn wf(&self) -> bool {
        obeys_key_model::<B::Hash>()
    }

    open spec fn is_look_of(&self, before: &Self, stopping: bool) -> bool {
        *self == *before && stopping == before@.is_stopping
    }

    open spec fn is_reset_of(&self, before: &Self) -> bool {
        self@ == before@.reset()
    }

    open spec fn is_finish_of(&self, before: &Self, hashes: Seq<B::Hash>) -> bool {
        self@ == before@.finished(hashes)
    }

    fn is_stopping(&mut self) -> (stopping: bool) {
        self.is_stopping
    }

    fn reset_best_importing_number(&mut self) {
        self.best_importing_number = B::Number::zero();
    }

    fn finish_blocks(&mut self, hashes: &Vec<B::Hash>) {
        for i in 0..hashes.len()
            invariant
                obeys_key_model::<B::Hash>(),
                self.queue_blocks@ == old(self).queue_blocks@.difference(
                    hashes@.take(i as int).to_set(),
                ),
                self.queue == old(self).queue,
                self.best_importing_number == old(self).best_importing_number,
                self.is_stopping == old(self).is_stopping,
        {
            self.queue_blocks.remove(&hashes[i]);
            proof {
                lemma_take_one_more(hashes@, i as int);
            }
        }
        assert(hashes@.take(hashes@.len() as int) =~= hashes@);
        let ghost kept = self.queue_blocks@;
        assert(kept.union(waiting_in(self.queue@.take(0))) =~= kept);
        let count: usize = self.queue.len();
        for i in 0..count
            invariant
                obeys_key_model::<B::Hash>(),
                count == self.queue@.len(),
                self.queue_blocks@ == kept.union(waiting_in(self.queue@.take(i as int))),
                self.queue == old(self).queue,
                self.best_importing_number == old(self).best_importing_number,
                self.is_stopping == old(self).is_stopping,
        {
            let waiting = block_hashes(&self.queue[i].1);
            let ghost before = self.queue_blocks@;
            assert(before.union(waiting@.take(0).to_set()) =~= before);
            for j in 0..waiting.len()
                invariant
                    obeys_key_model::<B::Hash>(),
                    count == self.queue@.len(),
                    self.queue_blocks@ == before.union(waiting@.take(j as int).to_set()),
                    self.queue == old(self).queue,
                    self.best_importing_number == old(self).best_importing_number,
                    self.is_stopping == old(self).is_stopping,
            {
                self.queue_blocks.insert(waiting[j]);
                proof {
                    lemma_take_one_more(waiting@, j as int);
                }
            }
            proof {
                assert(waiting@.take(waiting@.len() as int) =~= waiting@);
                lemma_waiting_one_more(self.queue@, i as int);
            }
        }
        assert(self.queue@.take(self.queue@.len() as int) =~= self.queue@);
    }
}

} // verus!
