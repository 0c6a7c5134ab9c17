//! Import queues, and the one that imports in a thread of its own.

use vstd::prelude::*;
use vstd::std_specs::hash::obeys_key_model;

use crate::blocks::BlockData;
use crate::client::BlockOrigin;
use crate::data::{AsyncImportQueueData, QueueView};
use crate::message::BlockT;

verus! {

/// Why a queue could not be started.
#[derive(Clone, Copy, Debug, PartialEq, Eq)]
pub enum Error<E> {
    /// The background work could not be set up.
    Io(E),
}

/// Import queue status. It isn't completely accurate.
pub struct ImportQueueStatus<B: BlockT> {
    /// Number of blocks that are currently in the queue.
    pub importing_count: usize,
    /// The number of the best block that was ever in the queue since start/last failure.
    pub best_importing_number: B::Number,
}

/// Blocks import queue API.
pub trait ImportQueue<B: BlockT>: Sized {
    /// What imports the blocks of the queue once it is started.
    type Background;

    /// Whether the queue can be used.
    spec fn wf(&self) -> bool;

    /// Whether the queue takes `blocks` for import.
    spec fn can_import(&self, origin: BlockOrigin, blocks: Vec<BlockData<B>>) -> bool;

    /// Start background work for the queue as necessary: `background` is what was set
    /// up to import the blocks, or why that failed.
    fn start<E>(&mut self, background: Result<Self::Background, E>) -> (started: Result<
        (),
        Error<E>,
    >)
        ensures
            old(self).wf() ==> final(self).wf(),
        default_ensures
            started == Ok::<(), Error<E>>(()),
            *final(self) == *old(self),
    {
        Ok(())
    }

    /// Clear the queue when sync is restarting.
    fn clear(&mut self)
        ensures
            old(self).wf() ==> final(self).wf(),
    ;

    /// Clears the import queue and stops importing. Returns what worked in the
    /// background: it is to be woken, and to be waited for.
    fn stop(&mut self) -> (background: Option<Self::Background>)
        ensures
            old(self).wf() ==> final(self).wf(),
    ;

    /// Get queue status.
    fn status(&self) -> (status: ImportQueueStatus<B>)
        requires
            self.wf(),
    ;

    /// Is block with given hash currently in the queue.
    fn is_importing(&self, hash: &B::Hash) -> (importing: bool)
        requires
            self.wf(),
    ;

    /// Import bunch of blocks. Returns whether what works in the background is to be
    /// woken.
    fn import_blocks(&mut self, origin: BlockOrigin, blocks: Vec<BlockData<B>>) -> (signal: bool)
        requires
            old(self).wf(),
            old(self).can_import(origin, blocks),
        ensures
            final(self).wf(),
    ;
}

/// Basic block import queue that is importing blocks sequentially in a separate thread,
/// of which it keeps the handle.
pub struct BasicQueue<B: BlockT, T> {
    /// The handle of the import thread, while there is one.
    pub handle: Option<T>,
    /// The data that the queue shares with its import thread.
    pub data: AsyncImportQueueData<B>,
    /// Whether blocks are final as soon as they are imported.
    pub instant_finality: bool,
}

impl<B: BlockT, T> BasicQueue<B, T> {
    /// Instantiate a new basic queue.
    pub fn new(instant_finality: bool) -> (queue: Self)
        ensures
            queue.handle is None,
            queue.data@ == QueueView::<B>::initial(),
            queue.instant_finality == instant_finality,
    {
        BasicQueue { handle: None, data: AsyncImportQueueData::new(), instant_finality }
    }

    /// Starts the queue with an import thread that is already there.
    pub fn start_with(&mut self, thread: T)
        ensures
            final(self).handle == Some(thread),
            final(self).data == old(self).data,
            final(self).instant_finality == old(self).instant_finality,
    {
        let started = ImportQueue::<B>::start::<()>(self, Ok(thread));
        assert(started is Ok);
    }
}

impl<B: BlockT, T> ImportQueue<B> for BasicQueue<B, T> {
    type Background = T;

    open spec fn wf(&self) -> bool {
        obeys_key_model::<B::Hash>()
    }

    open spec fn can_import(&self, origin: BlockOrigin, blocks: Vec<BlockData<B>>) -> bool {
        true
    }

    fn start<E>(&mut self, background: Result<T, E>) -> (started: Result<(), Error<E>>)
        ensures
            started == (match background {
                Ok(_) => Ok::<(), Error<E>>(()),
                Err(error) => Err(Error::Io(error)),
            }),
            final(self).handle == (match background {
                Ok(handle) => Some(handle),
                Err(_) => old(self).handle,
            }),
            final(self).data == old(self).data,
            final(self).instant_finality == old(self).instant_finality,
    {
        match background {
            Ok(handle) => {
                self.handle = Some(handle);
                Ok(())
            },
            Err(error) => Err(Error::Io(error)),
        }
    }

    fn clear(&mut self)
        ensures
            final(self).data@ == old(self).data@.cleared(),
            final(self).handle == old(self).handle,
            final(self).instant_finality == old(self).instant_finality,
    {
        self.data.clear();
    }

    fn stop(&mut self) -> (background: Option<T>)
        ensures
            background == old(self).handle,
            final(self).handle is None,
            final(self).data@ == (if old(self).handle is Some {
                old(self).data@.cleared().stopping()
            } else {
                old(self).data@.cleared()
            }),
            final(self).instant_finality == old(self).instant_finality,
    {
        self.clear();
        match self.handle.take() {
            Some(handle) => {
                self.data.request_stop();
                Some(handle)
            },
            None => None,
        }
    }

    fn status(&self) -> (status: ImportQueueStatus<B>)
        ensures
            status.importing_count == self.data@.queue_blocks.len(),
            status.best_importing_number == self.data@.best_importing_number,
    {
        ImportQueueStatus {
            importing_count: self.data.queue_blocks.len(),
            best_importing_number: self.data.best_importing_number,
        }
    }

    fn is_importing(&self, hash: &B::Hash) -> (importing: bool)
        ensures
            importing == self.data@.queue_blocks.contains(*hash),
    {
        self.data.queue_blocks.contains(hash)
    }

    fn import_blocks(&mut self, origin: BlockOrigin, blocks: Vec<BlockData<B>>) -> (signal: bool)
        ensures
            signal == (blocks@.len() > 0),
            final(self).data@ == old(self).data@.scheduled(origin, blocks),
            final(self).handle == old(self).handle,
            final(self).instant_finality == old(self).instant_finality,
    {
        self.data.import_blocks(origin, blocks)
    }
}

} // verus!
