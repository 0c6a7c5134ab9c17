//! The import queue that imports in the thread of its user.

use vstd::prelude::*;

use crate::blocks::BlockData;
use crate::client::BlockOrigin;
use crate::data::AsyncImportQueueData;
use crate::import::{
    import_many_blocks, is_link_after_run, is_run, run_failed, ImportStep, LinkError,
};
use crate::link::{SyncLinkApi, WeakLink};
use crate::message::{BlockNumber, BlockT};
use crate::queue::{Error, ImportQueue, ImportQueueStatus};

verus! {

/// A callback that imports blocks.
pub trait ImportCallback<B: BlockT> {
    /// Whether the callback takes `data`.
    spec fn takes(&self, origin: BlockOrigin, data: Vec<BlockData<B>>) -> bool;

    /// Whether a call with `data` that returns `go_on` makes this out of `before`.
    spec fn is_call_of(
        &self,
        before: &Self,
        origin: BlockOrigin,
        data: Vec<BlockData<B>>,
        go_on: bool,
    ) -> bool;

    /// Imports `data`.
    fn run(&mut self, origin: BlockOrigin, data: Vec<BlockData<B>>) -> (go_on: bool)
        requires
            old(self).takes(origin, data),
        ensures
            final(self).is_call_of(old(self), origin, data, go_on),
    ;
}

impl<B: BlockT, F: Fn(BlockOrigin, Vec<BlockData<B>>) -> bool> ImportCallback<B> for F {
    open spec fn takes(&self, origin: BlockOrigin, data: Vec<BlockData<B>>) -> bool {
        call_requires(*self, (origin, data))
    }

    open spec fn is_call_of(
        &self,
        before: &Self,
        origin: BlockOrigin,
        data: Vec<BlockData<B>>,
        go_on: bool,
    ) -> bool {
        *self == *before && call_ensures(*before, (origin, data), go_on)
    }

    fn run(&mut self, origin: BlockOrigin, data: Vec<BlockData<B>>) -> (go_on: bool) {
        self(origin, data)
    }
}

/// The place of a callback that imports blocks.
pub struct ImportCB<F>(pub Option<F>);

impl<F> ImportCB<F> {
    /// A place that no callback has taken yet.
    pub fn new() -> (cb: Self)
        ensures
            cb.0 is None,
    {
        ImportCB(None)
    }

    /// Sets the callback.
    pub fn set(&mut self, cb: F)
        ensures
            final(self).0 == Some(cb),
    {
        self.0 = Some(cb);
    }

    /// Calls the callback, which has been set before.
    pub fn call<B: BlockT>(&mut self, origin: BlockOrigin, data: Vec<BlockData<B>>) -> (go_on: bool)
        where F: ImportCallback<B>
        requires
            old(self).0 matches Some(cb) && cb.takes(origin, data),
        ensures
            final(self).0 is Some,
            (final(self).0->0).is_call_of(&old(self).0->0, origin, data, go_on),
    {
        self.0.as_mut().unwrap().run(origin, data)
    }
}

/// The callback of a [`SyncImportQueue`].
pub struct SyncCallback<W> {
    /// Whether blocks are imported without instant finality.
    pub finale: bool,
    /// What leads to the link that blocks are imported over.
    pub links: W,
}

/// Whether an import of `blocks` over the link that `before` leads to makes `after` out of
/// it: where there is no link nothing is imported, and else all blocks are, or all up to one
/// that fails, with instant finality unless `finale` is set.
pub open spec fn is_import_over<B: BlockT, W: WeakLink<B>>(
    finale: bool,
    before: W,
    after: W,
    origin: BlockOrigin,
    blocks: Seq<BlockData<B>>,
) -> bool {
    &&& after.is_known() == before.is_known()
    &&& before.is_known() ==> match before.link() {
        Some(link) => after.link() is Some && exists|
            steps: Seq<ImportStep<B, LinkError<B, W::Link>>>,
        |
            {
                &&& is_run(origin, blocks, !finale, steps)
                &&& run_failed(steps) || steps.len() == blocks.len()
                &&& #[trigger] is_link_after_run(link, after.link()->0, steps, true)
            },
        None => after.link() is None,
    }
}

impl<B: BlockT, W: WeakLink<B>> ImportCallback<B> for SyncCallback<W> {
    open spec fn takes(&self, origin: BlockOrigin, data: Vec<BlockData<B>>) -> bool {
        true
    }

    open spec fn is_call_of(
        &self,
        before: &Self,
        origin: BlockOrigin,
        data: Vec<BlockData<B>>,
        go_on: bool,
    ) -> bool {
        &&& self.finale == before.finale
        &&& is_import_over(before.finale, before.links, self.links, origin, data@)
        &&& before.links.is_known() ==> go_on == (before.links.link() is Some)
    }

    fn run(&mut self, origin: BlockOrigin, data: Vec<BlockData<B>>) -> (go_on: bool) {
        let link = self.links.upgrade();
        let ghost start = *link->0;
        let go_on = import_at_once(self.finale, link, origin, data);
        proof {
            if old(self).links.is_known() && go_on {
                let end = self.links.link()->0;
                let steps = choose|steps: Seq<ImportStep<B, LinkError<B, W::Link>>>|
                    {
                        &&& is_run(origin, data@, !self.finale, steps)
                        &&& run_failed(steps) || steps.len() == data@.len()
                        &&& #[trigger] is_link_after_run(start, end, steps, true)
                    };
                assert(is_link_after_run(old(self).links.link()->0, end, steps, true));
            }
        }
        go_on
    }
}

/// Blocks import queue that is importing blocks in the same thread.
/// The boolean value indicates whether blocks should be imported without instant finality.
pub struct SyncImportQueue<W>(pub bool, pub ImportCB<SyncCallback<W>>);

impl<W> SyncImportQueue<W> {
    /// Instantiate a new queue, which has no callback yet.
    pub fn new(finale: bool) -> (queue: Self)
        ensures
            queue.0 == finale,
            queue.1.0 is None,
    {
        SyncImportQueue(finale, ImportCB::new())
    }

    /// Starts the queue with what leads to a link and is already there.
    pub fn start_with<B: BlockT>(&mut self, links: W) where W: WeakLink<B>
        ensures
            final(self).0 == old(self).0,
            final(self).1.0 == Some(SyncCallback { finale: old(self).0, links }),
    {
        let started = ImportQueue::<B>::start::<()>(self, Ok(links));
        assert(started is Ok);
    }
}

/// Imports the blocks if there is still a link to do so over, without instant finality if
/// `finale` is set. Returns whether there was a link.
pub fn import_at_once<B: BlockT, L: SyncLinkApi<B>>(
    finale: bool,
    link: Option<&mut L>,
    origin: BlockOrigin,
    new_blocks: Vec<BlockData<B>>,
) -> (imported: bool)
    ensures
        imported == (link is Some),
        link matches Some(link) ==> exists|steps: Seq<ImportStep<B, LinkError<B, L>>>|
            {
                &&& is_run(origin, new_blocks@, !finale, steps)
                &&& run_failed(steps) || steps.len() == new_blocks@.len()
                &&& #[trigger] is_link_after_run(*link, *final(link), steps, true)
            },
{
    match link {
        Some(link) => import_many_blocks::<B, L, AsyncImportQueueData<B>>(
            link,
            None,
            (origin, new_blocks),
            !finale,
        ),
        None => false,
    }
}

impl<B: BlockT, W: WeakLink<B>> ImportQueue<B> for SyncImportQueue<W> {
    type Background = W;

    /// The callback imports as the boolean of the queue says.
    open spec fn wf(&self) -> bool {
        self.1.0 matches Some(cb) ==> cb.finale == self.0
    }

    open spec fn can_import(&self, origin: BlockOrigin, blocks: Vec<BlockData<B>>) -> bool {
        self.1.0 is Some
    }

    fn start<E>(&mut self, background: Result<W, E>) -> (started: Result<(), Error<E>>)
        ensures
            started == (match background {
                Ok(_) => Ok::<(), Error<E>>(()),
                Err(error) => Err(Error::Io(error)),
            }),
            final(self).0 == old(self).0,
            final(self).1.0 == (match background {
                Ok(links) => Some(SyncCallback { finale: old(self).0, links }),
                Err(_) => old(self).1.0,
            }),
    {
        match background {
            Ok(links) => {
                let cb = SyncCallback { finale: self.0, links };
                self.1.set(cb);
                Ok(())
            },
            Err(error) => Err(Error::Io(error)),
        }
    }

    fn clear(&mut self)
        ensures
            *final(self) == *old(self),
    {
    }

    fn stop(&mut self) -> (background: Option<W>)
        ensures
            background is None,
            *final(self) == *old(self),
    {
        None
    }

    fn status(&self) -> (status: ImportQueueStatus<B>)
        ensures
            status.importing_count == 0,
            status.best_importing_number == B::Number::zero_number(),
    {
        ImportQueueStatus { importing_count: 0, best_importing_number: B::Number::zero() }
    }

    fn is_importing(&self, _hash: &B::Hash) -> (importing: bool)
        ensures
            !importing,
    {
        false
    }

    fn import_blocks(&mut self, origin: BlockOrigin, blocks: Vec<BlockData<B>>) -> (signal: bool)
        ensures
            !signal,
            final(self).0 == old(self).0,
            final(self).1.0 is Some,
            is_import_over(
                old(self).0,
                (old(self).1.0->0).links,
                (final(self).1.0->0).links,
                origin,
                blocks@,
            ),
    {
        self.1.call(origin, blocks);
        false
    }
}

} // verus!
