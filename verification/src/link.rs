//! The link from block import to the client and to synchronization.

use vstd::prelude::*;

use crate::client::Client;
use crate::message::BlockT;

verus! {

/// The index of a connected peer.
pub type NodeIndex = usize;

/// Why a peer is reported.
#[derive(Clone, Debug, PartialEq, Eq)]
pub enum Severity {
    /// The peer is of no use, for the reason given.
    Useless(String),
}

/// A call that synchronization or the network protocol is to receive.
#[derive(Clone, Debug)]
pub enum SyncCall<B: BlockT> {
    /// Tell synchronization that the block with this hash and number is imported.
    BlockImported(B::Hash, B::Number),
    /// Let synchronization go on requesting blocks.
    MaintainSync,
    /// Report the peer to the network protocol.
    ReportPeer(NodeIndex, Severity),
    /// Let synchronization start anew.
    Restart,
}

/// What a [`SyncCall`] says, with the reason for a report as its characters.
pub enum SyncCallView<B: BlockT> {
    BlockImported(B::Hash, B::Number),
    MaintainSync,
    ReportUseless(NodeIndex, Seq<char>),
    Restart,
}

impl<B: BlockT> View for SyncCall<B> {
    type V = SyncCallView<B>;

    open spec fn view(&self) -> SyncCallView<B> {
        match *self {
            SyncCall::BlockImported(hash, number) => SyncCallView::BlockImported(hash, number),
            SyncCall::MaintainSync => SyncCallView::MaintainSync,
            SyncCall::ReportPeer(who, Severity::Useless(reason)) => SyncCallView::ReportUseless(
                who,
                reason@,
            ),
            SyncCall::Restart => SyncCallView::Restart,
        }
    }
}

/// What `calls` say, in order.
pub open spec fn calls_view<B: BlockT>(calls: Seq<SyncCall<B>>) -> Seq<SyncCallView<B>> {
    Seq::new(calls.len(), |i: int| calls[i]@)
}

/// Something that goes over a link: one call of one of its methods.
pub enum SyncEvent<B: BlockT> {
    /// The block with this hash and number is imported.
    BlockImported(B::Hash, B::Number),
    /// Synchronization may go on.
    MaintainSync,
    /// The peer is of no use, for this reason.
    UselessPeer(NodeIndex, Seq<char>),
    /// The peer is of no use, for this reason, and synchronization is to start anew.
    UselessPeerAndRestart(NodeIndex, Seq<char>),
    /// Synchronization is to start anew.
    Restart,
}

/// Something that went over a link, and when.
pub struct LinkEvent<B: BlockT> {
    /// How many calls had been made on the client by then.
    pub after: nat,
    /// What went over the link.
    pub event: SyncEvent<B>,
}

/// What block import asks of the rest of the node. What goes over a link, and which client
/// is behind it, is known of a link that keeps a log.
pub trait SyncLinkApi<B: BlockT> {
    /// The client that blocks are imported into.
    type Chain: Client<B>;

    /// Whether the link keeps a log of what goes over it.
    open spec fn keeps_log(&self) -> bool {
        false
    }

    /// The client behind the link.
    open spec fn client(&self) -> Self::Chain {
        arbitrary()
    }

    /// What has gone over the link so far, oldest first.
    open spec fn events(&self) -> Seq<LinkEvent<B>> {
        Seq::empty()
    }

    /// Get chain reference.
    fn chain(&mut self) -> (chain: &mut Self::Chain)
        ensures
            final(self).keeps_log() == old(self).keeps_log(),
            old(self).keeps_log() ==> {
                &&& *chain == old(self).client()
                &&& final(self).client() == *final(chain)
                &&& final(self).events() == old(self).events()
            },
    ;

    /// Block imported.
    fn block_imported(&mut self, hash: &B::Hash, number: B::Number)
        ensures
            final(self).keeps_log() == old(self).keeps_log(),
            old(self).keeps_log() ==> {
                &&& final(self).client() == old(self).client()
                &&& final(self).events() == old(self).events().push(
                    (LinkEvent {
                        after: old(self).client().imports().len(),
                        event: SyncEvent::BlockImported(*hash, number),
                    }),
                )
            },
    ;

    /// Maintain sync.
    fn maintain_sync(&mut self)
        ensures
            final(self).keeps_log() == old(self).keeps_log(),
            old(self).keeps_log() ==> {
                &&& final(self).client() == old(self).client()
                &&& final(self).events() == old(self).events().push(
                    (LinkEvent {
                        after: old(self).client().imports().len(),
                        event: SyncEvent::MaintainSync,
                    }),
                )
            },
    ;

    /// Disconnect from peer.
    fn useless_peer(&mut self, who: NodeIndex, reason: &str)
        ensures
            final(self).keeps_log() == old(self).keeps_log(),
            old(self).keeps_log() ==> {
                &&& final(self).client() == old(self).client()
                &&& final(self).events() == old(self).events().push(
                    (LinkEvent {
                        after: old(self).client().imports().len(),
                        event: SyncEvent::UselessPeer(who, reason@),
                    }),
                )
            },
    ;

    /// Disconnect from peer and restart sync.
    fn note_useless_and_restart_sync(&mut self, who: NodeIndex, reason: &str)
        ensures
            final(self).keeps_log() == old(self).keeps_log(),
            old(self).keeps_log() ==> {
                &&& final(self).client() == old(self).client()
                &&& final(self).events() == old(self).events().push(
                    (LinkEvent {
                        after: old(self).client().imports().len(),
                        event: SyncEvent::UselessPeerAndRestart(who, reason@),
                    }),
                )
            },
    ;

    /// Restart sync.
    fn restart(&mut self)
        ensures
            final(self).keeps_log() == old(self).keeps_log(),
            old(self).keeps_log() ==> {
                &&& final(self).client() == old(self).client()
                &&& final(self).events() == old(self).events().push(
                    (LinkEvent {
                        after: old(self).client().imports().len(),
                        event: SyncEvent::Restart,
                    }),
                )
            },
    ;
}

/// What leads to a link for as long as the node keeps up what is behind it. It may or may
/// not be known which link that is.
pub trait WeakLink<B: BlockT> {
    /// The link.
    type Link: SyncLinkApi<B>;

    /// Whether it is known which link this leads to.
    open spec fn is_known(&self) -> bool {
        false
    }

    /// The link, if what is behind it is still there.
    open spec fn link(&self) -> Option<Self::Link> {
        None
    }

    /// Returns the link, if what is behind it is still there.
    fn upgrade(&mut self) -> (link: Option<&mut Self::Link>)
        ensures
            final(self).is_known() == old(self).is_known(),
            old(self).is_known() ==> match link {
                Some(link) => {
                    &&& old(self).link() == Some(*link)
                    &&& final(self).link() == Some(*final(link))
                },
                None => old(self).link() is None && final(self).link() is None,
            },
    ;
}

impl<B: BlockT, L: SyncLinkApi<B>> WeakLink<B> for Option<L> {
    type Link = L;

    open spec fn is_known(&self) -> bool {
        true
    }

    open spec fn link(&self) -> Option<L> {
        *self
    }

    fn upgrade(&mut self) -> (link: Option<&mut L>) {
        match self {
            Some(link) => Some(link),
            None => None,
        }
    }
}

/// The calls that are to be made on synchronization and on the network protocol when
/// `event` goes over the link, in order.
pub open spec fn event_calls<B: BlockT>(event: SyncEvent<B>) -> Seq<SyncCallView<B>> {
    match event {
        SyncEvent::BlockImported(hash, number) => seq![SyncCallView::BlockImported(hash, number)],
        SyncEvent::MaintainSync => seq![SyncCallView::MaintainSync],
        SyncEvent::UselessPeer(who, reason) => seq![SyncCallView::ReportUseless(who, reason)],
        SyncEvent::UselessPeerAndRestart(who, reason) => seq![
            SyncCallView::ReportUseless(who, reason),
            SyncCallView::Restart,
        ],
        SyncEvent::Restart => seq![SyncCallView::Restart],
    }
}

/// The calls that are to be made because of one event, all of them in one context and
/// with synchronization locked once.
pub struct SyncTask<B: BlockT> {
    calls: Vec<SyncCall<B>>,
    event: Ghost<LinkEvent<B>>,
}

impl<B: BlockT> SyncTask<B> {
    /// The event that the task is due to.
    pub closed spec fn event(self) -> LinkEvent<B> {
        self.event@
    }

    #[verifier::type_invariant]
    spec fn holds_the_calls_of_its_event(self) -> bool {
        calls_view(self.calls@) == event_calls(self.event@.event)
    }

    /// Hands out the calls.
    pub fn into_calls(self) -> (calls: Vec<SyncCall<B>>)
        ensures
            calls_view(calls@) == event_calls(self.event().event),
    {
        proof {
            use_type_invariant(&self);
        }
        self.calls
    }
}

/// Link with the synchronization service: turns what comes over the link into
/// the calls that are to be made on synchronization and on the network protocol.
pub struct SyncLink<B: BlockT, C: Client<B>> {
    /// The client that blocks are imported into.
    pub client: C,
    /// What has not been handed out yet, oldest first.
    pub tasks: Vec<SyncTask<B>>,
}

/// The events that `tasks` are due to, in order.
pub open spec fn task_events<B: BlockT>(tasks: Seq<SyncTask<B>>) -> Seq<LinkEvent<B>> {
    Seq::new(tasks.len(), |i: int| tasks[i].event())
}

impl<B: BlockT, C: Client<B>> SyncLink<B, C> {
    /// A link to `client` over which nothing has gone.
    pub fn new(client: C) -> (link: Self)
        ensures
            link.client == client,
            link.tasks@.len() == 0,
    {
        SyncLink { client, tasks: Vec::new() }
    }

    /// Hands out what is to be done, and forgets it.
    pub fn take_tasks(&mut self) -> (tasks: Vec<SyncTask<B>>)
        ensures
            tasks@ == old(self).tasks@,
            final(self).tasks@.len() == 0,
            final(self).client == old(self).client,
    {
        let mut tasks: Vec<SyncTask<B>> = Vec::new();
        std::mem::swap(&mut self.tasks, &mut tasks);
        tasks
    }

    /// Adds a task to those to be done.
    fn with_sync(&mut self, calls: Vec<SyncCall<B>>, event: Ghost<SyncEvent<B>>)
        requires
            calls_view(calls@) == event_calls(event@),
        ensures
            final(self).client == old(self).client,
            final(self).events() == old(self).events().push(
                (LinkEvent { after: old(self).client.imports().len(), event: event@ }),
            ),
    {
        let event = Ghost(LinkEvent { after: self.client.imports().len(), event: event@ });
        self.tasks.push(SyncTask { calls, event });
        assert(self.events() =~= old(self).events().push(event@));
    }
}

impl<B: BlockT, C: Client<B>> SyncLinkApi<B> for SyncLink<B, C> {
    type Chain = C;

    open spec fn keeps_log(&self) -> bool {
        true
    }

    open spec fn client(&self) -> C {
        self.client
    }

    open spec fn events(&self) -> Seq<LinkEvent<B>> {
        task_events(self.tasks@)
    }

    fn chain(&mut self) -> (chain: &mut C) {
        &mut self.client
    }

    fn block_imported(&mut self, hash: &B::Hash, number: B::Number) {
        let calls = vec![SyncCall::BlockImported(*hash, number)];
        let event = Ghost(SyncEvent::BlockImported(*hash, number));
        assert(calls_view(calls@) =~= event_calls(event@));
        self.with_sync(calls, event);
    }

    fn maintain_sync(&mut self) {
        let calls = vec![SyncCall::MaintainSync];
        let event = Ghost(SyncEvent::MaintainSync);
        assert(calls_view(calls@) =~= event_calls(event@));
        self.with_sync(calls, event);
    }

    fn useless_peer(&mut self, who: NodeIndex, reason: &str) {
        let calls = vec![SyncCall::ReportPeer(who, Severity::Useless(reason.to_owned()))];
        let event = Ghost(SyncEvent::UselessPeer(who, reason@));
        assert(calls_view(calls@) =~= event_calls(event@));
        self.with_sync(calls, event);
    }

    fn note_useless_and_restart_sync(&mut self, who: NodeIndex, reason: &str) {
        let calls = vec![
            SyncCall::ReportPeer(who, Severity::Useless(reason.to_owned())),
            SyncCall::Restart,
        ];
        let event = Ghost(SyncEvent::UselessPeerAndRestart(who, reason@));
        assert(calls_view(calls@) =~= event_calls(event@));
        self.with_sync(calls, event);
    }

    fn restart(&mut self) {
        let calls = vec![SyncCall::Restart];
        let event = Ghost(SyncEvent::Restart);
        assert(calls_view(calls@) =~= event_calls(event@));
        self.with_sync(calls, event);
    }
}

} // verus!
