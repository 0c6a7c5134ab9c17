//! What holds of every call that is made over a link, of the client behind it and of what is
//! handed out for synchronization. Each law speaks of a call by its arguments and its result.

use vstd::prelude::*;

use crate::client::{AuthorityId, Client, ImportBlock, ImportCall, ImportResult, LoggedClient};
use crate::link::{
    calls_view, LinkEvent, NodeIndex, Severity, SyncCall, SyncEvent, SyncLink, SyncLinkApi,
    SyncTask, WeakLink,
};
use crate::message::BlockT;

verus! {

/// A task hands out what its event says, and no more: the block under its own hash and
/// number, the peer that was named with the reason that was given, and a report before the
/// restart that goes with it.
pub proof fn law_calls_of_a_task<B: BlockT>(task: SyncTask<B>, calls: Vec<SyncCall<B>>)
    requires
        call_ensures(SyncTask::<B>::into_calls, (task,), calls),
    ensures
        match task.event().event {
            SyncEvent::BlockImported(hash, number) => {
                &&& calls@.len() == 1
                &&& calls@[0] == SyncCall::<B>::BlockImported(hash, number)
            },
            SyncEvent::MaintainSync => {
                &&& calls@.len() == 1
                &&& calls@[0] == SyncCall::<B>::MaintainSync
            },
            SyncEvent::UselessPeer(who, reason) => {
                &&& calls@.len() == 1
                &&& calls@[0] matches SyncCall::ReportPeer(peer, Severity::Useless(text))
                &&& peer == who
                &&& text@ == reason
            },
            SyncEvent::UselessPeerAndRestart(who, reason) => {
                &&& calls@.len() == 2
                &&& calls@[1] == SyncCall::<B>::Restart
                &&& calls@[0] matches SyncCall::ReportPeer(peer, Severity::Useless(text))
                &&& peer == who
                &&& text@ == reason
            },
            SyncEvent::Restart => {
                &&& calls@.len() == 1
                &&& calls@[0] == SyncCall::<B>::Restart
            },
        },
{
    let views = calls_view(calls@);
    assert(views.len() == calls@.len());
    assert(forall|i: int| 0 <= i < calls@.len() ==> #[trigger] views[i] == calls@[i]@);
    assert(views[0] == calls@[0]@);
    assert(calls@.len() > 1 ==> views[1] == calls@[1]@);
}

/// One more event of a link is one more task of it.
proof fn lemma_one_more_task<B: BlockT, C: Client<B>>(
    before: SyncLink<B, LoggedClient<B, C>>,
    after: SyncLink<B, LoggedClient<B, C>>,
    event: SyncEvent<B>,
)
    requires
        after.events() == before.events().push(
            (LinkEvent { after: before.client.log@.len(), event }),
        ),
    ensures
        after.tasks@.len() == before.tasks@.len() + 1,
        forall|j: int|
            0 <= j < before.tasks@.len() ==> (#[trigger] after.tasks@[j]).event()
                == before.tasks@[j].event(),
        after.tasks@.last().event() == (LinkEvent { after: before.client.log@.len(), event }),
{
    assert(after.events().len() == after.tasks@.len());
    assert(before.events().len() == before.tasks@.len());
    assert forall|j: int| 0 <= j < before.tasks@.len() implies (
    #[trigger] after.tasks@[j]).event() == before.tasks@[j].event() by {
        assert(after.events()[j] == after.tasks@[j].event());
        assert(before.events()[j] == before.tasks@[j].event());
    }
    let last = before.tasks@.len() as int;
    assert(after.events()[last] == after.tasks@[last].event());
}

/// That a block is imported is told under its own hash and number, after what was told
/// before and with the number of calls on the client by then.
pub proof fn law_imported_block_is_told<B: BlockT, C: Client<B>>(
    link: &mut SyncLink<B, LoggedClient<B, C>>,
    hash: &B::Hash,
    number: B::Number,
    done: (),
)
    requires
        call_ensures(
            <SyncLink<B, LoggedClient<B, C>> as SyncLinkApi<B>>::block_imported,
            (link, hash, number),
            done,
        ),
    ensures
        final(link).client == old(link).client,
        final(link).tasks@.len() == old(link).tasks@.len() + 1,
        forall|j: int|
            0 <= j < old(link).tasks@.len() ==> (#[trigger] final(link).tasks@[j]).event() == old(
                link,
            ).tasks@[j].event(),
        final(link).tasks@.last().event() == (LinkEvent::<B> {
            after: old(link).client.log@.len(),
            event: SyncEvent::BlockImported(*hash, number),
        }),
{
    lemma_one_more_task(*old(link), *final(link), SyncEvent::BlockImported(*hash, number));
}

/// That synchronization may go on is told after what was told before.
pub proof fn law_going_on_is_told<B: BlockT, C: Client<B>>(
    link: &mut SyncLink<B, LoggedClient<B, C>>,
    done: (),
)
    requires
        call_ensures(
            <SyncLink<B, LoggedClient<B, C>> as SyncLinkApi<B>>::maintain_sync,
            (link,),
            done,
        ),
    ensures
        final(link).client == old(link).client,
        final(link).tasks@.len() == old(link).tasks@.len() + 1,
        forall|j: int|
            0 <= j < old(link).tasks@.len() ==> (#[trigger] final(link).tasks@[j]).event() == old(
                link,
            ).tasks@[j].event(),
        final(link).tasks@.last().event() == (LinkEvent::<B> {
            after: old(link).client.log@.len(),
            event: SyncEvent::MaintainSync,
        }),
{
    lemma_one_more_task(*old(link), *final(link), SyncEvent::MaintainSync);
}

/// The peer that is of no use is told, with the reason, after what was told before.
pub proof fn law_useless_peer_is_told<B: BlockT, C: Client<B>>(
    link: &mut SyncLink<B, LoggedClient<B, C>>,
    who: NodeIndex,
    reason: &str,
    done: (),
)
    requires
        call_ensures(
            <SyncLink<B, LoggedClient<B, C>> as SyncLinkApi<B>>::useless_peer,
            (link, who, reason),
            done,
        ),
    ensures
        final(link).client == old(link).client,
        final(link).tasks@.len() == old(link).tasks@.len() + 1,
        forall|j: int|
            0 <= j < old(link).tasks@.len() ==> (#[trigger] final(link).tasks@[j]).event() == old(
                link,
            ).tasks@[j].event(),
        final(link).tasks@.last().event() == (LinkEvent::<B> {
            after: old(link).client.log@.len(),
            event: SyncEvent::UselessPeer(who, reason@),
        }),
{
    lemma_one_more_task(*old(link), *final(link), SyncEvent::UselessPeer(who, reason@));
}

/// The peer that is of no use and the restart are told as one, with the reason, after what
/// was told before.
pub proof fn law_useless_peer_and_restart_are_told<B: BlockT, C: Client<B>>(
    link: &mut SyncLink<B, LoggedClient<B, C>>,
    who: NodeIndex,
    reason: &str,
    done: (),
)
    requires
        call_ensures(
            <SyncLink<B, LoggedClient<B, C>> as SyncLinkApi<B>>::note_useless_and_restart_sync,
            (link, who, reason),
            done,
        ),
    ensures
        final(link).client == old(link).client,
        final(link).tasks@.len() == old(link).tasks@.len() + 1,
        forall|j: int|
            0 <= j < old(link).tasks@.len() ==> (#[trigger] final(link).tasks@[j]).event() == old(
                link,
            ).tasks@[j].event(),
        final(link).tasks@.last().event() == (LinkEvent::<B> {
            after: old(link).client.log@.len(),
            event: SyncEvent::UselessPeerAndRestart(who, reason@),
        }),
{
    lemma_one_more_task(*old(link), *final(link), SyncEvent::UselessPeerAndRestart(who, reason@));
}

/// That synchronization is to start anew is told after what was told before.
pub proof fn law_restart_is_told<B: BlockT, C: Client<B>>(
    link: &mut SyncLink<B, LoggedClient<B, C>>,
    done: (),
)
    requires
        call_ensures(
            <SyncLink<B, LoggedClient<B, C>> as SyncLinkApi<B>>::restart,
            (link,),
            done,
        ),
    ensures
        final(link).client == old(link).client,
        final(link).tasks@.len() == old(link).tasks@.len() + 1,
        forall|j: int|
            0 <= j < old(link).tasks@.len() ==> (#[trigger] final(link).tasks@[j]).event() == old(
                link,
            ).tasks@[j].event(),
        final(link).tasks@.last().event() == (LinkEvent::<B> {
            after: old(link).client.log@.len(),
            event: SyncEvent::Restart,
        }),
{
    lemma_one_more_task(*old(link), *final(link), SyncEvent::Restart);
}

/// Handing out the tasks gives all of them, oldest first, and leaves none; the client is not
/// touched.
pub proof fn law_tasks_are_handed_out_once<B: BlockT, C: Client<B>>(
    link: &mut SyncLink<B, C>,
    tasks: Vec<SyncTask<B>>,
)
    requires
        call_ensures(SyncLink::<B, C>::take_tasks, (link,), tasks),
    ensures
        tasks@ == old(link).tasks@,
        final(link).tasks@.len() == 0,
        final(link).client == old(link).client,
{
}

/// A new link leads to the client that it is made for, and nothing has gone over it.
pub proof fn law_new_link_is_silent<B: BlockT, C: Client<B>>(client: C, link: SyncLink<B, C>)
    requires
        call_ensures(SyncLink::<B, C>::new, (client,), link),
    ensures
        link.client == client,
        link.tasks@.len() == 0,
{
}

/// A link gives out its own client: what is done to that is done to the client of the link,
/// and nothing goes over the link by it.
pub proof fn law_link_gives_out_its_client<B: BlockT, C: Client<B>>(
    link: &mut SyncLink<B, C>,
    chain: &mut C,
)
    requires
        call_ensures(<SyncLink<B, C> as SyncLinkApi<B>>::chain, (link,), chain),
    ensures
        *old(chain) == old(link).client,
        final(link).client == *final(chain),
        final(link).tasks@.len() == old(link).tasks@.len(),
        forall|j: int|
            0 <= j < old(link).tasks@.len() ==> (#[trigger] final(link).tasks@[j]).event() == old(
                link,
            ).tasks@[j].event(),
{
    assert(final(link).events().len() == final(link).tasks@.len());
    assert(old(link).events().len() == old(link).tasks@.len());
    assert forall|j: int| 0 <= j < old(link).tasks@.len() implies (
    #[trigger] final(link).tasks@[j]).event() == old(link).tasks@[j].event() by {
        assert(final(link).events()[j] == final(link).tasks@[j].event());
        assert(old(link).events()[j] == old(link).tasks@[j].event());
    }
}

/// What leads to a link gives that link and no other, and none once it is gone; what is done
/// to the link stays.
pub proof fn law_upgrade_gives_the_link<B: BlockT, L: SyncLinkApi<B>>(
    links: &mut Option<L>,
    link: Option<&mut L>,
)
    requires
        call_ensures(<Option<L> as WeakLink<B>>::upgrade, (links,), link),
    ensures
        link is Some <==> *old(links) is Some,
        *final(links) is Some <==> *old(links) is Some,
        link matches Some(link) ==> {
            &&& *old(links) == Some(*link)
            &&& *final(links) == Some(*final(link))
        },
{
}

/// A client that keeps a log notes every call as it was made, with the reply that the caller
/// gets, at the end of its log.
pub proof fn law_client_logs_what_it_is_handed<B: BlockT, C: Client<B>>(
    client: &mut LoggedClient<B, C>,
    block: ImportBlock<B>,
    new_authorities: Option<Vec<AuthorityId>>,
    reply: Result<ImportResult, C::Error>,
)
    requires
        call_ensures(
            <LoggedClient<B, C> as Client<B>>::import,
            (client, block, new_authorities),
            reply,
        ),
    ensures
        final(client).log@.len() == old(client).log@.len() + 1,
        old(client).log@.is_prefix_of(final(client).log@),
        final(client).log@.last() == (ImportCall { block, new_authorities, reply }),
{
}

/// A client that keeps a log hands every call on as it is, and returns the reply that it got:
/// the client behind it, which keeps a log too, notes the same.
pub proof fn law_logged_client_hands_calls_on<B: BlockT, C: Client<B>>(
    client: &mut LoggedClient<B, LoggedClient<B, C>>,
    block: ImportBlock<B>,
    new_authorities: Option<Vec<AuthorityId>>,
    reply: Result<ImportResult, C::Error>,
)
    requires
        call_ensures(
            <LoggedClient<B, LoggedClient<B, C>> as Client<B>>::import,
            (client, block, new_authorities),
            reply,
        ),
    ensures
        final(client).client.log@.len() == old(client).client.log@.len() + 1,
        old(client).client.log@.is_prefix_of(final(client).client.log@),
        final(client).client.log@.last() == (ImportCall { block, new_authorities, reply }),
{
}

/// Nothing stands in a new log, which is for the client that it is made for.
pub proof fn law_new_log_is_empty<B: BlockT, C: Client<B>>(
    client: C,
    logged: LoggedClient<B, C>,
)
    requires
        call_ensures(LoggedClient::<B, C>::new, (client,), logged),
    ensures
        logged.client == client,
        logged.log@.len() == 0,
{
}

} // verus!
