use std::cell::RefCell;

use import_queue::blocks::BlockData;
use import_queue::client::{AuthorityId, BlockOrigin, Client, ImportBlock, ImportResult, LoggedClient};
use import_queue::link::{Severity, SyncCall, SyncLink, SyncLinkApi, WeakLink};
use import_queue::message;
use import_queue::message::{BlockT, Header};
use import_queue::queue::{Error, ImportQueue, ImportQueueStatus};
use import_queue::sync_queue::{import_at_once, ImportCB, SyncImportQueue};

#[derive(Clone, Debug)]
struct Block;

impl BlockT for Block {
    type Hash = u64;
    type Number = u64;
    type Header = ();
    type Extrinsic = ();
}

/// A client that takes every block but those with the number thirteen.
struct TestClient;

impl Client<Block> for TestClient {
    type Error = ();

    fn import(
        &mut self,
        block: ImportBlock<Block>,
        _new_authorities: Option<Vec<AuthorityId>>,
    ) -> Result<ImportResult, ()> {
        if block.header.number == 13 {
            Ok(ImportResult::KnownBad)
        } else if block.finalized {
            Ok(ImportResult::Queued)
        } else {
            Err(())
        }
    }
}

type Link = SyncLink<Block, LoggedClient<Block, TestClient>>;

fn link() -> Link {
    SyncLink::new(LoggedClient::new(TestClient))
}

fn calls(link: &mut Link) -> Vec<Vec<SyncCall<Block>>> {
    link.take_tasks().into_iter().map(|task| task.into_calls()).collect()
}

fn queue_calls(queue: &mut SyncImportQueue<Option<Link>>) -> Vec<Vec<SyncCall<Block>>> {
    let cb = (queue.1).0.as_mut().unwrap();
    calls(cb.links.as_mut().unwrap())
}

fn block(hash: u64, number: u64) -> BlockData<Block> {
    BlockData {
        block: message::BlockData {
            hash,
            header: Some(Header { number, hash, content: () }),
            body: None,
            receipt: None,
            message_queue: None,
            justification: Some(vec![]),
        },
        origin: 21,
    }
}

#[test]
fn callback_is_called() {
    let seen: RefCell<Vec<(BlockOrigin, usize)>> = RefCell::new(Vec::new());
    let mut cb = ImportCB::new();
    cb.set(|origin: BlockOrigin, blocks: Vec<BlockData<Block>>| {
        seen.borrow_mut().push((origin, blocks.len()));
        blocks.len() > 1
    });
    assert!(!cb.call(BlockOrigin::File, vec![block(1, 1)]));
    assert!(cb.call(BlockOrigin::Own, vec![block(1, 1), block(2, 2)]));
    assert_eq!(*seen.borrow(), vec![(BlockOrigin::File, 1), (BlockOrigin::Own, 2)]);
}

#[test]
fn sync_queue_imports_at_once() {
    let mut queue = SyncImportQueue::new(false);
    assert_eq!(ImportQueue::<Block>::start::<()>(&mut queue, Ok(Some(link()))), Ok(()));
    assert!(!queue.import_blocks(BlockOrigin::File, vec![block(1, 1), block(2, 2)]));
    assert_eq!(queue_calls(&mut queue).len(), 3);
    assert!(!queue.import_blocks(BlockOrigin::File, vec![]));
    assert!(matches!(queue_calls(&mut queue)[0][..], [SyncCall::MaintainSync]));
    ImportQueue::<Block>::clear(&mut queue);
    assert!(ImportQueue::<Block>::stop(&mut queue).is_none());
    queue.import_blocks(BlockOrigin::File, vec![block(1, 1)]);
    assert_eq!(queue_calls(&mut queue).len(), 2);
    let status: ImportQueueStatus<Block> = queue.status();
    assert_eq!(status.importing_count, 0);
    assert_eq!(status.best_importing_number, 0);
    assert!(!ImportQueue::<Block>::is_importing(&queue, &1));
}

#[test]
fn sync_queue_imports_nothing_once_the_node_is_gone() {
    let mut queue: SyncImportQueue<Option<Link>> = SyncImportQueue::new(false);
    assert_eq!(ImportQueue::<Block>::start::<()>(&mut queue, Ok(None)), Ok(()));
    assert!(!queue.import_blocks(BlockOrigin::File, vec![block(1, 1)]));
    assert!(!(queue.1).call(BlockOrigin::File, vec![block(1, 1)]));
}

#[test]
fn sync_queue_tells_of_a_failed_start() {
    let mut queue: SyncImportQueue<Option<Link>> = SyncImportQueue::new(false);
    assert_eq!(ImportQueue::<Block>::start(&mut queue, Err("gone")), Err(Error::Io("gone")));
    assert!((queue.1).0.is_none());
}

#[test]
fn boolean_means_without_instant_finality() {
    for finale in [false, true] {
        let mut queue = SyncImportQueue::new(finale);
        ImportQueue::<Block>::start::<()>(&mut queue, Ok(Some(link()))).unwrap();
        queue.import_blocks(BlockOrigin::File, vec![block(1, 1)]);
        let tasks = queue_calls(&mut queue);
        if finale {
            assert_eq!(tasks.len(), 1);
            assert!(matches!(tasks[0][..], [SyncCall::Restart]));
        } else {
            assert_eq!(tasks.len(), 2);
            assert!(matches!(tasks[0][..], [SyncCall::BlockImported(1, 1)]));
            assert!(matches!(tasks[1][..], [SyncCall::MaintainSync]));
        }

        let mut link = link();
        assert!(import_at_once(finale, Some(&mut link), BlockOrigin::File, vec![block(1, 1)]));
        assert_eq!(calls(&mut link).len(), tasks.len());
    }
}

#[test]
fn link_is_there_while_the_node_is() {
    let mut links = Some(link());
    assert!(links.upgrade().is_some());
    links = None;
    assert!(links.upgrade().is_none());
}

#[test]
fn nothing_is_imported_without_a_link() {
    assert!(!import_at_once::<Block, SyncLink<Block, TestClient>>(
        false,
        None,
        BlockOrigin::File,
        vec![block(1, 1)]
    ));
}

#[test]
fn bad_block_is_reported_and_sync_restarts() {
    let mut link = link();
    let blocks = vec![block(1, 12), block(2, 13), block(3, 14)];
    assert!(import_at_once(false, Some(&mut link), BlockOrigin::File, blocks));
    let tasks = calls(&mut link);
    assert_eq!(tasks.len(), 2);
    assert!(matches!(tasks[0][..], [SyncCall::BlockImported(1, 12)]));
    match &tasks[1][..] {
        [SyncCall::ReportPeer(who, Severity::Useless(reason)), SyncCall::Restart] => {
            assert_eq!(*who, 21);
            assert_eq!(reason, "Import result was stated DisconnectAndRestart");
        }
        other => panic!("{:?}", other),
    }
}

#[test]
fn link_turns_events_into_calls() {
    let mut link = link();
    link.block_imported(&7, 8);
    link.useless_peer(3, "late");
    link.note_useless_and_restart_sync(4, "bad");
    link.restart();
    link.maintain_sync();
    let tasks = calls(&mut link);
    assert_eq!(tasks.len(), 5);
    assert!(matches!(tasks[0][..], [SyncCall::BlockImported(7, 8)]));
    assert!(matches!(&tasks[1][..], [SyncCall::ReportPeer(3, Severity::Useless(reason))] if reason == "late"));
    assert!(matches!(
        &tasks[2][..],
        [SyncCall::ReportPeer(4, Severity::Useless(reason)), SyncCall::Restart] if reason == "bad"
    ));
    assert!(matches!(tasks[3][..], [SyncCall::Restart]));
    assert!(matches!(tasks[4][..], [SyncCall::MaintainSync]));
    assert!(link.take_tasks().is_empty());
    assert!(matches!(link.chain().client, TestClient));
}
