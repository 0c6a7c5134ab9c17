use import_queue::blocks::BlockData;
use import_queue::client::BlockOrigin;
use import_queue::data::{AsyncImportQueueData, QueueHandle, ThreadAction};
use import_queue::message;
use import_queue::message::{BlockNumber, BlockT, Header};
use import_queue::queue::{BasicQueue, Error, ImportQueue};

#[derive(Clone, Debug)]
struct Block;

impl BlockT for Block {
    type Hash = u64;
    type Number = u32;
    type Header = ();
    type Extrinsic = ();
}

fn block(hash: u64, number: Option<u32>) -> BlockData<Block> {
    BlockData {
        block: message::BlockData {
            hash,
            header: number.map(|number| Header { number, hash: hash + 1000, content: () }),
            body: None,
            receipt: None,
            message_queue: None,
            justification: None,
        },
        origin: 0,
    }
}

fn batch(first: u64, count: u64) -> Vec<BlockData<Block>> {
    (first..first + count).map(|n| block(n, Some(n as u32))).collect()
}

fn hashes(blocks: &[BlockData<Block>]) -> Vec<u64> {
    blocks.iter().map(|b| b.block.hash).collect()
}

type Queue = BasicQueue<Block, &'static str>;

#[test]
fn async_import_queue_drops() {
    let mut queue = Queue::new(true);
    assert_eq!(queue.start::<String>(Ok("thread")), Ok(()));
    assert!(matches!(queue.data.thread_action(false), ThreadAction::Wait));
    assert_eq!(queue.stop(), Some("thread"));
    assert!(matches!(queue.data.thread_action(false), ThreadAction::End));
    assert!(matches!(queue.data.thread_action(true), ThreadAction::End));
    assert_eq!(queue.stop(), None);
}

#[test]
fn new_queue_is_empty() {
    let queue = Queue::new(false);
    assert!(!queue.instant_finality);
    assert!(queue.handle.is_none());
    assert_eq!(queue.status().importing_count, 0);
    assert_eq!(queue.status().best_importing_number, 0);
    assert!(!queue.is_importing(&1));
    assert!(Queue::new(true).instant_finality);
}

#[test]
fn failed_start_is_told() {
    let mut queue = Queue::new(true);
    assert_eq!(queue.start(Err("no threads left")), Err(Error::Io("no threads left")));
    assert!(queue.handle.is_none());
    assert_eq!(queue.stop(), None);
    assert!(matches!(queue.data.thread_action(false), ThreadAction::Wait));
}

#[test]
fn scheduled_blocks_are_importing() {
    let mut queue = Queue::new(true);
    assert!(queue.import_blocks(BlockOrigin::NetworkBroadcast, batch(1, 3)));
    assert_eq!(queue.status().importing_count, 3);
    assert_eq!(queue.status().best_importing_number, 3);
    assert!(queue.is_importing(&1) && queue.is_importing(&2) && queue.is_importing(&3));
    assert!(!queue.is_importing(&4));
    assert!(!queue.is_importing(&1001));
}

#[test]
fn scheduling_nothing_changes_nothing() {
    let mut queue = Queue::new(true);
    assert!(!queue.import_blocks(BlockOrigin::File, vec![]));
    assert_eq!(queue.status().importing_count, 0);
    assert!(matches!(queue.data.thread_action(false), ThreadAction::Wait));
}

#[test]
fn batches_leave_in_order() {
    let mut data = AsyncImportQueueData::<Block>::new();
    data.import_blocks(BlockOrigin::File, batch(1, 2));
    data.import_blocks(BlockOrigin::Own, batch(5, 1));
    let (origin, blocks) = match data.thread_action(false) {
        ThreadAction::Import(batch) => batch,
        other => panic!("{:?}", other),
    };
    assert_eq!(origin, BlockOrigin::File);
    assert_eq!(hashes(&blocks), vec![1, 2]);
    data.import_blocks(BlockOrigin::Genesis, batch(9, 1));
    assert_eq!(hashes(&data.take_batch().unwrap().1), vec![5]);
    assert_eq!(hashes(&data.take_batch().unwrap().1), vec![9]);
    assert!(data.take_batch().is_none());
    assert!(matches!(data.thread_action(false), ThreadAction::Wait));
}

#[test]
fn thread_that_is_woken_takes_a_batch_or_ends() {
    let mut data = AsyncImportQueueData::<Block>::new();
    assert!(matches!(data.thread_action(false), ThreadAction::Wait));
    assert!(matches!(data.thread_action(true), ThreadAction::End));
    data.import_blocks(BlockOrigin::File, batch(1, 2));
    data.import_blocks(BlockOrigin::Own, batch(5, 1));
    match data.thread_action(true) {
        ThreadAction::Import((origin, blocks)) => {
            assert_eq!(origin, BlockOrigin::File);
            assert_eq!(hashes(&blocks), vec![1, 2]);
        }
        other => panic!("{:?}", other),
    }
    assert_eq!(data.queue.len(), 1);
    assert_eq!(data.queue_blocks.len(), 3);
    data.request_stop();
    assert!(matches!(data.thread_action(false), ThreadAction::End));
    assert_eq!(data.queue.len(), 1);
    assert!(matches!(data.thread_action(true), ThreadAction::Import(_)));
    assert!(matches!(data.thread_action(true), ThreadAction::End));
}

#[test]
fn clearing_drops_batches_but_keeps_the_order() {
    let mut data = AsyncImportQueueData::<Block>::new();
    data.import_blocks(BlockOrigin::File, batch(1, 2));
    data.import_blocks(BlockOrigin::File, batch(5, 1));
    assert_eq!(hashes(&data.take_batch().unwrap().1), vec![1, 2]);
    data.clear();
    assert!(data.take_batch().is_none());
    data.import_blocks(BlockOrigin::File, batch(3, 1));
    data.import_blocks(BlockOrigin::File, batch(1, 1));
    assert_eq!(hashes(&data.take_batch().unwrap().1), vec![3]);
    assert_eq!(hashes(&data.take_batch().unwrap().1), vec![1]);
}

#[test]
fn best_number_is_the_highest_scheduled() {
    let mut queue = Queue::new(true);
    queue.import_blocks(BlockOrigin::File, batch(4, 3));
    assert_eq!(queue.status().best_importing_number, 6);
    queue.import_blocks(BlockOrigin::File, batch(1, 2));
    assert_eq!(queue.status().best_importing_number, 6);
    queue.import_blocks(BlockOrigin::File, vec![block(51, None)]);
    assert_eq!(queue.status().best_importing_number, 6);
    queue.import_blocks(BlockOrigin::File, vec![block(9, Some(9)), block(7, Some(7))]);
    assert_eq!(queue.status().best_importing_number, 9);
    queue.import_blocks(BlockOrigin::File, vec![block(50, Some(50)), block(52, None)]);
    assert_eq!(queue.status().best_importing_number, 50);
}

#[test]
fn failure_sets_the_best_number_back() {
    let mut data = AsyncImportQueueData::<Block>::new();
    data.import_blocks(BlockOrigin::File, batch(4, 3));
    data.reset_best_importing_number();
    assert_eq!(data.best_importing_number, 0);
    assert_eq!(data.queue_blocks.len(), 3);
    assert_eq!(data.queue.len(), 1);
}

#[test]
fn same_hash_counts_once() {
    let mut queue = Queue::new(true);
    queue.import_blocks(BlockOrigin::File, vec![block(1, Some(1)), block(1, Some(1))]);
    queue.import_blocks(BlockOrigin::File, batch(1, 2));
    assert_eq!(queue.status().importing_count, 2);
}

#[test]
fn finished_blocks_are_not_importing() {
    let mut queue = Queue::new(true);
    queue.import_blocks(BlockOrigin::File, batch(1, 3));
    queue.import_blocks(BlockOrigin::File, batch(8, 1));
    queue.data.take_batch().unwrap();
    queue.data.finish_blocks(&vec![1, 2, 3, 77]);
    assert!(!queue.is_importing(&1) && !queue.is_importing(&2) && !queue.is_importing(&3));
    assert!(queue.is_importing(&8));
    assert_eq!(queue.status().importing_count, 1);
}

#[test]
fn block_scheduled_twice_counts_until_its_last_import_ends() {
    let mut queue = Queue::new(true);
    queue.import_blocks(BlockOrigin::File, batch(1, 1));
    queue.import_blocks(BlockOrigin::File, batch(1, 1));
    queue.data.take_batch().unwrap();
    assert!(queue.is_importing(&1));
    queue.data.finish_blocks(&vec![1]);
    assert!(queue.is_importing(&1));
    assert_eq!(queue.status().importing_count, 1);
    queue.data.take_batch().unwrap();
    queue.data.finish_blocks(&vec![1]);
    assert!(!queue.is_importing(&1));
    assert_eq!(queue.status().importing_count, 0);
}

#[test]
fn block_scheduled_anew_after_clearing_counts() {
    let mut queue = Queue::new(true);
    queue.import_blocks(BlockOrigin::File, batch(1, 2));
    queue.data.take_batch().unwrap();
    queue.clear();
    queue.import_blocks(BlockOrigin::File, batch(2, 2));
    queue.data.finish_blocks(&vec![1, 2]);
    assert!(!queue.is_importing(&1));
    assert!(queue.is_importing(&2) && queue.is_importing(&3));
}

#[test]
fn importing_undoes_scheduling() {
    let mut queue = Queue::new(true);
    let before = queue.data.queue_blocks.clone();
    queue.import_blocks(BlockOrigin::File, batch(5, 2));
    assert_eq!(queue.status().importing_count, 2);
    queue.data.take_batch().unwrap();
    assert_eq!(queue.status().importing_count, 2);
    queue.data.finish_blocks(&vec![5, 6]);
    assert_eq!(queue.data.queue_blocks, before);
}

#[test]
fn cleared_queue_is_as_new() {
    let mut queue = Queue::new(true);
    queue.start::<String>(Ok("thread")).unwrap();
    queue.import_blocks(BlockOrigin::File, batch(1, 3));
    queue.clear();
    assert_eq!(queue.status().importing_count, 0);
    assert_eq!(queue.status().best_importing_number, 0);
    assert!(!queue.is_importing(&1));
    assert!(matches!(queue.data.thread_action(false), ThreadAction::Wait));
    assert_eq!(queue.handle, Some("thread"));
}

#[test]
fn stopped_queue_stays_stopped() {
    let mut queue = Queue::new(true);
    queue.start::<String>(Ok("thread")).unwrap();
    queue.import_blocks(BlockOrigin::File, batch(1, 3));
    assert_eq!(queue.stop(), Some("thread"));
    assert_eq!(queue.status().importing_count, 0);
    assert!(QueueHandle::is_stopping(&mut queue.data));
    queue.clear();
    queue.import_blocks(BlockOrigin::File, batch(1, 3));
    assert!(matches!(queue.data.thread_action(false), ThreadAction::End));
    queue.start::<String>(Ok("another thread")).unwrap();
    assert!(matches!(queue.data.thread_action(false), ThreadAction::End));
}

#[test]
fn queue_without_a_thread_is_only_cleared_by_stop() {
    let mut queue = Queue::new(true);
    queue.import_blocks(BlockOrigin::File, batch(1, 3));
    assert_eq!(queue.stop(), None);
    assert_eq!(queue.status().importing_count, 0);
    assert!(!queue.data.is_stopping);
}

#[test]
fn numbers_compare() {
    assert!(5u64.exceeds(4));
    assert!(!5u64.exceeds(5));
    assert!(!4u32.exceeds(5));
    assert_eq!(<u64 as BlockNumber>::zero(), 0);
    assert_eq!(<u32 as BlockNumber>::zero(), 0);
}
