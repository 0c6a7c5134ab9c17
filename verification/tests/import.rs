use import_queue::blocks::{block_hashes, blocks_range, BlockData};
use import_queue::client::{AuthorityId, BlockOrigin, Client, ImportBlock, ImportResult, LoggedClient};
use import_queue::data::{AsyncImportQueueData, QueueHandle};
use import_queue::import::{
    import_many_blocks, import_outcome, import_single_block, import_thread_round, prepare_import,
    process_import_result, BlockImportError, BlockImportResult,
};
use import_queue::link::{NodeIndex, SyncLinkApi};
use import_queue::message;
use import_queue::message::{BlockT, Header};

type Hash = [u8; 32];

#[derive(Clone, Debug)]
struct Block;

impl BlockT for Block {
    type Hash = Hash;
    type Number = u64;
    type Header = Vec<u8>;
    type Extrinsic = Vec<u8>;
}

/// A client that replies from a script, and then as a chain that takes any new block.
struct TestClient {
    script: Vec<Result<ImportResult, String>>,
    chain: Vec<Hash>,
    requests: Vec<ImportBlock<Block>>,
}

impl TestClient {
    fn new() -> TestClient {
        TestClient::scripted(Vec::new())
    }

    fn scripted(mut script: Vec<Result<ImportResult, String>>) -> TestClient {
        script.reverse();
        TestClient { script, chain: Vec::new(), requests: Vec::new() }
    }

    fn justify_and_import(&mut self, hash: Hash) {
        self.chain.push(hash);
    }

    fn numbers(&self) -> Vec<u64> {
        self.requests.iter().map(|request| request.header.number).collect()
    }
}

impl Client<Block> for TestClient {
    type Error = String;

    fn import(
        &mut self,
        block: ImportBlock<Block>,
        new_authorities: Option<Vec<AuthorityId>>,
    ) -> Result<ImportResult, String> {
        assert!(new_authorities.is_none());
        let hash = block.header.hash;
        self.requests.push(block);
        if let Some(reply) = self.script.pop() {
            return reply;
        }
        if self.chain.contains(&hash) {
            return Ok(ImportResult::AlreadyInChain);
        }
        self.chain.push(hash);
        Ok(ImportResult::Queued)
    }
}

struct TestLink {
    chain: TestClient,
    imported: usize,
    maintains: usize,
    disconnects: usize,
    restarts: usize,
    reasons: Vec<(NodeIndex, String)>,
    told: Vec<(usize, &'static str)>,
}

impl TestLink {
    fn new() -> TestLink {
        TestLink::with_client(TestClient::new())
    }

    fn with_client(chain: TestClient) -> TestLink {
        TestLink {
            chain,
            imported: 0,
            maintains: 0,
            disconnects: 0,
            restarts: 0,
            reasons: Vec::new(),
            told: Vec::new(),
        }
    }

    fn total(&self) -> usize {
        self.imported + self.maintains + self.disconnects + self.restarts
    }

    /// Notes a call, and how many blocks the client had been handed by then.
    fn tell(&mut self, what: &'static str) {
        self.told.push((self.chain.requests.len(), what));
    }
}

impl SyncLinkApi<Block> for TestLink {
    type Chain = TestClient;

    fn chain(&mut self) -> &mut TestClient {
        &mut self.chain
    }

    fn block_imported(&mut self, _hash: &Hash, _number: u64) {
        self.imported += 1;
        self.tell("imported");
    }

    fn maintain_sync(&mut self) {
        self.maintains += 1;
        self.tell("maintain");
    }

    fn useless_peer(&mut self, who: NodeIndex, reason: &str) {
        self.disconnects += 1;
        self.reasons.push((who, reason.to_string()));
        self.tell("useless");
    }

    fn note_useless_and_restart_sync(&mut self, who: NodeIndex, reason: &str) {
        self.disconnects += 1;
        self.restarts += 1;
        self.reasons.push((who, reason.to_string()));
        self.tell("useless and restart");
    }

    fn restart(&mut self) {
        self.restarts += 1;
        self.tell("restart");
    }
}

/// A handle on a queue that other threads may stop: what the looks at it give, in order.
struct TestHandle {
    answers: Vec<bool>,
    looks: usize,
    resets: usize,
    finished: Vec<Hash>,
}

impl TestHandle {
    fn answering(answers: Vec<bool>) -> TestHandle {
        TestHandle { answers, looks: 0, resets: 0, finished: Vec::new() }
    }
}

impl QueueHandle<Block> for TestHandle {
    fn is_stopping(&mut self) -> bool {
        self.looks += 1;
        self.answers[self.looks - 1]
    }

    fn reset_best_importing_number(&mut self) {
        self.resets += 1;
    }

    fn finish_blocks(&mut self, hashes: &Vec<Hash>) {
        self.finished.extend(hashes);
    }
}

fn block_from(origin: NodeIndex, hash: Hash, number: u64) -> BlockData<Block> {
    BlockData {
        block: message::BlockData {
            hash,
            header: Some(Header { number, hash, content: vec![7, 7] }),
            body: None,
            receipt: None,
            message_queue: None,
            justification: Some(vec![1, 2, 3]),
        },
        origin,
    }
}

fn prepare_good_block() -> (TestClient, Hash, u64, BlockData<Block>) {
    let mut client = TestClient::new();
    let (hash, number) = ([42; 32], 1);
    client.justify_and_import(hash);
    (client, hash, number, block_from(0, hash, number))
}

#[test]
fn import_single_good_block_works() {
    let (_, hash, number, block) = prepare_good_block();
    assert_eq!(
        import_single_block(&mut TestClient::new(), BlockOrigin::File, block, true),
        Ok(BlockImportResult::ImportedUnknown(hash, number))
    );
}

#[test]
fn import_single_good_known_block_is_ignored() {
    let (mut client, hash, number, block) = prepare_good_block();
    assert_eq!(
        import_single_block(&mut client, BlockOrigin::File, block, true),
        Ok(BlockImportResult::ImportedKnown(hash, number))
    );
}

#[test]
fn import_single_good_block_without_header_fails() {
    let (_, _, _, mut block) = prepare_good_block();
    block.block.header = None;
    assert_eq!(
        import_single_block(&mut TestClient::new(), BlockOrigin::File, block, true),
        Err(BlockImportError::Disconnect(0))
    );
}

#[test]
fn import_single_good_block_without_justification_fails() {
    let (_, _, _, mut block) = prepare_good_block();
    block.block.justification = None;
    assert_eq!(
        import_single_block(&mut TestClient::new(), BlockOrigin::File, block, true),
        Err(BlockImportError::Disconnect(0))
    );
}

#[test]
fn process_import_result_works() {
    let mut link = TestLink::new();
    assert_eq!(process_import_result::<Block, _>(&mut link, Ok(BlockImportResult::ImportedKnown(Default::default(), 0))), 1);
    assert_eq!(link.total(), 1);

    let mut link = TestLink::new();
    assert_eq!(process_import_result::<Block, _>(&mut link, Ok(BlockImportResult::ImportedKnown(Default::default(), 0))), 1);
    assert_eq!(link.total(), 1);
    assert_eq!(link.imported, 1);

    let mut link = TestLink::new();
    assert_eq!(process_import_result::<Block, _>(&mut link, Ok(BlockImportResult::ImportedUnknown(Default::default(), 0))), 1);
    assert_eq!(link.total(), 1);
    assert_eq!(link.imported, 1);

    let mut link = TestLink::new();
    assert_eq!(process_import_result::<Block, _>(&mut link, Err(BlockImportError::Disconnect(0))), 0);
    assert_eq!(link.total(), 1);
    assert_eq!(link.disconnects, 1);

    let mut link = TestLink::new();
    assert_eq!(process_import_result::<Block, _>(&mut link, Err(BlockImportError::DisconnectAndRestart(0))), 0);
    assert_eq!(link.total(), 2);
    assert_eq!(link.disconnects, 1);
    assert_eq!(link.restarts, 1);

    let mut link = TestLink::new();
    assert_eq!(process_import_result::<Block, _>(&mut link, Err(BlockImportError::Restart)), 0);
    assert_eq!(link.total(), 1);
    assert_eq!(link.restarts, 1);
}

#[test]
fn import_many_blocks_stops_when_stopping() {
    let (_, _, _, block) = prepare_good_block();
    let mut qdata = AsyncImportQueueData::<Block>::new();
    qdata.is_stopping = true;
    assert!(!import_many_blocks(
        &mut TestLink::new(),
        Some(&mut qdata),
        (BlockOrigin::File, vec![block.clone(), block]),
        true
    ));
}

#[test]
fn every_reply_has_its_outcome() {
    let outcome = |reply: Result<ImportResult, String>| import_outcome(reply, 5u8, 6u64, 9);
    assert_eq!(outcome(Ok(ImportResult::Queued)), Ok(BlockImportResult::ImportedUnknown(5, 6)));
    assert_eq!(outcome(Ok(ImportResult::AlreadyQueued)), Ok(BlockImportResult::ImportedKnown(5, 6)));
    assert_eq!(outcome(Ok(ImportResult::AlreadyInChain)), Ok(BlockImportResult::ImportedKnown(5, 6)));
    assert_eq!(outcome(Ok(ImportResult::UnknownParent)), Err(BlockImportError::Restart));
    assert_eq!(outcome(Ok(ImportResult::KnownBad)), Err(BlockImportError::DisconnectAndRestart(9)));
    assert_eq!(outcome(Err("database".to_string())), Err(BlockImportError::Restart));
}

#[test]
fn client_gets_the_block_as_it_came() {
    let mut client = TestClient::new();
    let mut block = block_from(4, [1; 32], 12);
    block.block.hash = [2; 32];
    block.block.body = Some(vec![vec![8], vec![9]]);
    assert_eq!(
        import_single_block(&mut client, BlockOrigin::NetworkBroadcast, block, false),
        Ok(BlockImportResult::ImportedUnknown([1; 32], 12))
    );
    let requests = &client.requests;
    assert_eq!(requests.len(), 1);
    assert_eq!(requests[0].origin, BlockOrigin::NetworkBroadcast);
    assert_eq!(requests[0].header.hash, [1; 32]);
    assert_eq!(requests[0].header.number, 12);
    assert_eq!(requests[0].header.content, vec![7, 7]);
    assert_eq!(requests[0].external_justification, vec![1, 2, 3]);
    assert!(requests[0].internal_justification.is_empty());
    assert_eq!(requests[0].body, Some(vec![vec![8], vec![9]]));
    assert!(!requests[0].finalized);
    assert!(requests[0].auxiliary.is_empty());
}

#[test]
fn incomplete_block_does_not_reach_the_client() {
    let mut client = TestClient::new();
    let mut block = block_from(3, [1; 32], 1);
    block.block.header = None;
    block.block.justification = None;
    assert_eq!(
        import_single_block(&mut client, BlockOrigin::File, block.clone(), true),
        Err(BlockImportError::Disconnect(3))
    );
    assert!(client.requests.is_empty());
    assert!(matches!(
        prepare_import(BlockOrigin::File, block, true),
        Err(BlockImportError::Disconnect(3))
    ));
}

#[test]
fn complete_block_is_prepared() {
    let request = prepare_import(BlockOrigin::Own, block_from(3, [1; 32], 1), true).unwrap();
    assert!(request.finalized);
    assert_eq!(request.origin, BlockOrigin::Own);
    assert_eq!(request.header.hash, [1; 32]);
    assert!(request.body.is_none());
}

#[test]
fn reasons_are_told() {
    let mut link = TestLink::new();
    process_import_result::<Block, _>(&mut link, Err(BlockImportError::Disconnect(3)));
    process_import_result::<Block, _>(&mut link, Err(BlockImportError::DisconnectAndRestart(4)));
    assert_eq!(
        link.reasons,
        vec![
            (3, "Import result was stated Disconnect".to_string()),
            (4, "Import result was stated DisconnectAndRestart".to_string()),
        ]
    );
}

#[test]
fn whole_batch_lets_sync_go_on() {
    let mut link = TestLink::new();
    let mut qdata = AsyncImportQueueData::<Block>::new();
    qdata.best_importing_number = 9;
    let blocks = vec![block_from(0, [1; 32], 1), block_from(0, [2; 32], 2)];
    assert!(import_many_blocks(&mut link, Some(&mut qdata), (BlockOrigin::File, blocks), true));
    assert_eq!(link.imported, 2);
    assert_eq!(link.maintains, 1);
    assert_eq!(link.total(), 3);
    assert_eq!(qdata.best_importing_number, 9);
}

#[test]
fn failed_block_ends_the_batch() {
    let client = TestClient::scripted(vec![
        Ok(ImportResult::Queued),
        Ok(ImportResult::KnownBad),
        Ok(ImportResult::Queued),
    ]);
    let mut link = TestLink::with_client(client);
    let mut qdata = AsyncImportQueueData::<Block>::new();
    qdata.best_importing_number = 9;
    qdata.is_stopping = false;
    let blocks = vec![
        block_from(5, [1; 32], 1),
        block_from(6, [2; 32], 2),
        block_from(7, [3; 32], 3),
    ];
    assert!(import_many_blocks(&mut link, Some(&mut qdata), (BlockOrigin::File, blocks), true));
    assert_eq!(link.chain.requests.len(), 2);
    assert_eq!(link.imported, 1);
    assert_eq!(link.restarts, 1);
    assert_eq!(link.disconnects, 1);
    assert_eq!(link.maintains, 0);
    assert_eq!(link.reasons[0].0, 6);
    assert_eq!(link.told, vec![(1, "imported"), (2, "useless and restart")]);
    assert_eq!(link.chain.numbers(), vec![1, 2]);
    assert_eq!(qdata.best_importing_number, 0);
}

#[test]
fn incomplete_block_ends_the_batch() {
    let mut link = TestLink::new();
    let mut incomplete = block_from(6, [2; 32], 2);
    incomplete.block.justification = None;
    let blocks = vec![block_from(5, [1; 32], 1), incomplete, block_from(7, [3; 32], 3)];
    let mut qdata = AsyncImportQueueData::<Block>::new();
    assert!(import_many_blocks(&mut link, Some(&mut qdata), (BlockOrigin::File, blocks), true));
    assert_eq!(link.chain.numbers(), vec![1]);
    assert_eq!(link.told, vec![(1, "imported"), (1, "useless")]);
    assert_eq!(link.reasons, vec![(6, "Import result was stated Disconnect".to_string())]);
}

#[test]
fn each_block_is_told_of_before_the_next_is_handed_over() {
    let mut link = TestLink::new();
    let mut qdata = AsyncImportQueueData::<Block>::new();
    let blocks = vec![
        block_from(0, [1; 32], 1),
        block_from(0, [2; 32], 2),
        block_from(0, [3; 32], 3),
    ];
    assert!(import_many_blocks(&mut link, Some(&mut qdata), (BlockOrigin::Own, blocks), false));
    assert_eq!(
        link.told,
        vec![(1, "imported"), (2, "imported"), (3, "imported"), (3, "maintain")]
    );
    assert_eq!(link.chain.numbers(), vec![1, 2, 3]);
    assert!(link.chain.requests.iter().all(|request| request.origin == BlockOrigin::Own));
    assert!(link.chain.requests.iter().all(|request| !request.finalized));
}

#[test]
fn failure_outweighs_stopping() {
    let mut link = TestLink::with_client(TestClient::scripted(vec![Ok(ImportResult::UnknownParent)]));
    let mut qdata = AsyncImportQueueData::<Block>::new();
    qdata.is_stopping = true;
    let blocks = vec![block_from(0, [1; 32], 1), block_from(0, [2; 32], 2)];
    assert!(import_many_blocks(&mut link, Some(&mut qdata), (BlockOrigin::File, blocks), true));
    assert_eq!(link.total(), 1);
    assert_eq!(link.restarts, 1);
    assert_eq!(link.chain.numbers(), vec![1]);
}

#[test]
fn stopped_batch_does_not_let_sync_go_on() {
    let mut link = TestLink::new();
    let mut qdata = AsyncImportQueueData::<Block>::new();
    qdata.is_stopping = true;
    let blocks = vec![block_from(0, [1; 32], 1), block_from(0, [2; 32], 2)];
    assert!(!import_many_blocks(&mut link, Some(&mut qdata), (BlockOrigin::File, blocks), true));
    assert_eq!(link.imported, 1);
    assert_eq!(link.total(), 1);
    assert_eq!(link.chain.numbers(), vec![1]);
}

#[test]
fn run_ends_when_it_sees_the_queue_stopping_later() {
    let mut link = TestLink::new();
    let mut handle = TestHandle::answering(vec![false, true]);
    let blocks = vec![
        block_from(0, [1; 32], 1),
        block_from(0, [2; 32], 2),
        block_from(0, [3; 32], 3),
    ];
    assert!(!import_many_blocks(&mut link, Some(&mut handle), (BlockOrigin::File, blocks), true));
    assert_eq!(link.told, vec![(1, "imported"), (2, "imported")]);
    assert_eq!(link.maintains, 0);
    assert_eq!(link.chain.numbers(), vec![1, 2]);
    assert_eq!(handle.looks, 2);
    assert_eq!(handle.resets, 0);
}

#[test]
fn run_that_is_stopped_after_its_last_block_does_not_let_sync_go_on() {
    let mut link = TestLink::new();
    let mut handle = TestHandle::answering(vec![false, true]);
    let blocks = vec![block_from(0, [1; 32], 1), block_from(0, [2; 32], 2)];
    assert!(!import_thread_round(Some(&mut link), &mut handle, (BlockOrigin::File, blocks), true));
    assert_eq!(link.imported, 2);
    assert_eq!(link.maintains, 0);
    assert!(handle.finished.is_empty());
}

#[test]
fn run_looks_after_each_imported_block() {
    let mut link = TestLink::with_client(TestClient::scripted(vec![
        Ok(ImportResult::Queued),
        Ok(ImportResult::AlreadyInChain),
        Ok(ImportResult::UnknownParent),
    ]));
    let mut handle = TestHandle::answering(vec![false, false]);
    let blocks = vec![
        block_from(0, [1; 32], 1),
        block_from(0, [2; 32], 2),
        block_from(0, [3; 32], 3),
    ];
    assert!(import_thread_round(Some(&mut link), &mut handle, (BlockOrigin::File, blocks), true));
    assert_eq!(handle.looks, 2);
    assert_eq!(handle.resets, 1);
    assert_eq!(handle.finished, vec![[1; 32], [2; 32], [3; 32]]);
    assert_eq!(link.restarts, 1);
}

#[test]
fn batch_without_a_queue_is_imported_whole() {
    let mut link = TestLink::new();
    let blocks = vec![block_from(0, [1; 32], 1), block_from(0, [1; 32], 1)];
    assert!(import_many_blocks::<Block, _, AsyncImportQueueData<Block>>(
        &mut link,
        None,
        (BlockOrigin::File, blocks),
        true
    ));
    assert_eq!(link.imported, 2);
    assert_eq!(link.maintains, 1);
}

#[test]
fn batch_without_blocks_only_lets_sync_go_on() {
    let mut link = TestLink::new();
    let mut qdata = AsyncImportQueueData::<Block>::new();
    qdata.is_stopping = true;
    assert!(import_many_blocks(&mut link, Some(&mut qdata), (BlockOrigin::File, vec![]), true));
    assert_eq!(link.maintains, 1);
    assert_eq!(link.total(), 1);
    assert!(link.chain.requests.is_empty());
}

#[test]
fn round_of_the_import_thread_finishes_its_batch() {
    let mut link = TestLink::new();
    let mut qdata = AsyncImportQueueData::<Block>::new();
    qdata.import_blocks(BlockOrigin::File, vec![block_from(0, [1; 32], 1), block_from(0, [2; 32], 2)]);
    qdata.import_blocks(BlockOrigin::File, vec![block_from(0, [3; 32], 3)]);
    let batch = qdata.take_batch().unwrap();
    assert!(import_thread_round(Some(&mut link), &mut qdata, batch, true));
    assert_eq!(link.imported, 2);
    assert!(!qdata.queue_blocks.contains(&[1; 32]));
    assert!(!qdata.queue_blocks.contains(&[2; 32]));
    assert!(qdata.queue_blocks.contains(&[3; 32]));
    assert_eq!(qdata.best_importing_number, 3);
}

#[test]
fn failed_round_of_the_import_thread_finishes_its_batch_too() {
    let mut link = TestLink::with_client(TestClient::scripted(vec![Err("database".to_string())]));
    let mut qdata = AsyncImportQueueData::<Block>::new();
    qdata.import_blocks(BlockOrigin::File, vec![block_from(0, [1; 32], 1), block_from(0, [2; 32], 2)]);
    let batch = qdata.take_batch().unwrap();
    assert!(import_thread_round(Some(&mut link), &mut qdata, batch, true));
    assert_eq!(link.restarts, 1);
    assert!(qdata.queue_blocks.is_empty());
    assert_eq!(qdata.best_importing_number, 0);
}

#[test]
fn stopped_round_of_the_import_thread_leaves_the_queue() {
    let mut link = TestLink::new();
    let mut qdata = AsyncImportQueueData::<Block>::new();
    qdata.import_blocks(BlockOrigin::File, vec![block_from(0, [1; 32], 1)]);
    let batch = qdata.take_batch().unwrap();
    qdata.request_stop();
    assert!(!import_thread_round(Some(&mut link), &mut qdata, batch, true));
    assert!(qdata.queue_blocks.contains(&[1; 32]));
}

#[test]
fn import_thread_ends_without_a_link() {
    let mut qdata = AsyncImportQueueData::<Block>::new();
    qdata.import_blocks(BlockOrigin::File, vec![block_from(0, [1; 32], 1)]);
    let batch = qdata.take_batch().unwrap();
    assert!(!import_thread_round::<Block, TestLink, _>(None, &mut qdata, batch, true));
    assert!(qdata.queue_blocks.contains(&[1; 32]));
    assert!(!QueueHandle::is_stopping(&mut qdata));
}

#[test]
fn hashes_are_those_announced() {
    let mut block = block_from(0, [1; 32], 1);
    block.block.hash = [9; 32];
    assert_eq!(block_hashes(&vec![block, block_from(0, [2; 32], 2)]), vec![[9; 32], [2; 32]]);
}

#[test]
fn block_that_waits_again_goes_on_importing_after_a_round() {
    let mut link = TestLink::new();
    let mut qdata = AsyncImportQueueData::<Block>::new();
    qdata.import_blocks(BlockOrigin::File, vec![block_from(0, [1; 32], 1), block_from(0, [2; 32], 2)]);
    let batch = qdata.take_batch().unwrap();
    qdata.import_blocks(BlockOrigin::File, vec![block_from(0, [2; 32], 2)]);
    assert!(import_thread_round(Some(&mut link), &mut qdata, batch, true));
    assert!(!qdata.queue_blocks.contains(&[1; 32]));
    assert!(qdata.queue_blocks.contains(&[2; 32]));
    let batch = qdata.take_batch().unwrap();
    assert!(import_thread_round(Some(&mut link), &mut qdata, batch, true));
    assert!(qdata.queue_blocks.is_empty());
}

#[test]
fn batches_reach_the_client_in_order() {
    let mut link = TestLink::with_client(TestClient::scripted(vec![
        Ok(ImportResult::Queued),
        Ok(ImportResult::Queued),
        Ok(ImportResult::UnknownParent),
    ]));
    let mut qdata = AsyncImportQueueData::<Block>::new();
    qdata.import_blocks(BlockOrigin::File, vec![block_from(0, [5; 32], 5), block_from(0, [6; 32], 6)]);
    qdata.import_blocks(BlockOrigin::Own, vec![block_from(0, [1; 32], 1), block_from(0, [2; 32], 2)]);
    let batch = qdata.take_batch().unwrap();
    assert!(import_thread_round(Some(&mut link), &mut qdata, batch, true));
    qdata.import_blocks(BlockOrigin::NetworkBroadcast, vec![block_from(0, [9; 32], 9)]);
    let batch = qdata.take_batch().unwrap();
    assert!(import_thread_round(Some(&mut link), &mut qdata, batch, true));
    let batch = qdata.take_batch().unwrap();
    assert!(import_thread_round(Some(&mut link), &mut qdata, batch, true));
    assert_eq!(link.chain.numbers(), vec![5, 6, 1, 9]);
    let origins: Vec<BlockOrigin> = link.chain.requests.iter().map(|request| request.origin).collect();
    assert_eq!(
        origins,
        vec![
            BlockOrigin::File,
            BlockOrigin::File,
            BlockOrigin::Own,
            BlockOrigin::NetworkBroadcast,
        ]
    );
}

#[test]
fn announced_hash_receipt_and_message_queue_make_no_difference() {
    let mut one = TestClient::new();
    let mut other = TestClient::new();
    let block = block_from(4, [1; 32], 12);
    let mut changed = block.clone();
    changed.block.hash = [2; 32];
    changed.block.receipt = Some(vec![1]);
    changed.block.message_queue = Some(vec![2]);
    assert_eq!(
        import_single_block(&mut one, BlockOrigin::File, block, true),
        import_single_block(&mut other, BlockOrigin::File, changed, true)
    );
    assert_eq!(one.requests.len(), 1);
    assert_eq!(format!("{:?}", one.requests), format!("{:?}", other.requests));
}

#[test]
fn logged_client_hands_everything_on() {
    let inner = TestClient::scripted(vec![Ok(ImportResult::KnownBad), Err("database".to_string())]);
    let mut client = LoggedClient::new(inner);
    assert_eq!(
        import_single_block(&mut client, BlockOrigin::File, block_from(4, [1; 32], 12), true),
        Err(BlockImportError::DisconnectAndRestart(4))
    );
    assert_eq!(
        import_single_block(&mut client, BlockOrigin::File, block_from(4, [2; 32], 13), true),
        Err(BlockImportError::Restart)
    );
    assert_eq!(client.client.numbers(), vec![12, 13]);
}

#[test]
fn range_is_that_of_the_outer_blocks() {
    let mut headless = block_from(0, [9; 32], 9);
    headless.block.header = None;
    assert_eq!(blocks_range::<Block>(&vec![]), None);
    assert_eq!(blocks_range(&vec![block_from(0, [4; 32], 4)]), Some((4, 4)));
    assert_eq!(
        blocks_range(&vec![block_from(0, [4; 32], 4), headless.clone(), block_from(0, [6; 32], 6)]),
        Some((4, 6))
    );
    assert_eq!(blocks_range(&vec![block_from(0, [4; 32], 4), headless.clone()]), None);
    assert_eq!(blocks_range(&vec![headless, block_from(0, [4; 32], 4)]), None);
}
