//! The import queue of a blockchain node: what stands between synchronization,
//! which collects blocks from peers, and the client, which imports them.
//!
//! A batch of blocks is scheduled with [`queue::ImportQueue::import_blocks`],
//! waits in the queue, is taken out by the import thread and imported block by
//! block; what becomes of each block is told to synchronization through a
//! [`link::SyncLinkApi`].

pub mod blocks;
pub mod client;
pub mod data;
pub mod data_laws;
pub mod import;
pub mod import_laws;
pub mod link;
pub mod link_laws;
pub mod message;
pub mod queue;
pub mod queue_laws;
pub mod run_laws;

pub mod sync_queue;
