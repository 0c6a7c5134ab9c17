# import_queue

The import queue of a blockchain node. Synchronization schedules batches of blocks;
the import thread takes them out one batch at a time and hands the blocks to the
client one by one; what becomes of each block is told to synchronization over a link.

* `src/` is the library, verified with Verus. Its functions say exactly what they do to
  the data of a queue, which calls they make on the client, and what they tell
  synchronization after which of these calls. `queue_laws.rs` and `import_laws.rs` state
  what follows for a queue and for the import of blocks as a whole.
* `app/` puts the library to work in a node: it runs the import thread, locks what the
  thread shares with the users of the queue, calls the client and the synchronization
  service, and logs.
* `tests/` runs the library.

The hash of a block must be a lawful key of a hash set: equal hashes hash alike, and
equality is that of the values.

What was handed to a client and what went over a link is known of those that keep a log.
`LoggedClient` keeps one for any client, and `SyncLink` for any service.
