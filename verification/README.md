# p2p_ft

A super-peer file-sharing network. Leaf peers register their files with a
super-peer's index; queries flood between super-peers with a time to live;
answers travel back to the asking peer; peers download files from one another
and keep downloaded copies fresh, either by polling their origin or by
invalidation notices that the owner floods when a file changes.

- `src/` is the verified library (Verus):
  - `index.rs`: the super-peer's index (`MyGreeter`): registration, search,
    the sorted listing of file names.
  - `super_peer.rs`: the super-peer's query engine: numbering, duplicate
    suppression, flooding to neighbours, answers, routing answers back.
  - `peer_query.rs`: the leaf peer's query engine: collected answers and
    invalidation notices.
  - `ftp.rs`: the table of files a peer serves (`MyFTP`): downloads, expiry,
    invalidation, refresh.
  - `peer.rs`: the leaf peer's identity, addresses and change detection.
  - `command.rs`: the commands a user types.
  - `hashing.rs`, `order.rs`, `text.rs`, `names.rs`, `query.rs`,
    `messages.rs`, `seq_facts.rs`: digests, name order, texts, shared types
    and lemmas.
- `app/` holds the two programs around the library: configuration, files,
  threads and the exchanges between services.
- `tests/` runs the library on concrete values.
