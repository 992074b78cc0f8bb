# safe_node

The decisions of a storage node, written in Rust and verified with Verus.

A node of the network stores records under keys: chunks of immutable data, signed spends of
digital bearer certificates, and registers. The library in `src/` decides

- which records are stored, overwritten, ignored and refused (`store`, `steps`, `content`),
- which records are handed on to a peer (`store`, `keyspace`),
- which peers are asked to prove that they hold a record (`fault_detection`),
- how the daemon that manages nodes is installed and what it answers (`daemon`).

The library performs no I/O. A request that needs a file is a sequence of steps: the library names
the file to read, write or delete, and the caller reports back. `laws` states what holds of a store
together with the files in its directory, such as that a read gives back what a write wrote.

Calls into other crates (bincode, libp2p, rand, service-manager, sn_dbc, xor_name) go through small
functions whose contracts are believed rather than proved. Each says what it claims.

`tests/` runs the library with an in-memory directory. `app/` is the program around it: files,
network, services and the RPC server of the daemon.
