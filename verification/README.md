# libp2p-kad-fastboot

A libp2p Kademlia peer that bootstraps from the routing table it saved on its
last run, and reports how long bootstrapping took.

- `src/` is the verified library (Verus): multiaddresses as sequences of
  components (`address`), reading peer identities and IP addresses out of them
  (`util`), where the routing table comes from (`bootstrap`), the key and peer-id files of its identity (`identity`), the file of the saved routing table (`saved_state`), what the peer knows
  and decides on each event of its run (`peer`), which log messages are written
  (`log`), text helpers (`text`) and the program's option defaults (`options`).
- `app/` is the program: command line, reading and writing the files, key generation, the tracing
  layer, and the swarm loop that hands events to the library and performs what
  it decides.
- `tests/` runs the library on concrete values.
