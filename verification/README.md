# leader_election

Two leader-election algorithms for a group of nodes named by IPv4-style
addresses, whose number is the last field of the address:

- the bully algorithm (`src/bully.rs`, `src/bully/`): a node challenges every
  node numbered above it; if none of them answers OK it leads and announces
  so to every other node, otherwise it waits for the announcement;
- the ring (circle) algorithm (`src/circle.rs`, `src/circle/`, `src/ring.rs`):
  an election message collects the numbers of the live nodes on its way round
  the ring, and the highest number leads.

`src/` holds the decisions of both algorithms as verified state machines and
functions, with their contracts and the laws they obey. `app/` runs a node:
it reads the configuration, listens on the network, and carries out the
actions the state machines ask for (`leader_election bully` or
`leader_election circle`, with the node's address in `PROCESS`).
