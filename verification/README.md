# raft

Leader election in the style of Raft, as a library of actors whose
behaviour is specified and proved with Verus.

- `src/message.rs`, `src/node.rs`: the messages, a node's state and its
  roles, each with a mathematical view.
- `src/roles/`: what each role (idler, voter, follower, candidate, leader)
  does on a poll and on a message, as spec functions and verified code;
  `roles/mod.rs` dispatches on the role and states the laws of a step.
- `src/actor.rs`: an actor polls: its clock ticks, it reads its inbox, polls
  its role and appends what it sends to its outbox.
- `src/cluster.rs`: naming the nodes, building a cluster, polling every
  actor, delivering every outbox to the other actors, and resetting an
  actor.
- `src/demo.rs`: a smaller stand-alone election among numbered nodes,
  simulated tick by tick.
- `src/text.rs`: decimal rendering and the log prefix's text.
- `app/`: the program that runs a five-node cluster forever (or, with the
  argument `demo`, the three-node simulation).

Random election timeouts come from `rand`; the contracts of the functions
that draw them hold for every timeout in range, and functions that take the
timeout as an argument are specified exactly.
