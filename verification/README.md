# mpi_tasks

Verified logic of two MPI exercises.

- `src/tree.rs`: a node of Raymond's token tree for mutual exclusion and
  `ProcTree::receive`, which handles a token or a request and returns the
  actions (enter the critical section, send the token, send a request) in
  order; its contract is the exact step, `receive_step`.
- `src/tree_laws.rs`: what every step keeps (shape, LIFO service of the
  queue, the token used only while held and handed on at most once, ...).
- `src/network.rs`: the whole tree with messages in flight; delivering a
  message never increases the number of tokens.
- `src/topology.rs`: the heap-shaped tree, the path to the initial token
  holder and the initial token pointers, which lead to the token.
- `src/messages.rs`: the integer codes of the messages.
- `src/rows.rs`: the round-robin distribution of matrix rows over processes.
- `app/`: the MPI programs (`raymond [marker rank]`, `gauss [matrix size]`):
  message passing, log files, the simulated critical section, and the
  floating-point elimination.
