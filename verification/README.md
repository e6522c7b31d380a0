# Crayon

A task runtime with one coordinator and disposable workers, written in Verus.

- `src/` is the verified library. `coordinator` holds the state machine, its
  invariant and the laws that follow from it; `cluster` answers requests over that
  state, the shared-memory `arena` and the `replay` cache; `answers` says what one
  answer means for another. `client`, `worker` and `serving` hold the decisions
  around the network, and `object_store`, `scheduler`, `actor`, `node` and their
  neighbours those of the in-process runtime.
- `tests/` runs the library on concrete values.
- `app/` is the program `crayon-cluster`: sockets, files, clocks, processes, and
  whatever computes with fractions.

What the library takes from other crates on trust stands behind small functions
marked `external_body`, each with a comment that says what is claimed.
