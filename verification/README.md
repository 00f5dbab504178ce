# harmonic-scheduler

An external transaction scheduler for an Agave validator, with its logic verified by Verus.

The scheduler connects to the validator over shared memory, takes in transactions from the validator's
TPU and from a remote TPU, and builds the blocks of the validator's own leader slots: from the blocks
that a block engine sends, or, where none comes in time, from the transactions that it has stored.
While the validator leads, incoming transactions can be mirrored to a co-located strategy server.

## Layout

- `src/` is the library. Everything in it is verified; the few calls into outside crates stand behind
  trusted wrappers, each of which says what it claims.
  - `validator/schedule/`: the dependency graph of a block, and what goes to which worker.
  - `validator/storage.rs`: votes and other transactions between own slots.
  - `validator/fallback_stage.rs`: blocks without a block engine.
  - `validator/scheduler.rs`: the state machine over leader slots.
  - `validator/production.rs`: what the workers are sent over a whole session.
  - `validator/tpu.rs`, `validator/tips.rs`, `ipc/`: ingestion, tip accounts, shared-memory messages.
  - `auth.rs`, `admin_rpc.rs`, `remote_tpu.rs`, `block_engine.rs`, `backrun.rs`, `config.rs`,
    `multicast.rs`, `tpu_override.rs`: the rules of the clients and servers around it.
- `app/` is the program: threads, shared memory, sockets, clocks and command line. It performs what the
  library decides.
- `tests/` run the library with the real outside crates.

Properties that span operations are public proof functions whose names begin with `law_`.
