# runehook

Rune bookkeeping for a Bitcoin indexer, verified with Verus.

- `src/` is the library. Its contracts and laws are proved.
  - `runes`, `chain`: the protocol messages and transactions that the ledger reads.
  - `mempool`: the ledger entries that a transaction in the mempool gives rise to
    (`edicts`, `movement`, `ledger`, `parse`), what they conserve (`conservation`), and the
    steps of following the mempool (`watch`, `scan`, `walk`, `cache`).
  - `db`: the statements that store the bookkeeping, step by step, and the wire formats of
    the columns (`db::types`).
- `app/` runs the steps: it connects to Postgres and to the node, and performs what the
  library asks for.
- `tests/` runs the library on concrete values, with `bitcoin`, `ordinals`, `num-bigint` and
  `bytes` linked.

What the library takes on trust are the functions marked `#[verifier::external_body]`. Each
makes one call into an outside crate and converts what goes in and comes out. Its comment says
what is claimed of the call.
