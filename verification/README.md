# actrs

A small actor runtime, a persistent list / property-list library, and a
log-processing pipeline built on them, with the logic written and proved in
Verus.

## Layout

- `src/` — the verified library.
  - `list.rs`, `proplist.rs`: a shared, immutable cons list (`List`, `Iter`)
    and property-list lookups (`get_value`, `get_values`, `delete`,
    `to_map`, `from_map`), with their laws.
  - `actor_queue.rs`, `stage.rs`, `dash.rs`: the scheduler of a stage —
    pending-message counters and mailboxes, the run queue, starting / idle /
    running / removed actors, and the turn limit — as a state machine
    with an invariant that every operation keeps; the concurrent maps are
    `dashmap` maps behind small wrappers.
  - `actor.rs`, `actor_message.rs`: the result of a message handler and
    actor references.
  - `actor_macro.rs`: the checks that the `#[actor]` attribute makes on an
    `impl` block (receiver kinds, return types, handler attributes,
    arguments), over a plain description of the items.
  - `log_pipeline.rs`, `text.rs`, `report.rs`: the reader, dispatcher,
    worker, collector and ledger handlers of the example pipeline, the
    line parser and checksum, and the stable sort used for reports;
    `sample_log.rs`: the lines of a generated sample log.
- `tests/` — tests run against the compiled library.
- `app/` — the parts that Verus does not see: threads, locks and condition
  variables of the running stage, the clock of its time slices, file I/O and printing, and the
  program's `main`.
