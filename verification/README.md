# sima-pipeline

The pipeline of a search: placing it on machines, moving it between them, and
bringing its results home. The library under `src/` is written in Verus, and
every function of it is verified against the contract it states.

The library decides and does not act. Some of it computes: a far
configuration, a payload's manifest, the objects a push names, a report, the
scripts a far shell runs. The rest are routines that wait for machines, and
each of those is a state machine: `action` is the one thing to do next, and a
step takes the answer to it. What holds of a whole routine, whatever it is
answered, is stated as a public proof function beside it.

## Layout

| Where | What |
| --- | --- |
| `src/orchestrate.rs` | driving a search on this machine and its fleet |
| `src/rental/` | acquiring rented machines, supervising and replacing them |
| `src/migrate.rs`, `src/session.rs`, `src/recall.rs` | moving a run to another machine, following it there, bringing it back |
| `src/far_config.rs`, `src/far_run.rs`, `src/far_side.rs` | what the far side is given, what it is doing, what its shell runs |
| `src/payload.rs`, `src/ingest.rs`, `src/program_tree.rs`, `src/program_delivery.rs` | a registered program as objects, and back |
| `src/objects.rs` | what a push names |
| `src/report.rs`, `src/runs.rs`, `src/remove.rs`, `src/run_observer.rs` | queries of a store |
| `src/providers.rs`, `src/process.rs`, `src/reach.rs`, `src/program_binding.rs` | control planes, commands, destinations, the program a search is bound to |
| `src/text.rs`, `src/ordered.rs`, `src/toml_document.rs` | texts, ordered maps, TOML documents |
| `app/` | the processes, files and threads that perform what the library decides |
| `tests/` | the library run against scripted machines |

## What is trusted

`src/toml_document.rs` states what the `toml` crate does with documents, tables
and values, and `quote` in `src/text.rs` names the text that Rust's `{:?}` gives
a string. Nothing else is taken without proof.
