# hoverstare

The deterministic core of a code review bot, verified with Verus.

The library decides; the program around it performs. Everything that can be
stated as a function of plain values stands in `src/` with a contract that says
exactly what it returns, and the properties that span functions stand beside them
as public proof functions named `law_...`.

## Layout

| Place | What it holds |
|---|---|
| `src/text.rs`, `src/paths.rs`, `src/sorting.rs`, `src/json.rs`, `src/glob.rs` | characters, paths, ordering, JSON documents, patterns |
| `src/diff.rs` | sections of a diff and the size budget |
| `src/gates.rs`, `src/units.rs`, `src/groups.rs` | which changed files are reviewed, which share a unit, and why not |
| `src/ledger.rs` | what became of every review unit |
| `src/packs.rs`, `src/rules.rs` | language rule packs: matching, rendering, validation |
| `src/conversation.rs`, `src/compaction.rs`, `src/agent_loop.rs` | the agentic loop and its context compaction |
| `src/orchestrator.rs`, `src/preview.rs` | the review command, as state machines |
| `src/output.rs`, `src/sarif.rs` | structured documents |
| `src/cli.rs` | what the commands decide and say |
| `app/` | arguments, files, and the drivers of the state machines |
| `tests/` | the library on concrete values |

## What is trusted

Calls into `globset`, `serde_json` and `sha1` stand behind small functions whose
contracts are believed, and so is the contract of `String::push`; each says in its
comment what it claims. Everything else is proved.
