# rpytest

The core of a persistent pytest runner, verified with Verus: a daemon keeps
Python warm between runs, collects tests natively from the syntax tree of
test modules, schedules them by their recorded durations, tracks flaky tests
and answers a command-line client over a framed MessagePack protocol.

## Layout

- `src/` — the verified library. Each function states what it returns or
  changes in `requires`/`ensures` over mathematical models (`Seq`, `Map`,
  views of the data types); the laws that relate several functions are
  public proof functions.
  - `text`, `table`: strings as character sequences, and a string-keyed table
    with distinct keys that keeps insertion order.
  - `nodes`, `inventory`: test nodes, keyword and marker expressions, the
    inventory and its queries.
  - `models`, `protocol`: outcomes, stability states, execution modes,
    configuration, protocol records and how each request is served.
  - `flakiness`: the stability state machine and the flakiness tracker.
  - `scheduler`: duration estimates, failed-first ordering and balanced
    batches.
  - `executor`: pytest command lines, batches, and reading pytest output.
  - `pool`: the worker state machine and the pool's decisions.
  - `pysource`, `collector`, `fixture_params`: parsing a test module's source
    with the RustPython parser, native collection from its syntax tree,
    parametrization ids and fixture parametrization.
  - `context`: what a repository context keeps between runs and what a run
    does to it.
  - `framing`, `storage`, `digest`, `error`: message frames, store keys and
    schema checks, digests, errors.
- `tests/` — tests of the library on concrete values.
- `app/` — the daemon program: command line, logging, the store on disk, the
  IPC server and client, Python processes and the embedded interpreter, all
  calling into the library for their decisions.

## String-keyed maps

The daemon keeps several maps keyed by test ids and fixture names. Verus's
specification of std's `HashMap` states what a map holds only for key types
whose hashing and equality it models, and those are the integer types and
`bool`; for `String` keys nothing about the contents can be proved. These
maps are therefore held in `Table` (`src/table.rs`): a vector of entries with
distinct keys whose view is a `Map` from the key's characters, and which also
keeps the order in which keys were first added.

