# opc_agent

The logic of a desktop workbench in which a boss hands instructions to a
team of AI employees: a dispatcher picks the employees for each
instruction (asking a model when several are enabled, and falling back to
all of them when the model cannot be read), every employee answers from
its own view of the conversation, and everything is stored locally.

## Layout

- `src/` — the verified library (Verus).
  - `orchestrator.rs` — the dispatch decision: the roster and question put
    to the model, the lenient reading of its JSON reply, the fallback, and
    the law that a task is never lost and only goes to enabled employees.
  - `llm.rs` — chat messages, the endpoint address, the reading of a
    complete reply and of a streamed one (server-sent events), with the
    law that a stream reads the same however its bytes are cut into
    chunks, as long as every cut falls between characters.
  - `db.rs` — the stored records and what is written to and read back from
    the store (employees, conversation lists, an employee's history,
    dispatch records, settings), with the round-trip laws.
  - `commands.rs` — the decisions of the commands and of the dispatch
    pipeline: titles, boss messages, rosters, targets, and the dispatch
    itself as a step function from state and event to next state and
    action.
  - `voice.rs` — which speech programs speak a text, on each platform, and
    what follows each program's outcome.
  - `stt.rs` — the recognition model's source, the transcript taken from a
    recognizer, and the path components kept when the model is unpacked
    (plain names only, so nothing lands outside the model directory).
  - `json.rs`, `text.rs` — the calls into `serde_json` and std behind
    their contracts, and the character-level helpers.
- `app/` — the shell around the library: SQLite (`rusqlite`), HTTP
  (`reqwest`), speech programs, Vosk recognition, the model download.
- `tests/` — tests of the library.

Temperatures are `f64` values; the library carries them as their IEEE-754
bit patterns and leaves reading and writing them as numbers to `app/`.
