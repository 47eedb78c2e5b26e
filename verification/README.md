# cutforge

The kernel of a video editor whose project files are the source of truth:
a timeline model, a command channel with undo and redo, an append-only
operation log, three-way merging of outside edits, anchored review notes,
a script host with a sandbox, and the request handling of its tool and HTTP
channels. The library's functions are verified with Verus against
contracts stated over mathematical models of its data. A few small
functions are trusted instead: each is marked `#[verifier::external_body]`
and only calls the standard library (clock readings, `char` upper-casing,
debug quoting, lossy UTF-8 decoding, string hashing) or the `regex` crate
(the schema's `pattern` keyword); its doc comment says what is assumed of
it.

## Layout

- `src/` — the verified library.
  - `json`, `codec`, `model`: documents, their models, and the project
    model read from and written to its document form.
  - `command`, `engine`, `history`: the command channel, its revision and
    undo/redo stacks, and the laws that hold across its operations.
  - `oplog`, `merge`, `sync`, `lock`, `watch`: the operation log, the
    three-way merge table, writing against the disk, the project lock and
    change detection.
  - `anchor`, `notes`: anchors and the notes store with relocation.
  - `stage`, `paths`, `cutlist`, `migrate`, `scaffold`: the pipeline
    hand-off table, project paths, cut-list finishing, the upgrade of old
    documents and the empty project template.
  - `script`, `mcp`, `dispatch`, `http`, `shell`: the script host, the
    tool channel's answers and request reading, the HTTP request grammar and
    the projections shown by display shells.
  - `schema`: the schema check (a draft-07 subset with two cross-field
    assertions); an engine given the project schema refuses writes that
    break it.
  - `cli`, `state`, `text`, `timeutil`: command-line rules, state hashes,
    decimal text and time formatting.
- `tests/` — tests run against the compiled library.
- `app/` — the program around it: files, sockets, processes, the change
  feed and printing.

## Laws

Besides each function's contract, `src/` states laws across calls as
public proof functions, among them: a merge never lets one side silently
overwrite a divergent value at any depth (`merge::law_no_silent_overwrite`)
and takes a one-sided change at any depth (`merge::law_one_sided_at_path`);
`N` undos walk `N` recorded changes back and redos walk them forward again
(`history::law_undo_run`, `history::law_redo_run`); replaying the log gives
the live state; every write keeps the project valid under the engine's
schema; polling reports each changed path once (`watch`).

## Not in the library

- The schema documents themselves are not part of this crate: the program
  reads `project.schema.json` from the directory `CUTFORGE_SCHEMA_DIR`
  names (default `schemas`) and hands it to the engine.
- Numeric bounds with a fraction (`minimum: 0.5`) are not checked by the
  schema check, which holds no floating-point numbers.
- Rendering, media probing and the pipeline scripts start outside
  programs (`cutforge-render`, `ffprobe`, Python) and work with
  floating-point numbers; the program around the library runs them and
  answers that the dependency is missing when they cannot be found.
