# git-todo

Track todos as commits on a `todo` branch of a git repository: each todo is a
TOML file `todos/<id>.toml`, and every change is a commit on that branch.

The logic of the tool is a Verus library, proved against its contracts; the
command-line program around it is ordinary Rust.

## Layout

- `src/` — the verified library.
  - `text.rs`: characters, trimming, line splitting, joining, decimal text.
  - `line_facts.rs`: what holds of lines, joins and trims, for the laws of
    the editor text.
  - `todo.rs`: the `Todo` record, timestamps, ids (random draws with a
    counting fallback), label edits, and the checks a loaded todo must pass.
  - `labels.rs`: applying label edits; the label list comes out sorted, and
    labels that were free of duplicates stay so.
  - `editor.rs`: turning an editor buffer into a title and body, or a comment.
  - `store.rs`: the in-memory store of todos, id lookup by prefix, and the
    retry decision after a racing commit.
  - `repo.rs`: file names under `todos/`, load-time checks, creation order.
  - `commands/`: what each subcommand computes (`list` rows, `show` lines,
    completion ids, label arguments, new-todo fields).
  - `cli.rs`: the command-line arguments as plain values.
- `app/` — `main`, argument parsing, the editor process, git access and
  TOML (de)serialisation, feeding plain values to the library.
- `tests/` — tests of the library on concrete values.

Calls into `chrono`, `hex` and `fastrand`, and into two std functions that
vstd gives no specification (`String::push`, `char::is_alphanumeric`), stand in the library behind small trusted wrappers whose
contracts state what the documentation or source shows; everything else in
`src/` is verified. The clock is read in `app/`, and its reading is handed to
the library.
