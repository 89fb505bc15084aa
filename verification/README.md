# regkey

A keystroke recorder for Wayland that stores every key press, with its
modifiers and the focused application, in SQLite, and reports the most
pressed keys, applications, bigrams and trigrams as JSON or text.

`src/` is the library, verified with Verus:

- `db.rs` — the store: its statements, its model (three multisets of rows)
  and the contracts of inserts, grouped count queries and clearing, with
  laws on what a read gives back of a write. The database file is shared
  with the running recorder, so every statement is stated over the rows it
  finds when it runs; a store in memory finds the rows its own previous
  statement left.
- `sqlite.rs` — the rusqlite connection as Verus sees it: declared types,
  the names of the tables' contents and the trusted statement wrappers.
- `record.rs` — modifier state, key names and the recorder that decides
  which keystroke, bigram and trigram rows each event adds.
- `report.rs`, `bigrams.rs`, `trigrams.rs` — building the reports from the
  store and rendering them as text; `render.rs` and `text.rs` hold the
  shared layout and string builders.
- `window/` — which provider a session uses, what the compositor providers
  send, and parsing of Hyprland's event lines and active-window answers.
- `clock.rs` — the system clock.

`app/` is the `regkey` command: arguments (clap), the database file, the
evdev reader threads, the Hyprland sockets, Ctrl-C, and printing (the JSON
output goes through serializable copies of the report types).

The text reports are aligned tables with bars proportional to the largest
count (rounded down, 20 blocks for the largest). The bigram report, for
example:

```
Global bigram report
──────────────────────────────────────────
 1.  j -> k          45  ████████████████████  kitty
 2.  ctrl+c -> v     32  ██████████████        kitty
```
