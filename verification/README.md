# lector

lector is a desktop app that lists local documentation repos as sidebar tabs, one window per
`[[window]]` block of its `config.toml`, and serves each open tab live from its own loopback
server.

This crate is its verified core, written in Verus:

- `src/` — the library. Config model, validation (errors and non-fatal warnings), stable window
  and tab labels (FNV-1a over the title and the canonical dir), tab rows, the per-window tab
  state, sidebar rows and neighbour promotion, the server registry, the navigation gate, and the
  text of the `validate` report. Every function carries a contract proved by Verus; the few calls
  into std and `dirs` that Verus cannot read sit behind small trusted wrappers.
- `tests/` — tests of the library on concrete values.
- `app/` — the Tauri shell around the library: reading and parsing the TOML, probing the disk and
  ports, the windows and webviews, the compositor serve loops, the menu and the file watcher.
