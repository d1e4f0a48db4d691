# co_worker

A client library for a local LLM chat backend, verified with Verus, and the
programs built on it.

- `src/` — the verified library: wire types, base-URL and request-path
  handling, classification of failed responses, the plugin error's
  `{ kind, message }` pair, the workspace sandbox (`resolve`), the
  filesystem tools' results and decisions, the substring search state
  machine, the line diff preview, and what a line typed at the chat prompt
  asks for.
- `tests/` — tests of the library on concrete values.
- `app/` — the command-line chat client (`main.rs`, `chat.rs`), its HTTP
  calls, and the desktop plugin's commands with their disk I/O; everything
  there hands plain values to the library and acts on what it returns.

The library models Unix paths (a leading `/` is the root) and holds paths
as text: the program converts a path that is not valid UTF-8 lossily
before handing it over.
