# maki_jobs

Background jobs for plugins: a command line becomes a process, its output
becomes events, and a store keeps track of every job until it is cleared.

- `src/` is the verified library. Every decision stands there: how a command is
  launched, how raw output is cut into chunks and lines, what may still be done
  with a job, and what waiting for one comes to. Laws over several operations
  are public proof functions in `laws.rs`, `reader_laws.rs` and `wait_laws.rs`.
- `app/` performs what the library decides: it spawns processes and threads,
  sends signals, awaits events and offers the result to Lua.
- `tests/` runs the library against real channels and a real Lua state.

The library trusts `flume` for its channels (`src/channels.rs`), `mlua` for the
registry that holds callbacks (`src/registry.rs`) and `String::from_utf8`
(`src/reader.rs`). What a send or a poll comes to depends on other threads, so
those contracts never predict it: each channel end has a history, which exists
in specifications only, and a call adds exactly one entry to it.
