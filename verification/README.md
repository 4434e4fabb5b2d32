# msv_supervisor

The verified core of a local process supervisor for macOS: it keeps
durable per-source log journals, pages and follows them by cursor, writes
launchd agents, signals process groups only after checking their identity,
decides shutdowns, guards, job triggers and timers, and keeps the rules by
which the supervisor's private state is owned.

Layout:

- `src/` — the library, written in Verus. Public functions state their
  results in `requires`/`ensures` (the test-only launchd failure switch,
  an atomic flag, is the exception), and the properties that span several
  functions are public `lemma_*` proof functions next to the code they are
  about. Work that alternates with I/O (signalling, the supervisor agent's
  stop, the log proxy, exec checks, group cleanup) is written as steps from
  a state and an observation to the next state and action; the host in
  `app/` performs the actions. Calls into `uuid`, `subtle`, `chrono`, `chrono-tz` and `croner`
  stand behind small trusted wrappers whose doc comments say what is
  assumed of them.
- `tests/` — ordinary Rust tests of the library's public functions.
- `app/` — the host around the library: file and process I/O, `launchctl`,
  native process identity, file watches, HTTP checks, the durable journal
  writer's file work, hook processes, transient completion and the loops
  that drive the library's state machines.

Verify with Verus on `src/lib.rs`; run the tests with Cargo.
