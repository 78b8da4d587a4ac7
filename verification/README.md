# tau

The logic of a plugin host and its asynchronous runtime, in Verus: the functions of `src/` carry
contracts, and Verus proves them. What a trait leaves to whoever implements it has none.

- `src/runtime/` - the executor with its slots and timers, the reactor, streams between plugins,
  events, resources, and waiting for a task.
- `src/tokio/` - tasks, time, locks, channels, buffered input and output, sockets and child
  processes as state machines: what is to be done, and what comes of it.
- `src/stream/`, `src/event.rs`, `src/guard.rs` - what a plugin works with.
- `src/host/` - building plugins, loading and unloading them, scripts and the command line.
- `src/tui/`, `src/text.rs`, `src/words.rs` - text for terminals: widths, wrapping, truncation.
- `tests/` - examples, run against the compiled library.
- `app/` - the program around the library: descriptors, processes, files, shared libraries.

What is done outside (polling a descriptor, running a build tool, calling into a plugin) is an
action that a verified function asks for; what came of it is handed to the next call. Proof
functions without a `lemma_` prefix state what holds of the library as a whole.
