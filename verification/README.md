# just: hooks, live sessions and trace spans

A verified library for the hook feature of `just` and for the live event
reporting around a run, with the `just` command around it.

- `src/justfile.rs` reads a justfile's text into recipes (hook attributes,
  dependencies before and after `&&`, command lines) and checks it.
- `src/plan.rs` decides what a run executes, in order: before hooks, prior
  dependencies, the recipe's lines, subsequent dependencies, after hooks, each
  hook with its context; `--no-hooks` skips hooks.
- `src/hook_context.rs` is the context a hook receives through its environment.
- `src/live_event.rs` holds the run's events, the reporting state and git's answers.
- `src/live_server.rs` keeps the sessions of a live server and decides what its
  messages do to them; `src/live_client.rs` gives the address to publish to.
- `src/otel_exporter.rs` turns a run's events into the spans of a trace.
- `src/execute.rs` decides which step runs next: in order, stopping at the
  first failure, so a recipe's after hooks never run once one of its lines
  failed; and where a recipe's run begins and ends, for the live events.
- `src/run.rs` decides how a run reports its events.
- `src/json.rs`, `src/text.rs`, `src/clock.rs`, `src/decimal.rs` hold what the
  library takes from `serde_json`, std's text and clock functions, and decimal
  rendering.

`app/` is the command itself: arguments, files, processes, sockets, the
servers, the OTLP exporter and serialisation.

The command line and the justfile reader cover a subset of `just`: recipes
without parameters, dependencies (with `&&`), command lines (with `@` and
backslash continuations), comments, and attributes, of which `[before(..)]` and
`[after(..)]` take effect and the others are accepted without effect. Options
other than `--no-hooks`, `--live`, `--otel` and `--serve` are refused, and no
settings, variables or imports are read. A recipe runs each time it is reached,
as a dependency or a hook. Times are kept in whole milliseconds.
