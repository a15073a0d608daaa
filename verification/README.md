# procmon-capture

Live capture of process, file, registry and network events: the decisions behind
it, verified with Verus.

- `src/`: the library. Which events are recorded (own process, selected sources,
  scope, filter), when a capture stops (by hand, duration, size, disconnection),
  what it reports, how it starts, how a session is joined, and how an event becomes
  one tab-separated line. `src/trace.rs` states what holds over a whole capture.
- `app/`: threads, channels, clocks, files and output around it. The driver, the
  scope and the filter come in through the traits of `app/driver.rs`.
- `tests/`: the library at work on concrete values.
