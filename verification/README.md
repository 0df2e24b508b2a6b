# spawned-concurrency

An Erlang/OTP-style actor framework: actors and generic servers, links and
monitors, supervisors (static and dynamic), state machines, process groups,
a name registry, and `sys`-style statistics and tracing.

- `src/` is the verified core, written in Verus. It holds the tables
  (processes, actors, links, monitors, groups, names, applications), the
  supervisors' restart logic, and the step functions that decide what a
  running actor, server or state machine does next. Each public function
  carries a contract, and the laws of the framework (links are mutual, a
  normal exit spares non-trapping peers, each restart strategy touches
  exactly the children it names, ...) are proof functions next to the code
  they speak of.
- `app/` is the runtime around it, in plain Rust on tokio: the global
  tables behind locks, the tasks and threads that run actors and servers,
  timers, and the delivery of the messages the core decides to send.
- `tests/` runs the core on concrete values.
