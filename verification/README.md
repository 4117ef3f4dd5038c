# minikv

A small persistent key-value store, verified with Verus.

- `src/` is the verified library: the command grammar (`command`, `command_type`),
  the in-memory store and the replay of its files (`item`), the text formats of the
  log and snapshot files (`format`), the map model of the store (`model`), the
  server's answer lines (`protocol`), and properties that span operations (`laws`).
- `app/` is the program around it: the command line tool, the TCP server and client,
  and the reading and writing of `.minikv.data` and `.minikv.log`.
- `tests/` runs the library on concrete inputs.

Before a command changes the store, `Command::pending_write` says what must reach
the files (a log record, or a snapshot); the program tries the write and hands its
outcome to `Command::commit`, which leaves the store unchanged when the write failed
and otherwise runs the command as `Command::execute` does.
