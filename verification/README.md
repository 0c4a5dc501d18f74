# driver-ipc

The logic of a virtual display driver and of the tools that talk to it,
verified with Verus.

- `src/model.rs`, `src/validation.rs`: monitors, modes and the rules that make
  a list of them valid (no repeated id, resolution or refresh rate).
- `src/driver_client.rs`, `src/laws.rs`: the client-side monitor state with its
  queries and edits, and the laws they obey.
- `src/framing.rs`, `src/client_steps.rs`, `src/mock.rs`: the pipe protocol's
  message framing, the client's reactions to what it receives (including
  the five-second limit on a state request), and a stand-in server.
- `src/registry.rs`, `src/listener.rs`, `src/signal.rs`: the driver's list of
  monitors, its handling of client commands, and the video signal values it
  reports.
- `src/cli_mode.rs`, `src/rate_set.rs`, `src/cli_commands.rs`: the
  command-line tool's mode syntax, its sets of refresh rates (kept in std's
  ordered set) and its subcommand decisions.
- `src/panel.rs`, `src/ipc_types.rs`: the control panel's editable monitor
  model and the flat format it sends.
- `src/py_list.rs`, `src/py_monitors.rs`, `src/bindings.rs`,
  `src/client_errors.rs`, `src/messages.rs`: what the language bindings keep
  and decide, and the texts of errors.
- `src/logger.rs`, `src/lazy.rs`, `src/text.rs`: the driver's logger
  configuration, a lazily computed value, and text helpers.

`app/` holds the command-line tool: argument parsing, the named pipe and the
JSON encoding around the library.
