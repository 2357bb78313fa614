# tessera

The core of a warehouse robot fleet, verified with Verus: layout maps, the
task queue, path planning (A* and windowed cooperative A* with a space-time
reservation table), shelf stock, and the decisions of the fleet's services
(accepting a task, stepping a robot through its task, the path watchdog,
fault escalation, retries, how a simulated robot answers a command, the
consoles' command languages, log merging).

Layout:

- `src/` — the verified library; every function carries its contract.
  Laws that relate several operations are public proof functions named
  `law_*`.
- `tests/` — tests of the library on concrete values.
- `app/` — the services as one program (`tessera <service>`): the Zenoh bus,
  JSON messages, terminals, processes, log files and the floating-point
  robot simulation, around the library.
