# mozaic

MOZAIC is a platform for hosting AI game competitions. This crate holds the
platform's decision logic as verified state machines (checked with Verus):
each handler takes a reactor's state and an event, and returns the next state
together with what the reactor sends or opens.

Layout:

- `src/` — the verified library.
  - `steplock.rs`: collects one turn of every player per game step.
  - `aggregator.rs`: sits between a game and its players' client controllers;
    starts the game once everyone connected and answers state requests.
  - `net/`: client controllers (buffering a player's data while it is away),
    the client manager (handing registering clients to their controllers).
  - `game/`: the runner that drives a game, the game manager's bookkeeping,
    and the plan that wires up a new game's reactors.
  - `message_resolver.rs`: numbers messages, matches answers to requests and
    times requests out.
  - `runtime.rs`: the broker's registry, a reactor's link table, and its
    driver (internal messages handled in queue order, before any external
    one, each by the reactor's own handler first and then by every link).
  - `server_reactor.rs`, `connection_manager.rs`, `translator.rs`,
    `connection_handler.rs`, `bot_driver.rs`, `cmd_reactor.rs`, `logger.rs`,
    `endpoints.rs`, `server.rs`, `planetwars.rs`: the remaining reactors and
    the decisions of the endpoints and of the Planet Wars game.
  - `assoc.rs`, `text.rs`, `formats.rs`: association tables, string building
    and the line formats written to sockets, bots and logs.
- `tests/` — tests run against the compiled library.
- `app/` — the I/O around the library (JSON wire forms, the TCP and UDP
  endpoints, the log file, the command line, bot processes, the reactor and
  game manager loops).

The laws the library keeps (a batch carries every turn once, a request is
answered once, buffered data keeps its order, ...) are public proof functions
named `law_*` next to the code they are about.
