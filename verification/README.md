# rustlab

Verified building blocks (a graph, a channel, a Quoridor engine with
search bots, a small database, a static file server's logic) and the
terminal programs around them.

- `src/graph.rs`: a directed graph with node handles that are never reused.
- `src/mpmc.rs`: an unbounded multi-producer, multi-consumer channel.
- `src/game/`: Quoridor on a 9x9 board with walls kept as bit sets: move
  generation, making and unmaking moves, the flood fill that keeps a path
  open for both pawns, Zobrist hashing.
- `src/ai/`: evaluators, alpha-beta search (with the law that it plays as
  minimax does), a random bot, two parallel bots, a transposition table.
- `src/ui/`, `src/player_spec.rs`: reading typed moves and player specs, and
  laying out the drawn board.
- `src/db/`: a small in-memory database: typed, nullable columns (values
  and presence bits), tables with named columns, row and column views,
  select queries (filters, orderings, result order), loading a table from
  CSV lines and writing one back, laying a table out as text, and the
  command prompt (reading a line, dispatch, typed conditions, column
  lists).
- `src/http.rs`: the request target and the response of a static file server.
- `app/`: the terminal programs: the game (default), `serve` (the file
  server, on port 8000), `db` (the database prompt), `graph` (a small
  demo).
