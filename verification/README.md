# grid_challenge

Trail-coverage challenges: draw a polygon on a map, fetch the trail network
from OpenStreetMap, import GPX activities (uploaded or from Strava) and track
how much of the network, and how many grid cells, have been covered.

## Layout

- `src/` — the library, verified with Verus: timestamp formatting and
  parsing, text handling, account checks and password hashing (through
  `argon2`), the Strava request/response logic and its GPX writer, the
  splitting of OSM ways into segments, the sync state machine, the decisions
  of the HTTP handlers, `.env` parsing and the integer side of GPX and export
  statistics. Each public function carries a contract; the laws that relate
  several functions stand as public proof functions.
- `tests/` — tests of the library on concrete values.
- `app/` — the server around the library: `main`, the axum routes, SQLite,
  HTTP calls, and the floating-point geometry (clipping, distances, coverage
  matching), which the verifier does not reason about.
