# leader_election

A small cluster of three HTTP servers behind a round-robin balancer. An
election asks the server with the lowest id to step down; that server sleeps,
rejoins under an id one above the greatest, and tells the others, which
update their id tables. The balancer relays client requests to the servers
in turn and, on request, starts an election at a random server every minute.

- `src/` is the verified library (Verus):
  - `decimal` — reading and writing `i32` ids as decimal text;
  - `directory` — the id-to-address table, its least and greatest ids;
  - `headers` — request headers as plain values, read with `httparse`;
  - `protocol` — which call a request asks for, and the requests sent;
  - `server` — a server's state and its election, rejoin and update steps;
  - `balancer` — the relay rotation and the random election target;
  - `stats` — the server's connection counts.
- `app/` runs the programs (`server`, `middleware`, `client`, `test`):
  sockets, HTTP sending with `reqwest`, the `tokio` runtime, locking, files.
- `tests/` exercises the library on concrete values.
