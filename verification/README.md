# rustrest

The core of a small Express-style HTTP framework, written in Verus: the rules that
decide what a request leads to, what a response carries and what becomes of a
WebSocket connection are executable functions with contracts that are proved.

Not proved is what stands around them in `app/`: sockets and files, timers and queues,
the TLS handshake, what serde makes of JSON and forms, and logging. What outside crates
compute for the library is stated, or only named, in contracts that are not proved.

## Layout

- `src/` is the verified library. It works on plain values: requests, responses,
  routes, events. Handlers, middlewares and streams are known to it by number.
  - `pattern`, `trie`, `router`, `server`: which route serves a request, and what a
    request leads to where none does.
  - `openapi`, `json`: the description of the routes.
  - `request`, `response`, `form`, `cookie`, `session`, `sse`, `state`, `extract`:
    what goes in and out.
  - `middleware`, `cors`, `rate_limit`, `static_files`: what is done around handlers.
  - `serve`, `tls`: the loop that takes connections in, as a state machine, and what is
    read from PEM files to secure them.
  - `websocket`: configuration, handshake, the book on connections and rooms,
    broadcasts, and the state machines of a connection and of a broker subscription.
  - `text`, `text_map`, `text_set`, `time`, `uri`, `headers`, `codec`: the ground that
    the rest stands on. What outside crates compute is declared in `headers`, `codec`,
    `uri`, `middleware`, `static_files` and `tls`.
- `app/` is the asynchronous server around the library: sockets, TLS, files, queues,
  clocks and serde. It performs what the library's machines ask for.
- `tests/` runs the library with the outside crates linked.

The properties that hold across functions are the public proof functions whose names
begin with `law_`.
