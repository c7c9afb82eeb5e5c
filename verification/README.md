# syncpond

A small real-time server that keeps rooms of keys and values in step. Application servers
drive it through an upstream service or a line protocol; clients follow it over websockets.
What the server decides and computes is verified with Verus.

- `src/` is the verified library.
  - `text`, `json`, `collections`: texts and numbers, JSON values, maps and sets.
  - `protocol`, `protocol_laws`, `client`: the line protocol, and a client that keeps its
    connection up.
  - `state`, `state_laws`: rooms of named containers with versions, transactions, snapshots,
    deltas, labels and tokens. `kernel_state`, `kernel_state_laws`: the same with numbered
    buckets, flags and members.
  - `commands`, `kernel`, `kernel_laws`, `upstream`: commands, what they do, and the service
    in front of them.
  - `tokens`, `auth`, `downstream_auth`, `permissions`: who may connect.
  - `room_hub`, `hub`, `hub_laws`, `rate_limiter`: who gets which update, and how many.
  - `connection`, `room_connection`, `bucket_connection`, `downstream_connection`, `wire`: a
    websocket connection from its first frame to its end, and the JSON on it.
  - `persistence`, `persistence_laws`, `bucket_cache`, `loading`, `rooms`: what is kept of
    rooms, and how they are loaded and unloaded. `startup`: the settings.
- `tests/` runs the library on concrete values.
- `app/` is the program around it: sockets, files, the store and the configuration.

Every public function says in its contract what it returns and what it changes, over models
of the data: sequences, sets and maps. Functions whose names begin with `law_` state what
holds of the library as a whole. The calls into other crates stand in small functions of
their own, each with a comment that says what is relied on.
