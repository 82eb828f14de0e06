# chat_server

A websocket chat server. Users register and log in (a token cookie), create
rooms, read a room's history page by page and talk in a room over a websocket.

- `src/` is the verified library: the stored records (`entity`), what the
  stores compute (`db`: the record each insert stores, login tokens, the
  paging of a room's history), the rules of every HTTP handler and middleware
  (`api`, `middleware`), a live room's membership and the hub's registry of
  rooms (`ws`), and session identifiers.
- `app/` is the server around it: axum routing and handlers, sea-orm tables
  and queries, the tokio tasks that run rooms and sockets. It hands the
  library plain values and acts on what the library decides.
- `tests/` runs the library.
