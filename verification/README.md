# roomserver

A small HTTP/1.1 and WebSocket chat server. Clients create rooms with
`POST /create`, upgrade `GET /` to WebSocket, and then subscribe to rooms and
send messages that the other subscribers of a room receive.

- `src/` is the library, verified with Verus: reading request lines and
  header fields out of a connection's buffer (`http`), the request cycle of a
  connection (`server`), response bytes (`http::write_response`), WebSocket
  frames (`frame`), the opening handshake (`upgrade`), rooms and their
  subscribers (`rooms`), and the handling of WebSocket messages (`ws`).
- `app/` is the program around it: sockets, worker threads, JSON and logging.
- `tests/` runs the library on concrete requests and frames.

Run the server with `roomserver server`; it listens on port 8080.
