# proxy-protocol

Support for servers behind a layer 4 load balancer that speaks version 2 of the
[PROXY protocol](https://www.haproxy.org/download/1.8/doc/proxy-protocol.txt): the header is taken
off the beginning of each connection, and the client address in it is handed on in the HTTP
`Forwarded` header of requests.

- `src/` is a library verified with Verus: what to read and what to make of it (`reader`, `header`),
  client addresses and their text (`address`, `text`), the `Forwarded` header (`forward`), the steps
  of accepting a connection (`accept`) and the configuration (`acceptor`). `outside` holds the
  contracts of functions of other crates, which are believed, not proved. `laws` states what holds of
  the functions taken together.
- `app/` is the asynchronous side: it reads from sockets, polls, and implements the traits that
  servers ask for.
- `tests/` runs the library.
