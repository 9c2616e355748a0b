# meshly-core

A peer-to-peer reverse proxy: clients expose local services to each other, directly
where the network allows it and through a server where it does not.

The library under `src/` holds everything that is decided or computed. It does no
I/O, and every function in it is verified with Verus against its contract.

| Module | What it holds |
|---|---|
| `protocol`, `frame_text`, `json` | the frames, their encoding, and the proof of a shared secret |
| `alpn`, `endpoint`, `identity` | names and keys |
| `config` | the configuration and its validation |
| `registry`, `control`, `relay`, `ratelimit`, `server` | the server: sessions, services, relayed streams and their caps |
| `client`, `expose`, `consume`, `status`, `tunnel` | the client: what it offers, what it reaches, what it reports |
| `http`, `listing`, `static_http` | serving a directory of files |
| `text`, `scan` | helpers on text |

A function named `law_..` is a proof of something that holds of the library as a
whole, such as that a frame that was written is read back.

What the library takes on trust of other crates stands in functions marked
`external_body` and in the functions without a body that name their results. Each
says what it claims.

`app/` is the program around the library: it opens sockets and files, runs the
timers, and carries out what the library decides. `tests/` runs the library on
concrete values.
