# laplace

The verified core of the Laplace application server, which hosts "lapps":
web applications whose server side runs as a wasm module.

- `src/` holds the logic, proved with Verus: lapp settings, permissions and
  their updates (`lapp`, `manager`), the access check and the access-token
  redirect (`auth`), the byte layout of requests, responses, routes and
  service messages exchanged with a lapp's module (`http`, `invoke`,
  `route::codec`, `wire`), the start plan of a lapp's instance (`instance`),
  the decisions of the websocket, gossipsub and lapp services as functions
  from state and event to next state and action (`service`), paths and
  addresses (`paths`, `urls`), log record paths (`logging`) and the state of
  the interface components (`ui`).
- `app/` is the program around it: command line, settings files, logging and
  a plain-HTTP server with the access check, the main lapp's interface, the
  lapp list and updates, and the lapps' static files.
- `tests/` exercises the library on concrete values.

The server here is built without the crates that run a lapp's wasm module
(wasmtime), send its outgoing HTTP requests (reqwest), connect it to the
peer-to-peer network (libp2p), give it a database (rusqlite) or serve TLS
(rustls). So `app/` starts no lapp instance and no websocket or gossipsub
service: a lapp's own HTTP requests are answered with "not loaded", and TLS
settings are refused. The decisions those parts take stand verified in
`src/` all the same.
