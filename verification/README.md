# n3n_mgmt_api

The logic of a REST management API for n3n and n2n nodes, verified with Verus.

- `src/api.rs`: endpoint selection (n3n over `unix://`/`http(s)://`, n2n over
  `udp://`), routing of `/api/<method>` to the node's call, HTTP answers to
  failures, and the choice of static file (a requested path never leaves the
  interface's directory).
- `src/framing.rs`: splitting an n2n management datagram into its JSON objects.
- `src/json.rs`: the JSON model the logic works on, reading it with `serde_json`,
  and the removal of keys that start with `_`.
- `src/n2n.rs`: gathering the replies of an n2n node datagram by datagram until
  the end marker, and shaping them into the API's answer.
- `src/n3n.rs`: JSON-RPC requests and responses of an n3n node.
- `src/text.rs`: prefix, suffix and substring operations on text.
- `app/`: the HTTP server, the UDP and HTTP transports, and the JSON wire forms of the HTTP side.
