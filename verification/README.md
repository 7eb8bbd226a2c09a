# nice

A gRPC hello service with several client-side balancing strategies, with
its decisions verified in Verus.

- `src/` is the verified library:
  - `text`: decimal numbers, greetings, worker replies, service URIs.
  - `keyed`: lists of key-tagged entries and their map view.
  - `counter`: counters that wrap as atomic counters do.
  - `round_robin`: picking endpoints in turn.
  - `chans`: the endpoint list of the latency-weighted channel.
  - `choice`: weighted random choice through `rand`.
  - `endpoints`: following name resolution with endpoint changes (URIs
    parsed by `tonic`).
  - `worker_registry`: worker groups per endpoint.
  - `server_pool`: the elastic worker pool of the server.
  - `tally`: counting answers and reporting them by frequency.
- `app/` holds the C interface, the gRPC message and service types, and the
  programs (clients and servers) that do the I/O, the async plumbing and
  the floating-point weights around the library.
- `tests/` exercises the library.
