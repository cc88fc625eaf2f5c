# smolvm_cluster

Clustering for a microVM runtime: membership, placement, request routing, the e2b-shaped
sandbox surface, and the preview proxy. What these decide stands in functions with
machine-checked contracts; sockets, files, clocks, JSON and floating point stay outside.

## Layout

- `src/` is the verified library.
  - `text`, `number`, `bytes`, `string_map`, `table`: text, numbers, bytes and maps.
  - `http`, `http_laws`: request heads, and what rebuilding one preserves.
  - `ids`, `identity`, `topic`, `wire`, `config`, `util`: endpoint ids, keys, framing and
    settings.
  - `membership`, `link`: the membership view and the node that keeps it.
  - `capacity`, `bid`, `backends`, `registry`, `roster`: capacity, bids and placement.
  - `frontend`, `backend`: what the two roles decide.
  - `e2b`: the `/sandboxes` surface over the machine lifecycle.
  - `cli`: the cluster inspector and the preview proxy.
- `app/` is the I/O around it.
- `tests/` runs the library.

Values of outside types (connections, addresses) are carried along as type parameters.
Times are nanoseconds of a clock that never runs backwards, handed in by the caller.
Public proof functions named `law_…` state what holds across functions.
