# notification_service

The delivery logic of a push-notification service, written in Verus and proved
against its contracts. Clients hold a gRPC stream open; notifications are read
from a per-client Redis stream and pushed down the stream, at most once or at
least once, with retries, expiry and cleanup of delivered entries.

The library (`src/`) holds what decides, with nothing left to trust but the
calls it makes into `uuid`, `regex`, `chrono`, `serde_json`, `rand` and
`String::push`:

- `registry`, `dispatch`, `reader`: the reader's registry of connected clients
  and sessions, the stream-id cursor of each client, and the decisions of the
  reader's loops (claiming a read, dispatching, retrying, settling a push
  round, routing a pub/sub message, planning a sweep). Under at most once a
  pushed notification moves to the primary session's awaiting set and leaves
  the others; a client's acknowledgement settles it in every session.
- `active`: what one session still owes its client, with counters that count
  each metric once.
- `expired`: the queue of stream entries to delete, flushed one batch per shard.
- `stream_id`, `keys`, `text`: stream ids and their order, Redis keys, and the
  string handling they need.
- `environment`, `sim_config`: environment overrides and config-path rules.
- `seen`, `sim`, `sim_stream`, `ids`, `payload`: the load simulator's rules
  and the pub/sub message its producer publishes.
- `clients`, `producer`: the simulator's settings, checked once the
  environment has overridden the scenario file, and the drivers each search
  request reaches.
- `*_laws`: properties that span several calls, stated and proved.

`app/` reads the environment and the file system, and holds the
floating-point delay curves of the simulator. `tests/` runs the library on
concrete values.
