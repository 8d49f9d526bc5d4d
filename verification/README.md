# Penlight Dream Box

A Garupa ranking aggregator: it polls Penlight-Dream-API for monthly and
event rankings, keeps top snapshots and border cutoffs in MongoDB, and
serves them through a GarupaSpeedTracker-compatible HTTP API. It can also
fetch a player's profile from the official servers for a Bestdori export.

The logic is a library verified with Verus; the program around it does
the networking, the database and the clock.

## Layout

- `src/` — the verified library (`penlight_dream_box`)
  - `text`, `json` — trimming, decimal integers, the JSON model
  - `error` — errors with their HTTP status and body
  - `config` — configuration from an environment snapshot
  - `garupa` — credentials, the protobuf decoder and schemas, decryption
    of official responses, reshaping of the decoded data
  - `upstream` — Dream-API payload types and paths
  - `storage` — snapshot bookkeeping: buckets, series writes, border
    batches, active rankings, top histories
  - `sort` — the merge sort behind every ordering
  - `api` — query validation, resampling, response bodies, the API key rule
  - `collector` — polling decisions
- `app/` — the service: axum routes, MongoDB, reqwest clients, the
  collector loop
- `tests/` — tests of the library
