# apexos

The decision logic of the ApexOS agent daemon, its gateway, its tool
server and its sensor bridge, written in Verus with each function's
behaviour stated in `requires` / `ensures` and proved.

## Layout

- `src/` — the verified library.
  - `policy` — approval modes, per-tool rules, wildcard keys.
  - `state` (with `tree`) — the system state fold over bus events and the
    breadth-first session subtree.
  - `supervisor`, `dispatch` — the plugin supervisor's reactions, where
    an approved tool call goes, and the answers of the built-in tools.
  - `bootstrap` — the steps of installing the daemon on a new node over ssh.
  - `turn` — one assistant turn: reading a streamed response, ending a
    round, collecting one result per tool call.
  - `agent` — the sub-agent router (depth limit, fresh ids, cancellation)
    and the tool specs every turn sees.
  - `council`, `gateway`, `eventlog`, `terminal`, `sensor`, `tools` — the
    request readers, wire JSON, event-log views, terminal frames, sensor
    frames, and the tool server's checks (the shell denylist among them).
  - `json`, `text`, `assoc`, `order`, `types` — JSON values, strings as
    character sequences, small keyed tables, stable sorts, shared types.
- `tests/` — tests run against the compiled library.
- `app/` — the program around the library: the sensor bridge `main`, file,
  process and socket work, serde copies of the library's types, and the
  loops that run a turn and a bootstrap against the library's steps.

Laws that span several functions are public proof functions whose names
start with `law_`.
