# core_engine

The core engine of a fault-tolerant task orchestrator, written in Verus:
binary framing, Raft consensus, SWIM membership, the write-ahead log's
record formats and the task state machine, each with its contract proved.

## Layout

- `src/` — the verified library.
  - `codec`, `text`, `rng`: big-endian fields, length-prefixed strings,
    decimal and escaped text, FNV seeding and xorshift steps.
  - `protocol`: frames `[length:u32][opcode:u8][payload]`, the streaming
    decoder, `Error` and task-status payloads.
  - `raft`: the Raft state machine, its RPC codecs, the runtime that decides
    timers, elections, replication rounds and RPC answers, and its laws.
  - `membership`: the SWIM member table, its codecs, the runtime that decides
    probes, suspicion, failure and dissemination, and its laws.
  - `storage`: WAL records and index, Raft log records.
  - `task`, `metrics`, `log`, `config`, `net`: task state, Prometheus text,
    JSON log lines, command-line settings, TCP connection decisions.
- `app/` — the node program: sockets, `kqueue`, files and the clock. It
  performs what the library decides.
- `tests/` — tests run against the compiled library.
