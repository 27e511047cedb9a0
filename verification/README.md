# agcli

A framework for command-line tools whose callers are agents: every run
answers with one JSON envelope (`ok`, `command`, `timestamp`, `exit_code`,
`result` or `error`/`fix`, `next_actions`), the root command documents the
whole command tree, help is JSON, and long-running commands can stream NDJSON
events that end with exactly one terminal record.

The library in `src/` is verified with Verus: each public function carries a
contract over mathematical models (`Seq`, `Map`-like entry lists, `int`), and
the properties that span several calls are stated as proof functions named
`law_*`.

- `invocation` — the argv parser (flags, `--`, negative numbers, bool flags).
- `cli` — the command tree, dispatch of an argv to a handler plan, and the
  finishing step that turns a handler's outcome into an envelope.
- `envelope`, `wire`, `decode` — envelopes and actions, their JSON wire form,
  and reading that form back.
- `json` — JSON values as plain data, with `--select` / `--compact`.
- `stream` — stream events and the emitter state machine.
- `request`, `usage`, `suggest`, `doctor`, `audit`, `skill`, `truncate`,
  `timestamp`, `text` — the request view, usage-string analysis, typo
  suggestions, health checks, static audit, skill documents, output
  truncation, RFC 3339 time and text helpers.

`app/` holds what the verifier does not see: the async handler loop with its
panic guard, the clock and environment, stdin, files, NDJSON writing and the
conversion between the library's JSON values and `serde_json`.
