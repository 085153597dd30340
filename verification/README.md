# QuotaDial

QuotaDial watches a Codex subscription: the quota the account reports,
how fast it is being used and whether it runs out before it resets, and the
token use and equivalent API cost of the Codex sessions on this machine.

## Layout

- `src/` is the verified library (Verus). Its functions are proved against
  their contracts; the few wrappers around outside calls (chrono, blake3,
  parts of std) are trusted, each with its contract in a doc comment.
  - `forecast`, `series`, `spread`, `ratio`, `order`, `wide`: the exhaustion
    forecast, in exact rational arithmetic over any 64-bit times (with
    256-bit integers where products need them).
  - `quota_trend`: the remaining-quota chart and the pace of use.
  - `monitor`: which quota windows are shown, when data turns stale, what a
    refresh publishes, and the monitor loop's decisions.
  - `parser`, `importer`: framing session logs into lines, folding decoded
    lines into session metadata and usage events, and resuming reads.
  - `notifications`, `settings`, `pricing`, `tray`, `badge`, `launcher`,
    `rpc`, `discovery`, `clock`, `text`, `domain`.
- `tests/`: tests of the library.
- `app/`: the runtime around it (SQLite store, file scanning, the app-server
  process and its JSON-RPC channel, async loops, icon drawing).

## Units

Percentages are millionths of a percentage point (`18%` is `18_000_000`),
rates are exact fractions, and costs are picodollars.
