# scdesk

Companions for Sierra Chart on Linux: a trade journal that reads Sierra
Chart's files and a market-quality dashboard ("Pulse").

The crate is a Verus library with its contracts proved:

- `contracts`: futures symbols (`ESU26_FUT_CME`, `F.US.MNQU26`, …) to root,
  listed product and tick values.
- `scid`: the `.scid` tick-file format, SCDateTime conversions, and the plan
  of a scan over a trade's time window.
- `activity`: Trade Activity Log records (TLV) and the fills they hold.
- `tradeslist`, `ndjson`, `journal`: journal imports, trade ids, filters,
  CSV cells, trading days and the rules of the store (tombstones, kept notes).
- `stats`: day order and the resampling stream of the Monte Carlo runs.
- `sierra_paths`: where the Sierra Chart folders are (including Wine).
- `calendar`, `quotes`, `engine`, `exec`, `score`: the dashboard's calendar,
  cache and refresh decisions, tape order and labels.
- `text`, `dates`, `zones`: character-level helpers and the calls into
  `chrono` and `chrono-tz`.

`app/` holds what runs around it: SQLite, HTTP, files and folders, and the
floating-point statistics and scoring.
