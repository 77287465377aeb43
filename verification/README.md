# zora-aomi-tools

Creator analytics for Zora coins on Base: holder counts, 24-hour volume,
top buyers, messaging a coin's latest buyer, a plain-words agent, a coin
monitor, and an HTTP/GraphQL front end.

## Layout

- `src/` — the library, verified with Verus.
  - `text`, `decimal`, `numbers`: character sequences, decimal digit
    strings, and unsigned numbers as text.
  - `amount`: decimal amounts summed and compared exactly on their text.
  - `tools`: the coin tools; `get_top_buyers` ranks buyers by their exact
    totals.
  - `agent`: reading requests in plain words (`nlp`), the monitor's
    decisions and pings (`monitor`), and the agent programs' texts (`demo`).
  - `cli`, `server`, `frontend`, `client`, `aomi`, `types`, `runtime`: the
    command line, the server's defaults, the front end's choices, the API's
    data and requests, the Aomi plugin's metadata, and the tools' inputs and
    outputs.
- `app/` — the program around it: HTTP, JSON, the async runtime, the
  server, the monitor loop, the Aomi plugin, and the floating-point parts
  of the front end.
- `tests/` — tests of the library.

The monitor's memory (`SnapshotStore`) and the per-buyer tally of
`get_top_buyers` are vectors of pairs in which no address occurs twice,
rather than hash maps keyed by address: that is the form their contracts
are proved on.
