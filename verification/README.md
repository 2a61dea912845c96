# praxis_ai

Decisions of an AI gateway, written and proved in Verus.

The library under `src/` holds what the gateway's filters and helpers decide, as
functions from plain values to plain values:

- `grid::route` picks the cluster for a model or an MCP tool,
- `grid::overlay` turns an overlay file into a routing snapshot and says when the
  file is read again,
- `grid::credential_inject` resolves provider credentials and puts them in place
  of the customer's,
- `token_rate_limit` keeps token quotas, in memory or shared through Valkey
  scripts,
- `registry` builds the registry of filters,
- `mock_epp` is a deterministic endpoint picker.

A contract states what a function returns or changes. Where another crate, the
platform or the build decides, it says what holds in each case, and the doc
comment says what is left open. The public proof functions
whose names start with `law_` state what holds across functions: that a fresh
candidate beats a stale one, that a broken overlay keeps the last good snapshot,
that a reservation is settled at most once, and so on.

What the library takes from other crates (`sha2`, `http`, `zeroize`, `redis`,
`serde_json`, `praxis_core`, `praxis_filter`) stands behind small functions whose
doc comments say what is relied on.

`app/` is the ordinary Rust around the library: the endpoint picker's server, the
live filters, the file watcher and the Valkey client. `tests/` runs the library.
