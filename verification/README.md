# rwa_tokens

Verified building blocks for real-world-asset tokens: an identity registry
(identities, recovery, country data), identity claims and claim-based
identity verification, a document registry, a compliance dispatcher and
the compliance modules that plug into it (country allow/restrict lists,
transfer allow/restrict lists, maximum balance per identity, supply limit,
time-window transfer limits, initial lock-up periods).

Layout:

- `src/` — the library, written in Verus. Each module keeps its contract
  state as plain values (addresses are numeric handles) and states in its
  contracts what every operation returns and changes; the laws that tie
  operations together are proof functions next to them.
- `tests/` — executable tests of the library.
- `app/` — Soroban glue: address handles, contract types and their
  conversions, event publication and contract errors.
