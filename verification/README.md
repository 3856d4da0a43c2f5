# freeix

The core of a DNS-level ad blocker, verified with Verus: blocklist parsing,
the domain filter (exact, wildcard and regular-expression rules with allow
overrides), the DNS decisions and caches, packet and URL filtering, the
plans that point a system's DNS at the local resolver and put it back, the
certificate requests of the proxy's root authority, and the state behind the
desktop application.

- `src/` is the verified library. Each module states its behaviour in
  `requires`/`ensures` over mathematical models (`Seq`, `Set`, `Map` and
  spec functions); public `law_*` proof functions state properties that
  relate several operations.
- `tests/` runs the library on concrete inputs.
- `app/` holds the input and output: sockets, files, processes, TLS, the
  database and the encoding of DNS responses, all driven by the library's
  decisions. Reading DNS messages off the wire is the library's, through
  `hickory-proto` behind a stated wrapper.
