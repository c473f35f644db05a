# cold_tools

The decision logic of an agent's tool set, verified with Verus: permission
modes and rules, guardrails against call loops, path and command safety,
output limits and budgets, the tool registry, concurrent batch planning, and
the argument parsing, editing, searching, listing and reporting of the core
tools (files, search, glob, directory listing, terminal, background tasks,
TODO list, notebooks, MCP and web results).

## Layout

- `src/` — the verified library. Each module states its behaviour in
  `requires`/`ensures` over spec functions; `laws.rs` holds properties that
  span several functions. Calls into `regex`, `glob`, `base64`, `serde_json`
  and std's text and hashing functions go through small trusted wrappers,
  each documented with what it claims.
- `app/` — the runtime around it: the asynchronous `Tool` trait and
  `ToolContext`, the dispatcher with its timeouts and concurrent tasks, and
  the file, directory, process and network work of each tool.
- `tests/` — tests of the library on concrete values.

## Collections

The maps keyed by text (the tool registry by name, the per-tool counters of
`counts.rs`, and the read cache by session and path) are `Vec`-backed types
whose view is a `Map` and whose invariant is that no key occurs twice. vstd's
specification of `HashMap` gives its operations a contract only for key types
whose hashing and equality it models, and with `String` keys the calls were
accepted but nothing about their results could be proved. A `Vec` with a
stated invariant gives every operation an exact contract. These types keep
entries in insertion order, which a `HashMap` leaves open.
