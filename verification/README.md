# Wukong

The logic of the Wukong assistant as a verified library: what it remembers, how it plans and
carries out a turn, how it talks to its agent, which jobs it runs when, and how it renders what it
says. The public functions under `src/` carry contracts that Verus proves.

- `src/text.rs`, `src/order.rs`, `src/table.rs`, `src/paths.rs`, `src/json.rs`: text, orderings,
  tables of rows, paths and JSON values, with the facts that the rest builds on.
- `src/memory/`: the memory's tables and the queries on them, recall, consolidation, pruning, the
  agent's sessions and their leases, and the markdown mirror.
- `src/gateway/`: configuration, requests to the agent's program or server, and the events that
  come back.
- `src/orchestrator/`, `src/runtime/`: roles and plans, and a turn from its first step to what is
  kept of it.
- `src/scheduler/`, `src/schedulerd/`: jobs, their leases and runs, and the notices of results.
- `src/chat_history/`: threads, messages, attachments and live events.
- `src/cli/`, `src/memoryd.rs`, `src/render/`: the surfaces.

Laws that span several functions stand as public proof functions beside them.

Other crates (cron, chrono, serde_json, pulldown-cmark, base64, reqwest's addresses, uuid) and a few
functions of std are called through small functions whose contracts are believed and not proved;
each says in its comment what it claims. Two private helpers, `json_of` and `event_of`, only hand
values on to such functions and promise nothing of their results.

`app/` holds the programs: arguments, files, the database, the network and floating-point scoring.
They read the database into the library's tables, let the library work on them, and write back what
changed. `tests/` runs the library on concrete values.
