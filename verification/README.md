# cairn_runtime

The decision logic of the Cairn runtime services, written in Verus: each
service keeps its state in memory and states in `requires`/`ensures` what
every operation does to that state and what it answers.

- `src/` — the verified library. One module per service (approvals, budgets,
  quotas, channels, checkpoints, defaults, guardrails, licenses, mailboxes,
  sessions, tenants and projects, prompt assets, versions and releases,
  provider bindings, pools, models and health, route policies and
  resolution, triggers, tool-call approvals, the plugin marketplace and capability registry, …) and a few
  shared ones (`alist` for text-keyed maps, `text` for character-level
  helpers, `json` for JSON values, `runtime_error`).
  Laws that span several operations are public proof functions named
  `law_*`.
- Outside crates are reached only through small trusted wrappers:
  `sha2` and `aes-gcm` for credential encryption (`credential`),
  `serde_json` for JSON string literals (`bedrock`), and the clock
  (`clock`).
- `tests/` — executable tests of the library.
- `app/` — plain Rust around the library: conversion to and from
  `serde_json`, floating-point figures, plugin event delivery and the
  Bedrock command-line call.
