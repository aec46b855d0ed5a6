# agent_core

The core of an agent runtime, verified with Verus: the decisions of the
agent loop (turn results, retries, response assembly, orphaned tool calls),
the tool pipeline around a call, the hook guards (tool and path guards),
prompt assembly from prioritised fragments, context compaction (token
estimates, cut points, summary requests), session state and recovery,
goal-driven runs, the circuit breaker, and the memory formatting and stores.

Layout:

- `src/` — the verified library. Each public function states its result in
  its contract; laws that relate several functions are public proof
  functions named `law_*`.
- `tests/` — tests of the library on concrete values.
- `app/` — the asynchronous runtime around the library: providers and tools
  behind traits, hook dispatch with timeouts, the agent loop and session
  actor that perform what the library's decisions ask for, and the HTTP
  memory store.
