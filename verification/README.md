# gene (verified core)

gene is an agent that watches a bus of internal and world signals, extracts
recurring co-activation patterns, grounds symbols in them, composes symbols
that co-activate, and chooses actions that reduce its imbalance.

- `src/` is the library, verified with Verus: the pattern index and records,
  the symbol ledger and composition engine, symbol grounding, the cooldown and
  repetition rules of action selection, the circuit breaker, the arbitration
  between self-model and regulation, the parsers of `/proc` metrics, the
  classification of earthquake-stream messages, the writing and reading of the
  agent's self-description, bounded histories, the draw of distinct indices,
  the tick schedule and the
  dashboard's keyboard state machine.
- `app/` is the program around it: the real-valued signal bus and scoring,
  the tick loop, persistence (checkpoints, directives, the snapshot ledger),
  system operations, the control socket and the drawing of the terminal
  dashboard.
- `tests/` exercises the library's public functions.
