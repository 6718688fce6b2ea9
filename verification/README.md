# turingosv3

A microkernel for swarms of language-model agents that search for formal
proofs together. Agents append reasoning steps to an append-only DAG (the
tape), cite the steps they build on, and trade YES/NO shares on the nodes
they believe in; a Lean 4 compiler acts as the oracle that recognises a
finished proof.

The library (`src/`) is written in Verus and proved correct against its
contracts:

- `kernel` — the tape: append-only, causal (every citation names an earlier
  node), with an exact reverse-citation index; golden paths, chain depths and
  the agents' head.
- `bus` — the graveyard of refused appends, the combination of the tools'
  verdicts on a pending append, and the settlement oracle.
- `tool`, `skill` — the anti-zombie shield and the signals tools send.
- `prediction_market` — resolution and payout rules of a node's market.
- `sdk` — the output protocol, the wallet tag, the librarian's records and
  rejection tally, the search query, the proof chain shown to agents, the
  sandbox contract.
- `drivers` — the decisions of the LLM client (keys, request settings, reply).
- `experiments` — the Lean 4 membranes and oracle as compile-step machines,
  the swarm's bookkeeping, the Hanoi agent, the theorem run, problem files,
  the prompt constitution and the decisions of the ζ-sum proof reactor (roles,
  feedback, the bulletin of common errors, agent moves, the verifying model's
  request and verdict, counters), the MiniF2F v2 market run (falsifier
  moves, the reasoning chain handed to the translator, the retry, stagnation)
  and the MiniF2F batch evaluations (statements, model roster, score,
  zero-shot verdict).
- `maker_milestone` — the MAKER one-million-step milestone verdict.

`app/` is the runtime around it: floating-point markets and scoring, the
wallet, files, processes, HTTP and the async agents. `tests/` exercise the
library from outside.
