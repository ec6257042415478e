# hydra_engine

The core of an event-sourced graph engine, verified with Verus. Events are the only way in:
they are logged, applied to a graph and to the stores beside it, and answered by handlers and
agents, whose answers are events again.

## What is where

- `src/` is the library. Every function states what it returns or changes, and Verus proves it.
  - `event`, `event_log`, `graph`, `projection`: events, the log with its causal queries, and the
    graph that the events make.
  - `registry`, `cascade`, `determinism`: who asks for which events, the cascade that an event
    starts, and that it always takes the same course.
  - `epistemic_store`, `action_store`, `policy_store`, `causal_cell_store`, `identity_store`,
    `identity_link_store`, `micromodel_store`: what else the events make.
  - `policy_engine`, `policy_agent`, `outcome_agent`: what becomes of proposed and executed actions.
  - `commit`, `commit_ledger`: batches of events in a chain of hashes.
  - `counterfactual`, `coverage`, `anomaly`, `evolution`, `micromodels`: what the graph would be
    without an event, what it lacks, what is out of the ordinary, how subscriptions fare, and the
    small models that watch the engine.
  - `number`, `arithmetic`, `decimals`: binary64 numbers, computed and rendered in integers.
  - `table`, `index`, `ids`, `text`, `value`, `time`, `error`: what all of it is made of.
- `tests/` runs the library.
- `app/` puts a clock, fresh identifiers, handlers and JSON documents around it.

Public proof functions whose names begin with `law_` state what holds across functions: that a
cascade is bounded, ordered and deterministic, that loading recovers a ledger, that tenants do not
see each other's entities, that a score lies between zero and one.

## What is not proved

Four small functions call out and are believed: `text::debug_text` (formatting of strings),
`commit_ledger::json_string` (`serde_json`), and `time::utc_hour` and `time::seconds_between`
(`chrono`). The hasher of the standard library is used through its specification in `vstd`.
