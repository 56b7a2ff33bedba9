# mcp-flowgate-core

The core of a workflow gateway: configurations are resolved and checked, workflows are
started and moved from state to state under guards, and every step leaves a record.

`src/` is the library. Its functions are verified with Verus: each states in its contract
what it returns or changes, over mathematical models of JSON values, instances, audit
events and configurations. It does no input or output. Where a step needs the world
outside, the library decides what to do next and takes what came of it as an event:

- `Starting`, `Submission` and `Chain` (`runtime`, `runtime_submit`, `runtime_chain`)
  start a workflow, take a transition and follow the transitions that need no decision;
- `Attempts` (`reliability`) runs an executor as often as its policy allows;
- `Selection`, `Branching` and `GuardRun` judge guards one by one;
- `guards::evaluate` asks for what only the caller can answer.

| Modules | |
|---|---|
| `json`, `text`, `table` | values, texts and tables, with their models |
| `config`, `config_*` | merging, checking, resolving and stamping configurations |
| `repo` | manifests of repositories |
| `lexicon`, `lexicon_candidates` | terms, and what a misspelt one may have meant |
| `discovery` | the index that is searched |
| `guards`, `mapping` | conditions of transitions, and what they write |
| `validate`, `validate_rules`, `validate_laws`, `slot_table`, `graph`, `tier`, `diagnostic` | findings on workflows |
| `store`, `audit`, `model`, `error`, `proxy_workflow` | what is kept, recorded and exchanged |
| `runtime`, `runtime_*`, `reliability` | running workflows |

Public proof functions named `law_*` state what holds across functions: that a second
writer is refused, that a record is written before what it records is committed, that
every link can be followed, that resolving a configuration twice changes nothing.

`app/` is the gateway around the library: stores on disk and in databases, audit sinks,
configuration files, executors, and the arithmetic that takes floating point. `tests/`
runs the library on concrete values.
