# AgentRT

AgentRT is a local-first runtime for multi-step work with language models. A run
is a durable workflow: its steps, their results and a trail of events are kept,
so that a run which is killed can be taken up again without repeating an effect
that was recorded.

The library under `src/` holds all of the rules, written and proved in Verus. It
does no input or output. Where the outside world is needed, a state machine says
what it asks for and is told what came of it:

| module | what it holds |
| --- | --- |
| `text`, `number`, `json`, `members`, `path` | texts, numbers, JSON values and paths |
| `run`, `store`, `history` | runs, the store of runs, and what every change of a run keeps |
| `sandbox`, `containment` | typed tools under a policy, and what they can never ask for |
| `gate` | deterministic gates |
| `audit`, `evidence` | audit bundles, and what can be read back from them |
| `plan`, `plan_text`, `model` | plans of models, requests, answers, retries and redaction |
| `exec`, `session` | deterministic execution and the work on a run |
| `recovery`, `replay` | what holds of runs that are interrupted |
| `agent`, `planner`, `repair` | repairs of one file, and what holds of them |
| `faithful` | that runs succeed on a host that does what it is asked, however often they are killed |
| `eval` | the evaluation suite |
| `cli`, `tool_command`, `settings`, `report` | the command line, what it prints and the codes it exits with |

The program under `app/` carries out what the machines ask for: it keeps runs in
SQLite, serves the file system, runs tests, talks to models and prints. It keeps
the record of a run before it carries out a request.

What is taken on trust stands behind a few small functions, each with a comment
that says what is claimed: reading and writing JSON with `serde_json`, the digest
of `sha2`, and `String::push`.
