# yardmaster

A yardmaster coordinates every track of a rail yard and never drives a train.
This one coordinates coding agents: it takes tickets in, gives each a branch, a
worktree and an agent, runs the local checks, pushes, and stops in front of the
pull request until a human approves it.

The crate is split in two.

- `src/` is the library. It holds everything that is decided, and Verus proves
  it: what is recorded, what is asked for next, what is answered, and every
  message. It performs nothing: a step takes what came of the outside work, the
  storage and the time, and says what to do next.
- `app/` is the binary `yard` around it: sockets, processes, git, HTTP, SQLite,
  the files and the environment.

## Modules

| module | what it decides |
|---|---|
| `text`, `table`, `json`, `clock`, `paths` | text, ordered tables, JSON values, timestamps, file locations |
| `config` | defaults, validation, branch templates, slugs |
| `storage` | work items, the append-only event log, gate requests |
| `state` | the workflow states and who may be worked for |
| `gate` | which actions wait for a human, and their verdicts |
| `adapters` | the data and the traits of tickets, agents, forges and secrets |
| `ipc`, `server`, `client` | the JSON-lines protocol and both of its ends |
| `lifecycle` | the single-instance lock and the stages of a daemon run |
| `rest`, `provider_github`, `forge_github` | REST requests, replies, pages and errors |
| `worktree`, `runner_omp`, `secrets` | git worktrees, agent sessions, secret stores |
| `scheduler` | a ticket from intake to its gate, and what a verdict leads to |

## What is proved

Every public function states what it returns or changes, failures included.
Where something outside decides, its contract says what holds whatever comes
back: functions that read the clock promise a timestamp and not which one, a
chain of secret stores says how it goes on after any answer a store may give,
text that another crate produces is named, not spelled out, and the methods of
the adapter traits promise nothing of what their implementers do. Beside the
functions stand the properties that hold across them, among them:

- the event log is only ever appended to, and rows never vanish;
- a gate request gets one verdict, and a rejected one leads to nothing;
- a pull request is handed out only after a human verdict is on record, and is
  exactly the draft that was approved;
- someone else's ticket leaves no trace;
- a token reaches no part of a request but its `Authorization` header;
- a lock is never taken from a live daemon, and every run removes what it owns;
- a secret is read from its variable first and from the file last, and is never
  written to the environment;
- timestamps sort as texts the way their moments do.

Calls into other crates and into parts of the standard library that have no
contract of their own stand behind small functions marked
`#[verifier::external_body]`, each with a comment on what is taken for granted.
