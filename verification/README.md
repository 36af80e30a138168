# Nota

A framework for AI agent sessions: personas that answer chat messages with a
language model and a set of tools, sessions stored in SQLite, and an HTTP and
WebSocket server in front of them.

The logic lives in `src/`, a library verified with Verus: every public
function states what it returns or changes, and Verus proves it.

| Module | What it holds |
|--------|---------------|
| `agent` | the agent loop as a state machine: ask the model, run the tools it calls, stop after 16 questions |
| `bus` | the events on the in-process bus |
| `clock` | parsing and formatting timestamps with `chrono` |
| `config` | the configuration, its store, the provider table, key masking, the base directory |
| `file_access` | the steps of a file tool run: resolve, ask outside the workspace, touch or fail |
| `http` | replies of the REST endpoints, static-file lookup, WebSocket request routing |
| `keyed` | a map keyed by strings, kept as a vector with distinct keys |
| `llm` | chat messages, their wire form, requests and responses of the model API |
| `path` | path components and prefixes as `std::path` reads them |
| `permissions` | permission questions waiting for the user |
| `persona` | what a persona reacts to, its prompt, its chat log, one turn |
| `persona_store` | where persona files live, and the cache of their contents |
| `plugin` | plugin manifests, the bootstrap script, the table of loaded plugins |
| `schedule_md` | the markdown task-list format of schedules, with its read-back laws |
| `session` | session entities and the in-memory session table |
| `store` | session database rows, paths and errors |
| `text` | characters, trimming, searching, decimal numbers |
| `tool` | tool schemas, the built-in tools, the tool registry |
| `wizard` | the decisions of the configuration wizard |

`app/` is the program around it: the command line, the terminal wizard, the
file system, SQLite, the model's HTTP API, the axum server and the tokio tasks.
It drives the library's state machines and performs what they ask for.

`tests/` runs the library on concrete values.
