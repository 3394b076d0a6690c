# openab

The logic of a bridge between chat platforms and coding agents, verified with Verus.

- `src/` is the library. Its functions state their contracts, and Verus proves them.
  - `adapter` reads directives in prompts and replies, tracks a turn, renders tool
    activity, splits and delivers replies, and selects files to upload.
  - `acp` keeps the sessions of agents and finds the directory each thread works in.
  - `dispatch` groups messages into turns.
  - `thread_binding` records which workspace a thread is bound to and which agent
    leads it.
  - `reactions`, `media`, `scaling`, `hooks` and `remind` hold the rules for status
    reactions, attachments, image sizes, start-up scripts and reminders.
  - `text`, `table`, `paths`, `json` and `config` are what the others build on.
- `tests/` runs the library on concrete values.
- `app/` holds what touches the outside world: files, processes, the network, timers
  and tasks. It asks the library what to do and hands back what came of it.

Calls into other crates (`image`, `base64`, `sha2`, `serde_json`, `chrono`, `rand`)
stand in `src/` as small wrappers whose contracts are believed, not proved; each says
what it claims. Properties that span functions are the public proof functions named
`law_*`.
