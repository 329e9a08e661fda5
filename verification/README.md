# mimo_tui

The decision-making core of a terminal client for MiMo chat models, written
in Verus: every function in `src/` carries a contract that the verifier proves.

- `src/` — the verified library: slash-command parsing, the input buffer,
  key handling, the branching conversation tree, the agent turn state, tool
  approval, shell output bookkeeping, workspace path rules, attachment search
  and ranking, memory notes, skills, tasks, configuration rules, host policy
  for remote downloads, and the streaming-response merge logic.
- `tests/` — ordinary Rust tests run against the compiled library.
- `app/` — the command-line program: argument handling, configuration files,
  the environment and the HTTP client, the one-shot `ask`, `doctor` and
  `models` commands, and a line-by-line session. It hands plain values to the
  library and acts on what comes back.

What is not here: the full-screen terminal interface (its drawing and event
loop; the decisions it takes are in `src/`), tools beyond reading, listing,
writing and editing files (`ask` offers only those four), and saving,
loading or exporting sessions.
