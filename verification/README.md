# Projector

A local-first workspace for software built with AI agents. Each registered
project keeps its state in ordinary Markdown beside the code: `TODO.md` for
open work, `WORK_HISTORY.md` for accepted work, `AGENTS.md` for agent
guidance and `STARTUP.md` for how to start it.

## Layout

- `src/` is the library, verified with Verus. Its decisions carry exact
  contracts over mathematical models of the documents and stores; the
  functions that read a repository or the disk through git2 and std pass what
  they read, as plain values, to those decisions and state what holds of
  every outcome.
  - `todos`, `history`, `markdown`, `text`: reading, validating and writing the
    structured Markdown formats.
  - `round_trip`: what reading gives back of what was written, and that a
    second migration changes nothing.
  - `project_state`: adding and completing TODOs and appending working history.
  - `review_queue`: agent-reported work held as proposals until it is approved
    (and written) or rejected (and nothing is written).
  - `registry`, `subagent_settings`, `agent_instructions`: the project
    registry, the generated agent files and their managed sections.
  - `git_sync`, `observer`: Git observation through libgit2, fetch and pull
    decisions, and the per-project fetch state.
  - `codex_monitor`: the lifecycle of Codex sessions and subagents reported by
    hooks.
  - `startup`, `migration`, `migration_run`: startup plans, the conversion of
    legacy files, and the decisions of a migration run.
- `tests/` exercises the library on concrete documents and stores.
- `app/` is the command-line program around the library: file and process
  I/O, the loopback HTTP API for agents, the filesystem watcher and the
  serialised forms of the library's types.

## Commands

```
projector serve                      # the agent API on 127.0.0.1:48721; completions become proposals
projector list | show <id> | start <id> | watch
projector register <dir> | create <parent> <name> [--git] | remove <id> | pull <id>
projector update-agents <id>          # needs PROJECTOR_SUBAGENT_DEFAULTS
projector hook < event.json           # records a Codex hook event
projector reviews <id>                # pending review proposals
projector propose <id> <todo> < completion.json | propose-history <id> < entry.json
projector approve <id> <proposal> | reject <id> <proposal>
projector migrate <Projects dir> <report file>
```

Stores live under `PROJECTOR_DATA_DIR` (default `~/.local/share/projector`).
