# hrns

a one-shot agent runner: pipe a prompt in, get a streaming response out. agents
and skills are plain markdown files with yaml frontmatter; tools are gated by
config and guarded by permissions; hook scripts extend the runner without
recompiling it.

## layout

- `src/` is the verified library. it computes on plain values; whatever reads
  files, runs scripts and commands, asks the user or talks to a model provider
  is the caller's, who hands in what came of it.
  - `text`, `table`, `json`: strings, ordered maps and JSON values with their models
  - `glob`, `permission`: patterns, levels, overrides and the verdict on a call
  - `config`, `resolve`: gates, providers, documents, and where things are looked for
  - `tools`, `hooks`, `schema`, `merge`: the course of a tool call, the host side
    of the hook protocol, the parameters of hook tools, and how answers are merged
  - `agent`, `cli`: the course of a run, and what the program decides and shows
- `tests/` runs the library.
- `app/` is the program around it: argument parsing, the file system, processes,
  the terminal, and the model client.

a tool call and a run are state machines: the library says what to do next, the
program does it and answers with what happened. that no command runs and no file
is read without permission is a theorem about the library
(`tools::law_whole_calls_are_permitted`, `hooks::law_whole_hook_calls_are_permitted`),
not a habit of the program.

## the environment

- `HOME` anchors the global definitions and the global configuration.
- `HRNS_SHARED_DIR` names a third base directory, besides `.opencode` and
  `.agents`, for agents, skills and hooks that are shared with other runners.
- `OPENAI_API_KEY`, `ANTHROPIC_API_KEY`, `GEMINI_API_KEY`, `COHERE_API_KEY` and
  `XAI_API_KEY` are used where the configuration has no key.
