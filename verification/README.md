# procman

A small process supervisor. A configuration file lists processes, each with a
command, the date from which it applies, optional before/init/stop/health
commands, a schedule and dependencies. Every watch cycle reads the
configuration and the recorded state of each process, decides what to launch,
stop or check, performs it, and records the new state.

## Layout

- `src/` — the verified library (Verus):
  - `time`, `text`, `order`: plain-value dates and times, character-level text
    helpers, and the order of texts with a sort by text.
  - `config`, `deps`: the configuration model, its checks (empty uid or
    command, schedules, missing and circular dependencies) and the choice of
    the active configuration of each process.
  - `template`, `expand`: `{{ name }}` placeholders, the variable check, and the
    expansion of templates in a configuration document.
  - `status`, `watch`: the recorded state of each process and the steps of a
    watch cycle, each a function from the table (and what the system
    answered) to the next table and the actions to perform.
  - `observe`, `housekeeping`, `screen`, `sample`: what is concluded from the
    system's answers, the reading of old status files, the decisions of the
    terminal interface, and the sample configuration.
- `app/` — the program around it: command line, files, processes and signals,
  TOML and serde, and the terminal interface.
- `tests/` — tests of the library.
