# codecrafters_shell

A small interactive shell. The library (`src/`) holds its logic, verified
with Verus: the lexer and parser of command lines, builtin commands, command
resolution, pipeline wiring, background-job bookkeeping, history files,
redirection targets, `PATH` handling and tab completion. `app/` is the
program around it: the rustyline line editor, processes, files and the
terminal.

Layout:

- `src/parser/`: tokens and command-line items, with the lexer and parser
  stated as state machines over sequences.
- `src/commands/`: builtins, command resolution and execution decisions,
  background jobs, pipeline wiring and the pipeline transfer encoding.
- `src/state/`: command history and the job table.
- `src/editor/`: tab completion.
- `src/repl.rs`: the decisions of the prompt loop.
- `src/utils/`: text helpers, string order, UTF-8 offsets, paths and
  redirections.
- `tests/`: tests of the library.
- `app/`: `main` and everything that talks to the operating system.
