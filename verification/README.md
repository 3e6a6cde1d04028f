# tide

A terminal idle screensaver: Conway's Game of Life on a toroidal board, drawn
two board rows per text line with half-block characters, started by a watcher
when the shell prompt has been idle.

- `src/` is the verified library (Verus): the life engine (`life`), the frame
  renderer (`render`), terminal events (`input`), the screensaver's per-tick
  state machine (`app`), the persistent watcher's command line, lock file and
  state machine (`watch`), the one-shot watcher (`notify`), and decimal parsing
  (`number`).
- `app/` is the executable: terminal I/O, signals, processes and the loops that
  feed events to the library. Invoked as `tide` it runs the screensaver, as
  `tide-watch` the persistent watcher, as `tide_watch` the one-shot watcher.
- `tests/` exercises the library on concrete values.
